use vstd::prelude::*;

verus! {

/// Whole milliseconds in `us` microseconds, capped at `u32::MAX`.
pub open spec fn ms_of(us: u64) -> u32 {
    if us / 1000 > u32::MAX as u64 {
        u32::MAX
    } else {
        (us / 1000) as u32
    }
}

pub fn millis(us: u64) -> (r: u32)
    ensures
        r == ms_of(us),
{
    let ms = us / 1000;
    if ms > u32::MAX as u64 {
        u32::MAX
    } else {
        ms as u32
    }
}

/// Measures the time between `begin` and `end`, on timestamps in microseconds
/// taken by the caller.
pub struct Profiler {
    started_us: u64,
}

impl Profiler {
    pub closed spec fn started(&self) -> u64 {
        self.started_us
    }

    pub fn new() -> (r: Profiler)
        ensures
            r.started() == 0,
    {
        Profiler { started_us: 0 }
    }

    /// Starts a measurement at `now_us`.
    pub fn begin(&mut self, now_us: u64)
        ensures
            final(self).started() == now_us,
    {
        self.started_us = now_us;
    }

    /// Whole milliseconds since `begin`; a clock that went back gives 0.
    pub fn end(&self, now_us: u64) -> (r: u32)
        ensures
            r == ms_of(if now_us >= self.started() { (now_us - self.started()) as u64 } else { 0 }),
    {
        let elapsed = if now_us >= self.started_us { now_us - self.started_us } else { 0 };
        millis(elapsed)
    }
}

} // verus!
