use vstd::prelude::*;
use crate::handle::VersionedIndex;
use crate::slots::freed_all;
use crate::entities::without_handles;
use crate::profiler::{millis, ms_of, Profiler};
use crate::registry::Registry;

verus! {

/// Frames per second for a frame of `us` microseconds (`u32::MAX` for an empty frame).
pub open spec fn fps_of(us: u64) -> u32 {
    if us == 0 {
        u32::MAX
    } else {
        (1_000_000u64 / us) as u32
    }
}

#[derive(Clone, Copy, Debug, PartialEq, Eq, Structural)]
pub struct DebugInfo {
    pub fps: u32,
    pub frame_ms: u32,
    pub controller_ms: u32,
    pub render_ms: u32,
    pub draw_calls: u32,
}

impl DebugInfo {
    pub fn new() -> (r: DebugInfo)
        ensures
            r == (DebugInfo { fps: 0, frame_ms: 0, controller_ms: 0, render_ms: 0, draw_calls: 0 }),
    {
        DebugInfo { fps: 0, frame_ms: 0, controller_ms: 0, render_ms: 0, draw_calls: 0 }
    }
}

/// What the systems of a tick share besides the registry.
#[derive(Clone, Copy, Debug, PartialEq, Eq, Structural)]
pub struct FrameState {
    /// Length of the previous frame, in microseconds.
    pub delta_us: u64,
    pub debug_mode: bool,
    pub debug_info: DebugInfo,
}

/// What a controller asks of the frame loop.
#[derive(Clone, Copy, Debug, PartialEq, Eq, Structural)]
pub enum FrameResponse {
    Quit,
    Restart,
    Continue,
}

/// Fills in the frame rate and frame time from the frame's length.
pub fn set_frame_debug_info(app_state: &mut FrameState)
    ensures
        final(app_state).debug_info.fps == fps_of(old(app_state).delta_us),
        final(app_state).debug_info.frame_ms == ms_of(old(app_state).delta_us),
        final(app_state).delta_us == old(app_state).delta_us,
        final(app_state).debug_mode == old(app_state).debug_mode,
        final(app_state).debug_info.controller_ms == old(app_state).debug_info.controller_ms,
        final(app_state).debug_info.render_ms == old(app_state).debug_info.render_ms,
        final(app_state).debug_info.draw_calls == old(app_state).debug_info.draw_calls,
{
    let d = app_state.delta_us;
    app_state.debug_info.fps = if d == 0 { u32::MAX } else { (1_000_000u64 / d) as u32 };
    app_state.debug_info.frame_ms = millis(d);
}

/// A registry with each kind of `kinds` registered.
pub fn setup<C, R>(kinds: &Vec<u64>) -> (r: Registry<C, R>)
    ensures
        r.wf(),
        forall|k: u64| r.entities.registered(k) <==> kinds@.contains(k),
        forall|k: u64| #[trigger] r.entities.rows(k) == Map::<VersionedIndex, C>::empty(),
        r.entities.pending() == Seq::<VersionedIndex>::empty(),
        r.entities.slots_view().slots.len() == 0,
        r.entities.slots_view().free.len() == 0,
        r.resources.values() == Map::<VersionedIndex, R>::empty(),
        r.resources.names() == Seq::<(Seq<char>, VersionedIndex)>::empty(),
        r.resources.pending() == Seq::<VersionedIndex>::empty(),
{
    let mut registry: Registry<C, R> = Registry::init();
    let mut i: usize = 0;
    while i < kinds.len()
        invariant
            registry.wf(),
            i <= kinds@.len(),
            forall|k: u64| registry.entities.registered(k) <==> kinds@.take(i as int).contains(k),
            forall|k: u64| #[trigger] registry.entities.rows(k) == Map::<VersionedIndex, C>::empty(),
            registry.entities.pending() == Seq::<VersionedIndex>::empty(),
            registry.entities.slots_view().slots.len() == 0,
            registry.entities.slots_view().free.len() == 0,
            registry.resources.values() == Map::<VersionedIndex, R>::empty(),
            registry.resources.names() == Seq::<(Seq<char>, VersionedIndex)>::empty(),
            registry.resources.pending() == Seq::<VersionedIndex>::empty(),
        decreases kinds@.len() - i,
    {
        registry.entities.register_component(kinds[i]);
        proof {
            let t0 = kinds@.take(i as int);
            let t1 = kinds@.take(i + 1);
            assert forall|k: u64| t1.contains(k) <==> (t0.contains(k) || k == kinds@[i as int]) by {
                if t1.contains(k) {
                    let a = choose|a: int| 0 <= a < t1.len() && t1[a] == k;
                    if a < i {
                        assert(t0[a] == k);
                    }
                }
                if t0.contains(k) {
                    let a = choose|a: int| 0 <= a < t0.len() && t0[a] == k;
                    assert(t1[a] == k);
                }
                if k == kinds@[i as int] {
                    assert(t1[i as int] == k);
                }
            }
        }
        i = i + 1;
    }
    proof {
        assert(kinds@.take(kinds@.len() as int) =~= kinds@);
    }
    registry
}

/// The engine: the registry, the frame's shared state, and the controllers
/// and renderers that run each tick, in the order they were registered.
pub struct QuiPi<C, R, K, D> {
    pub registry: Registry<C, R>,
    pub profiler: Profiler,
    pub frame_state: FrameState,
    pub controllers: Vec<K>,
    pub renderers: Vec<D>,
}

impl<C, R, K, D> QuiPi<C, R, K, D> {
    pub closed spec fn controllers(&self) -> Seq<K> {
        self.controllers@
    }

    pub closed spec fn renderers(&self) -> Seq<D> {
        self.renderers@
    }

    pub closed spec fn frame_state_spec(&self) -> FrameState {
        self.frame_state
    }

    pub open spec fn wf(&self) -> bool {
        self.registry.wf()
    }

    /// An engine whose registry has the component kinds `kinds`, with no
    /// controller or renderer yet.
    pub fn init(kinds: &Vec<u64>) -> (r: QuiPi<C, R, K, D>)
        ensures
            r.wf(),
            forall|k: u64| r.registry.entities.registered(k) <==> kinds@.contains(k),
            r.registry.entities.slots_view().slots.len() == 0,
            r.registry.resources.values() == Map::<VersionedIndex, R>::empty(),
            r.controllers() == Seq::<K>::empty(),
            r.renderers() == Seq::<D>::empty(),
            r.frame_state_spec() == (FrameState { delta_us: 0, debug_mode: false, debug_info: DebugInfo::new_spec() }),
    {
        let registry = setup(kinds);
        QuiPi {
            registry,
            profiler: Profiler::new(),
            frame_state: FrameState { delta_us: 0, debug_mode: false, debug_info: DebugInfo::new() },
            controllers: Vec::new(),
            renderers: Vec::new(),
        }
    }

    pub fn register_controller(&mut self, controller: K)
        ensures
            final(self).controllers() == old(self).controllers().push(controller),
            final(self).renderers() == old(self).renderers(),
            final(self).registry == old(self).registry,
    {
        self.controllers.push(controller);
    }

    pub fn register_renderer(&mut self, renderer: D)
        ensures
            final(self).renderers() == old(self).renderers().push(renderer),
            final(self).controllers() == old(self).controllers(),
            final(self).registry == old(self).registry,
    {
        self.renderers.push(renderer);
    }

    pub fn frame_state(&self) -> (r: FrameState)
        ensures
            r == self.frame_state_spec(),
    {
        self.frame_state
    }

    /// The start of a tick: applies the pending destructions, then fills in
    /// the frame rate of the previous frame.
    pub fn begin_frame(&mut self)
        requires
            old(self).wf(),
        ensures
            final(self).wf(),
            final(self).entities_flushed_from(old(self).registry),
            final(self).controllers() == old(self).controllers(),
            final(self).renderers() == old(self).renderers(),
            final(self).frame_state_spec().debug_info.fps == fps_of(old(self).frame_state_spec().delta_us),
            final(self).frame_state_spec().debug_info.frame_ms == ms_of(old(self).frame_state_spec().delta_us),
    {
        self.registry.flush();
        set_frame_debug_info(&mut self.frame_state);
    }

    pub open spec fn entities_flushed_from(&self, before: Registry<C, R>) -> bool {
        &&& self.registry.entities.pending() == Seq::<VersionedIndex>::empty()
        &&& self.registry.entities.slots_view() == freed_all(before.entities.slots_view(), before.entities.pending())
        &&& forall|x: u64| #[trigger] self.registry.entities.rows(x)
            == without_handles(before.entities.rows(x), before.entities.pending())
        &&& self.registry.resources.pending() == Seq::<VersionedIndex>::empty()
        &&& self.registry.resources.slots_view() == freed_all(before.resources.slots_view(), before.resources.pending())
        &&& self.registry.resources.values() == without_handles(before.resources.values(), before.resources.pending())
    }

    /// Starts timing the controllers or the renderers at `now_us`.
    pub fn begin_timing(&mut self, now_us: u64)
        ensures
            final(self).profiler.started() == now_us,
            final(self).registry == old(self).registry,
            final(self).frame_state_spec() == old(self).frame_state_spec(),
            final(self).controllers() == old(self).controllers(),
            final(self).renderers() == old(self).renderers(),
    {
        self.profiler.begin(now_us);
    }

    /// Whole milliseconds since the last `begin_timing`.
    pub fn end_timing(&self, now_us: u64) -> (r: u32)
        ensures
            r == ms_of(if now_us >= self.profiler.started() { (now_us - self.profiler.started()) as u64 } else { 0 }),
    {
        self.profiler.end(now_us)
    }

    /// Applies a controller's response: `true` when the loop must stop.
    pub fn handle_response(&mut self, response: FrameResponse) -> (quit: bool)
        ensures
            quit == (response == FrameResponse::Quit),
            final(self).registry == old(self).registry,
            final(self).controllers() == old(self).controllers(),
            final(self).renderers() == old(self).renderers(),
            final(self).frame_state_spec().debug_info == old(self).frame_state_spec().debug_info,
            response == FrameResponse::Restart ==> final(self).frame_state_spec().delta_us == 0,
            response != FrameResponse::Restart ==> final(self).frame_state_spec() == old(self).frame_state_spec(),
    {
        match response {
            FrameResponse::Quit => true,
            FrameResponse::Restart => {
                self.frame_state.delta_us = 0;
                false
            },
            FrameResponse::Continue => false,
        }
    }

    /// The end of a tick: records the measured times, the draw calls of all
    /// renderers, and the length of this frame.
    pub fn end_frame(&mut self, controller_ms: u32, render_ms: u32, draw_calls: &Vec<u32>, delta_us: u64)
        ensures
            final(self).registry == old(self).registry,
            final(self).controllers() == old(self).controllers(),
            final(self).renderers() == old(self).renderers(),
            final(self).frame_state_spec().debug_info.controller_ms == controller_ms,
            final(self).frame_state_spec().debug_info.render_ms == render_ms,
            final(self).frame_state_spec().debug_info.draw_calls as int == capped_sum(draw_calls@),
            final(self).frame_state_spec().delta_us == delta_us,
            final(self).frame_state_spec().debug_info.fps == old(self).frame_state_spec().debug_info.fps,
            final(self).frame_state_spec().debug_info.frame_ms == old(self).frame_state_spec().debug_info.frame_ms,
    {
        self.frame_state.debug_info.controller_ms = controller_ms;
        self.frame_state.debug_info.render_ms = render_ms;
        self.frame_state.debug_info.draw_calls = sum_draw_calls(draw_calls);
        self.frame_state.delta_us = delta_us;
    }
}

/// The sum of `s`, capped at `u32::MAX`.
pub open spec fn capped_sum(s: Seq<u32>) -> int
    decreases s.len(),
{
    if s.len() == 0 {
        0
    } else {
        let t = capped_sum(s.drop_last()) + s.last();
        if t > u32::MAX { u32::MAX as int } else { t }
    }
}

/// Adds up the draw calls reported by the renderers, saturating.
pub fn sum_draw_calls(calls: &Vec<u32>) -> (r: u32)
    ensures
        r as int == capped_sum(calls@),
{
    let mut total: u32 = 0;
    let mut i: usize = 0;
    while i < calls.len()
        invariant
            i <= calls@.len(),
            total as int == capped_sum(calls@.take(i as int)),
        decreases calls@.len() - i,
    {
        proof {
            assert(calls@.take(i + 1).drop_last() =~= calls@.take(i as int));
        }
        total = total.saturating_add(calls[i]);
        i = i + 1;
    }
    proof {
        assert(calls@.take(calls@.len() as int) =~= calls@);
    }
    total
}

impl DebugInfo {
    pub open spec fn new_spec() -> DebugInfo {
        DebugInfo { fps: 0, frame_ms: 0, controller_ms: 0, render_ms: 0, draw_calls: 0 }
    }
}

} // verus!
