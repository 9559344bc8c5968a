use vstd::prelude::*;

verus! {

/// A window event, as far as the input system tells them apart.
#[derive(Clone, Copy, Debug, PartialEq, Eq, Structural)]
pub enum WindowEvent {
    Quit,
    KeyDown(u32),
    KeyUp(u32),
}

/// Tracks which keys are held, from the window's events.
pub struct InputPlugin {
    pub held: Vec<u32>,
}

/// `k` is held after the events of `events`, starting from `held`.
pub open spec fn held_after(held: Seq<u32>, events: Seq<WindowEvent>, k: u32) -> bool
    decreases events.len(),
{
    if events.len() == 0 {
        held.contains(k)
    } else {
        match events.last() {
            WindowEvent::KeyDown(x) => x == k || held_after(held, events.drop_last(), k),
            WindowEvent::KeyUp(x) => x != k && held_after(held, events.drop_last(), k),
            WindowEvent::Quit => held_after(held, events.drop_last(), k),
        }
    }
}

proof fn lemma_push_contains(s: Seq<u32>, x: u32)
    ensures
        forall|y: u32| #[trigger] s.push(x).contains(y) <==> (s.contains(y) || y == x),
{
    assert forall|y: u32| #[trigger] s.push(x).contains(y) <==> (s.contains(y) || y == x) by {
        if s.push(x).contains(y) {
            let a = choose|a: int| 0 <= a < s.push(x).len() && s.push(x)[a] == y;
            if a < s.len() {
                assert(s[a] == y);
            }
        }
        if s.contains(y) {
            let a = choose|a: int| 0 <= a < s.len() && s[a] == y;
            assert(s.push(x)[a] == y);
        }
        if y == x {
            assert(s.push(x)[s.len() as int] == y);
        }
    }
}

impl InputPlugin {
    pub fn new() -> (r: InputPlugin)
        ensures
            r.held@ == Seq::<u32>::empty(),
    {
        InputPlugin { held: Vec::new() }
    }

    pub fn is_held(&self, k: u32) -> (r: bool)
        ensures
            r == self.held@.contains(k),
    {
        let mut i: usize = 0;
        while i < self.held.len()
            invariant
                i <= self.held@.len(),
                forall|j: int| 0 <= j < i ==> self.held@[j] != k,
            decreases self.held@.len() - i,
        {
            if self.held[i] == k {
                return true;
            }
            i = i + 1;
        }
        false
    }

    fn release(&mut self, k: u32)
        ensures
            forall|x: u32| final(self).held@.contains(x) <==> (old(self).held@.contains(x) && x != k),
    {
        let mut kept: Vec<u32> = Vec::new();
        let mut i: usize = 0;
        while i < self.held.len()
            invariant
                self.held == old(self).held,
                i <= self.held@.len(),
                forall|x: u32| kept@.contains(x) <==> (self.held@.take(i as int).contains(x) && x != k),
            decreases self.held@.len() - i,
        {
            let x = self.held[i];
            proof {
                assert(self.held@.take(i + 1) == self.held@.take(i as int).push(x));
                lemma_push_contains(self.held@.take(i as int), x);
            }
            if x != k {
                let ghost before = kept@;
                kept.push(x);
                proof {
                    lemma_push_contains(before, x);
                }
            }
            i = i + 1;
        }
        proof {
            assert(self.held@.take(self.held@.len() as int) =~= self.held@);
        }
        self.held = kept;
    }

    /// Applies a batch of window events to the held keys; `true` when one of
    /// them asks to quit.
    pub fn handle_events(&mut self, events: &Vec<WindowEvent>) -> (quit: bool)
        ensures
            quit == exists|i: int| 0 <= i < events@.len() && events@[i] == WindowEvent::Quit,
            forall|k: u32| final(self).held@.contains(k) <==> held_after(old(self).held@, events@, k),
    {
        let mut quit = false;
        let mut i: usize = 0;
        while i < events.len()
            invariant
                i <= events@.len(),
                quit == exists|j: int| 0 <= j < i && events@[j] == WindowEvent::Quit,
                forall|k: u32| self.held@.contains(k) <==> held_after(old(self).held@, events@.take(i as int), k),
            decreases events@.len() - i,
        {
            proof {
                assert(events@.take(i + 1).drop_last() =~= events@.take(i as int));
                assert(events@.take(i + 1).last() == events@[i as int]);
            }
            match events[i] {
                WindowEvent::Quit => {
                    quit = true;
                },
                WindowEvent::KeyDown(k) => {
                    if !self.is_held(k) {
                        let ghost before = self.held@;
                        self.held.push(k);
                        proof {
                            lemma_push_contains(before, k);
                        }
                    }
                },
                WindowEvent::KeyUp(k) => {
                    self.release(k);
                },
            }
            i = i + 1;
        }
        proof {
            assert(events@.take(events@.len() as int) =~= events@);
        }
        quit
    }
}

} // verus!
