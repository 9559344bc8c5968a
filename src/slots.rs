use vstd::prelude::*;
use crate::handle::{InvalidHandle, VersionedIndex};

verus! {

/// One cell of the generational allocator.
#[derive(Clone, Copy, Debug, PartialEq, Eq, Structural)]
pub enum Slot {
    /// Not in use; holds the generation that the next occupant will carry.
    Free(u64),
    /// In use by the handle with this generation.
    Occupied(u64),
}

/// The abstract state of a slot table: its slots, and the indices that are
/// ready for reuse (the last one is reused first).
pub struct SlotsView {
    pub slots: Seq<Slot>,
    pub free: Seq<usize>,
}

/// `h` addresses an occupied slot whose generation is `h`'s.
pub open spec fn live_in(v: SlotsView, h: VersionedIndex) -> bool {
    h.index < v.slots.len() && v.slots[h.index as int] == Slot::Occupied(h.generation)
}

/// The state after freeing `h`: its generation is bumped and its index goes on
/// the free list, unless the new generation is the last one, in which case the
/// slot is retired. A handle that is not live leaves the state as it is.
pub open spec fn freed(v: SlotsView, h: VersionedIndex) -> SlotsView {
    if live_in(v, h) {
        let g = (h.generation + 1) as u64;
        SlotsView {
            slots: v.slots.update(h.index as int, Slot::Free(g)),
            free: if g < u64::MAX { v.free.push(h.index) } else { v.free },
        }
    } else {
        v
    }
}

/// Frees each handle of `hs` in order.
pub open spec fn freed_all(v: SlotsView, hs: Seq<VersionedIndex>) -> SlotsView
    decreases hs.len(),
{
    if hs.len() == 0 {
        v
    } else {
        freed(freed_all(v, hs.drop_last()), hs.last())
    }
}

/// The state after an allocation, and the handle it gives out.
pub open spec fn allocated(v: SlotsView) -> (SlotsView, VersionedIndex) {
    if v.free.len() > 0 {
        let i = v.free.last();
        let g = v.slots[i as int]->Free_0;
        (
            SlotsView { slots: v.slots.update(i as int, Slot::Occupied(g)), free: v.free.drop_last() },
            VersionedIndex { index: i, generation: g },
        )
    } else {
        (
            SlotsView { slots: v.slots.push(Slot::Occupied(0)), free: v.free },
            VersionedIndex { index: v.slots.len() as usize, generation: 0 },
        )
    }
}

/// The live handles among the first `n` slots, in index order.
pub open spec fn live_prefix(slots: Seq<Slot>, n: int) -> Seq<VersionedIndex>
    decreases n,
{
    if n <= 0 {
        Seq::empty()
    } else {
        let rest = live_prefix(slots, n - 1);
        match slots[n - 1] {
            Slot::Occupied(g) => rest.push(VersionedIndex { index: (n - 1) as usize, generation: g }),
            Slot::Free(_) => rest,
        }
    }
}

/// The live handles of a state, in index order.
pub open spec fn live_handles(v: SlotsView) -> Seq<VersionedIndex> {
    live_prefix(v.slots, v.slots.len() as int)
}

/// A well-formed state: every index on the free list is in range, distinct,
/// and names a free slot whose generation can still be issued; no occupied
/// slot carries the last generation.
pub open spec fn slots_wf(v: SlotsView) -> bool {
    &&& v.slots.len() <= usize::MAX
    &&& v.free.no_duplicates()
    &&& forall|i: int| 0 <= i < v.free.len() ==> {
        &&& #[trigger] v.free[i] < v.slots.len()
        &&& v.slots[v.free[i] as int] is Free
        &&& v.slots[v.free[i] as int]->Free_0 < u64::MAX
    }
    &&& forall|i: int| 0 <= i < v.slots.len() && #[trigger] v.slots[i] is Occupied
        ==> v.slots[i]->Occupied_0 < u64::MAX
}

pub proof fn lemma_live_prefix(slots: Seq<Slot>, n: int)
    requires
        0 <= n <= slots.len(),
        slots.len() <= usize::MAX,
    ensures
        live_prefix(slots, n).no_duplicates(),
        forall|j: int| 0 <= j < live_prefix(slots, n).len() ==> (#[trigger] live_prefix(slots, n)[j]).index < n,
        forall|i: int, j: int| 0 <= i < j < live_prefix(slots, n).len()
            ==> live_prefix(slots, n)[i].index < live_prefix(slots, n)[j].index,
        forall|h: VersionedIndex| live_prefix(slots, n).contains(h)
            <==> (h.index < n && slots[h.index as int] == Slot::Occupied(h.generation)),
    decreases n,
{
    if n > 0 {
        lemma_live_prefix(slots, n - 1);
        let rest = live_prefix(slots, n - 1);
        match slots[n - 1] {
            Slot::Occupied(g) => {
                let h = VersionedIndex { index: (n - 1) as usize, generation: g };
                assert(live_prefix(slots, n) == rest.push(h));
                assert forall|x: VersionedIndex| live_prefix(slots, n).contains(x)
                    <==> (x.index < n && slots[x.index as int] == Slot::Occupied(x.generation)) by {
                    if live_prefix(slots, n).contains(x) {
                        let j = choose|j: int| 0 <= j < rest.push(h).len() && rest.push(h)[j] == x;
                        if j < rest.len() {
                            assert(rest[j] == x);
                            assert(rest.contains(x));
                        } else {
                            assert(x == h);
                        }
                    }
                    if x.index < n && slots[x.index as int] == Slot::Occupied(x.generation) {
                        if x.index == n - 1 {
                            assert(x == h);
                            assert(rest.push(h)[rest.len() as int] == x);
                        } else {
                            assert(rest.contains(x));
                            let j = choose|j: int| 0 <= j < rest.len() && rest[j] == x;
                            assert(rest.push(h)[j] == x);
                        }
                    }
                }
            },
            Slot::Free(_) => {
                assert forall|x: VersionedIndex| live_prefix(slots, n).contains(x)
                    <==> (x.index < n && slots[x.index as int] == Slot::Occupied(x.generation)) by {
                    if x.index == n - 1 {
                        assert(!rest.contains(x));
                    }
                }
            },
        }
    }
}

/// A generational allocator of slot indices.
pub struct SlotTable {
    slots: Vec<Slot>,
    free: Vec<usize>,
}

impl View for SlotTable {
    type V = SlotsView;

    closed spec fn view(&self) -> SlotsView {
        SlotsView { slots: self.slots@, free: self.free@ }
    }
}

impl SlotTable {
    pub open spec fn wf(&self) -> bool {
        slots_wf(self@)
    }

    pub open spec fn live(&self, h: VersionedIndex) -> bool {
        live_in(self@, h)
    }

    pub fn new() -> (r: SlotTable)
        ensures
            r.wf(),
            r@.slots == Seq::<Slot>::empty(),
            r@.free == Seq::<usize>::empty(),
    {
        SlotTable { slots: Vec::new(), free: Vec::new() }
    }

    /// Hands out a handle to a slot: the most recently freed reusable index,
    /// or a new slot with generation 0.
    pub fn allocate(&mut self) -> (r: VersionedIndex)
        requires
            old(self).wf(),
        ensures
            final(self).wf(),
            (final(self)@, r) == allocated(old(self)@),
            final(self).live(r),
            !old(self).live(r),
    {
        if self.free.len() > 0 {
            let i = self.free.pop().unwrap();
            let g = match self.slots[i] {
                Slot::Free(g) => g,
                Slot::Occupied(g) => g,
            };
            self.slots.set(i, Slot::Occupied(g));
            let ghost v = old(self)@;
            assert(v.free[v.free.len() - 1] == i);
            assert forall|j: int| 0 <= j < self.free@.len() implies #[trigger] self.free@[j] != i by {
                assert(v.free[j] == self.free@[j]);
            }
            assert forall|j: int| 0 <= j < self@.free.len() implies {
                &&& #[trigger] self@.free[j] < self@.slots.len()
                &&& self@.slots[self@.free[j] as int] is Free
                &&& self@.slots[self@.free[j] as int]->Free_0 < u64::MAX
            } by {
                assert(v.free[j] == self.free@[j]);
            }
            VersionedIndex { index: i, generation: g }
        } else {
            let i = self.slots.len();
            self.slots.push(Slot::Occupied(0));
            let _ = self.slots.len();
            VersionedIndex { index: i, generation: 0 }
        }
    }

    pub fn is_live(&self, h: VersionedIndex) -> (r: bool)
        ensures
            r == self.live(h),
    {
        h.index < self.slots.len() && self.slots[h.index] == Slot::Occupied(h.generation)
    }

    /// Releases the slot of a live handle, bumping its generation; the handle
    /// and every earlier one for that slot are invalid from then on.
    pub fn free(&mut self, h: VersionedIndex) -> (r: Result<(), InvalidHandle>)
        requires
            old(self).wf(),
        ensures
            final(self).wf(),
            r is Ok <==> old(self).live(h),
            r is Err ==> r->Err_0 == (InvalidHandle { handle: h }),
            final(self)@ == freed(old(self)@, h),
    {
        if !self.is_live(h) {
            return Err(InvalidHandle { handle: h });
        }
        let g = h.generation + 1;
        self.slots.set(h.index, Slot::Free(g));
        if g < u64::MAX {
            let ghost v = old(self)@;
            assert forall|j: int| 0 <= j < v.free.len() implies #[trigger] v.free[j] != h.index by {
                assert(v.slots[v.free[j] as int] is Free);
            }
            self.free.push(h.index);
            assert(self@.free == v.free.push(h.index));
            assert forall|j: int| 0 <= j < self@.free.len() implies {
                &&& #[trigger] self@.free[j] < self@.slots.len()
                &&& self@.slots[self@.free[j] as int] is Free
                &&& self@.slots[self@.free[j] as int]->Free_0 < u64::MAX
            } by {
                if j < v.free.len() {
                    assert(self@.free[j] == v.free[j]);
                }
            }
        }
        Ok(())
    }

    /// Every live handle, in index order.
    pub fn live_handles(&self) -> (r: Vec<VersionedIndex>)
        ensures
            r@ == live_handles(self@),
    {
        let mut out: Vec<VersionedIndex> = Vec::new();
        let mut i: usize = 0;
        while i < self.slots.len()
            invariant
                i <= self.slots@.len(),
                out@ == live_prefix(self.slots@, i as int),
            decreases self.slots@.len() - i,
        {
            match self.slots[i] {
                Slot::Occupied(g) => {
                    out.push(VersionedIndex { index: i, generation: g });
                },
                Slot::Free(_) => {},
            }
            i = i + 1;
        }
        out
    }

    /// The number of live handles.
    pub fn live_count(&self) -> (r: usize)
        ensures
            r as int == live_handles(self@).len(),
    {
        let mut n: usize = 0;
        let mut i: usize = 0;
        while i < self.slots.len()
            invariant
                i <= self.slots@.len(),
                n as int == live_prefix(self.slots@, i as int).len(),
                n <= i,
            decreases self.slots@.len() - i,
        {
            match self.slots[i] {
                Slot::Occupied(_) => {
                    n = n + 1;
                },
                Slot::Free(_) => {},
            }
            i = i + 1;
        }
        n
    }
}

} // verus!
