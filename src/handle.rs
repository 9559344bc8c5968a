use vstd::prelude::*;

verus! {

/// A handle to a slot: the slot's index and the generation the slot had when
/// the handle was issued.
#[derive(Clone, Copy, Debug, PartialEq, Eq, Structural)]
pub struct VersionedIndex {
    pub index: usize,
    pub generation: u64,
}

impl VersionedIndex {
    pub fn new(index: usize, generation: u64) -> (r: VersionedIndex)
        ensures
            r.index == index,
            r.generation == generation,
    {
        VersionedIndex { index, generation }
    }
}

/// The handle does not address a live slot.
#[derive(Clone, Copy, Debug, PartialEq, Eq, Structural)]
pub struct InvalidHandle {
    pub handle: VersionedIndex,
}

} // verus!
