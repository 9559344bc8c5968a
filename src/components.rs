use vstd::prelude::*;

verus! {

/// A texture component: the texture asset's id and, for a texture atlas, the
/// cell to show.
#[derive(Clone, Copy, Debug, PartialEq, Eq)]
pub struct CTexture {
    pub handle: u64,
    pub atlas_location: Option<(u32, u32)>,
}

} // verus!
