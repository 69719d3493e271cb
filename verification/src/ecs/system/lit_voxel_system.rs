use vstd::prelude::*;

verus! {

/// CPU-side voxel shading system; it keeps no state yet.
pub struct LitVoxelSystem;

impl LitVoxelSystem {
    pub fn new() -> (s: Self)
        ensures
            s == LitVoxelSystem,
    {
        LitVoxelSystem
    }
}

} // verus!
