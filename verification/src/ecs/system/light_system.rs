use vstd::prelude::*;

verus! {

/// Lighting system; it keeps no state yet.
pub struct LightSystem;

impl LightSystem {
    pub fn new() -> (s: Self)
        ensures
            s == LightSystem,
    {
        LightSystem
    }
}

} // verus!
