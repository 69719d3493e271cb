use vstd::prelude::*;

verus! {

/// Built-in shading selections.
#[derive(Debug, Clone, Copy, PartialEq, Eq, Structural)]
pub enum ShadingModel {
    Anime,
    Toon,
}

} // verus!
