use vstd::prelude::*;
use super::component_ref::ComponentRef;

verus! {

/// Applies the inverse of a referenced transform's authored local matrix to
/// the inherited transform stream of this component's children.
#[derive(Debug, Clone)]
pub struct TransformApplyInverseLocalComponent {
    pub source: ComponentRef,
}

impl TransformApplyInverseLocalComponent {
    pub fn new(source: ComponentRef) -> (c: Self)
        ensures
            c.source == source,
    {
        TransformApplyInverseLocalComponent { source }
    }

    pub fn with_source(self, source: ComponentRef) -> (c: Self)
        ensures
            c.source == source,
    {
        let mut s = self;
        s.source = source;
        s
    }
}

} // verus!
