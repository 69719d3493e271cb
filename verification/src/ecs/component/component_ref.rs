use vstd::prelude::*;

verus! {

/// Reference to another component: by its stable guid, or by a query path
/// resolved in the referencing component's scope.
#[derive(Debug, Clone, PartialEq, Eq)]
pub enum ComponentRef {
    Guid(u128),
    Query(String),
}

} // verus!
