use vstd::prelude::*;
use super::ComponentKind;

verus! {

/// Marker component for an entity that follows the cursor; it carries the
/// components to attach below it.
pub struct CursorComponent {
    pub children: Vec<ComponentKind>,
}

impl CursorComponent {
    pub fn new() -> (c: Self)
        ensures
            c.children@.len() == 0,
    {
        CursorComponent { children: Vec::new() }
    }

    pub fn with_component(self, component: ComponentKind) -> (c: Self)
        ensures
            c.children@ == self.children@.push(component),
    {
        let mut s = self;
        s.children.push(component);
        s
    }
}

} // verus!
