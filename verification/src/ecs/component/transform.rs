use vstd::prelude::*;
use crate::ecs::world::ComponentId;

verus! {

/// Marks a node of the world as a transform: the node under which its
/// subtree is placed in space. The pose itself (translation, rotation,
/// scale and the derived matrices) is floating-point data that the
/// rendering side keeps; the tree logic only asks whether a node is a
/// transform, and the component remembers the id it was given.
#[derive(Debug, Clone, Copy, PartialEq, Eq, Structural)]
pub struct TransformComponent {
    pub component: Option<ComponentId>,
}

impl TransformComponent {
    pub fn new() -> (c: Self)
        ensures
            c.component is None,
    {
        TransformComponent { component: None }
    }

    /// Remember the id this transform was given in the world.
    pub fn set_id(&mut self, component: ComponentId)
        ensures
            final(self).component == Some(component),
    {
        self.component = Some(component);
    }
}

impl Default for TransformComponent {
    fn default() -> (c: Self)
        ensures
            c.component is None,
    {
        Self::new()
    }
}

} // verus!
