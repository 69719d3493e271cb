use vstd::prelude::*;
use crate::ecs::world::ComponentId;
use super::{register_once, registered};

verus! {

/// Keeps the registered input components.
pub struct InputSystem {
    inputs: Vec<ComponentId>,
}

impl InputSystem {
    pub closed spec fn inputs(&self) -> Seq<ComponentId> {
        self.inputs@
    }

    pub closed spec fn wf(&self) -> bool {
        self.inputs@.no_duplicates()
    }

    pub fn new() -> (s: Self)
        ensures
            s.wf(),
            s.inputs() == Seq::<ComponentId>::empty(),
    {
        InputSystem { inputs: Vec::new() }
    }

    /// Register an input component once.
    pub fn register_input(&mut self, component: ComponentId)
        requires
            old(self).wf(),
        ensures
            final(self).wf(),
            final(self).inputs() == registered(old(self).inputs(), component),
    {
        register_once(&mut self.inputs, component);
    }
}

} // verus!
