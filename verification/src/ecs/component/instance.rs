use vstd::prelude::*;
use crate::graphics::primitives::InstanceHandle;

verus! {

/// Component that holds a handle to a graphics instance.
#[derive(Debug, Clone, Copy, PartialEq, Eq, Structural)]
pub struct InstanceComponent {
    pub handle: Option<InstanceHandle>,
}

impl InstanceComponent {
    pub fn new() -> (c: Self)
        ensures
            c.handle is None,
    {
        InstanceComponent { handle: None }
    }

    pub fn with_handle(self, handle: InstanceHandle) -> (c: Self)
        ensures
            c.handle == Some(handle),
    {
        let mut s = self;
        s.handle = Some(handle);
        s
    }

    /// The instance handle; `None` until the component has been given one.
    pub fn get_handle(&self) -> (h: Option<InstanceHandle>)
        ensures
            h == self.handle,
    {
        self.handle
    }
}

impl Default for InstanceComponent {
    fn default() -> (c: Self)
        ensures
            c.handle is None,
    {
        Self::new()
    }
}

} // verus!
