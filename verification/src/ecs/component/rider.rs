use vstd::prelude::*;
use super::component_ref::ComponentRef;

verus! {

/// Declares a participant whose movement root can be attached to a mountable.
#[derive(Debug, Clone, PartialEq, Eq)]
pub struct RiderComponent {
    pub anchor: Option<ComponentRef>,
    pub movement_root: Option<ComponentRef>,
    pub input: Option<ComponentRef>,
    pub enabled: bool,
}

impl RiderComponent {
    pub fn new() -> (c: Self)
        ensures
            c.anchor is None,
            c.movement_root is None,
            c.input is None,
            c.enabled,
    {
        RiderComponent { anchor: None, movement_root: None, input: None, enabled: true }
    }

    pub fn anchor(self, value: ComponentRef) -> (c: Self)
        ensures
            c == (RiderComponent { anchor: Some(value), ..self }),
    {
        let mut s = self;
        s.anchor = Some(value);
        s
    }

    pub fn movement_root(self, value: ComponentRef) -> (c: Self)
        ensures
            c == (RiderComponent { movement_root: Some(value), ..self }),
    {
        let mut s = self;
        s.movement_root = Some(value);
        s
    }

    pub fn input(self, value: ComponentRef) -> (c: Self)
        ensures
            c == (RiderComponent { input: Some(value), ..self }),
    {
        let mut s = self;
        s.input = Some(value);
        s
    }

    pub fn enabled(self, value: bool) -> (c: Self)
        ensures
            c == (RiderComponent { enabled: value, ..self }),
    {
        let mut s = self;
        s.enabled = value;
        s
    }
}

impl Default for RiderComponent {
    fn default() -> (c: Self)
        ensures
            c.anchor is None,
            c.movement_root is None,
            c.input is None,
            c.enabled,
    {
        Self::new()
    }
}

} // verus!
