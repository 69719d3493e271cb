use vstd::prelude::*;
use super::component_ref::ComponentRef;

verus! {

/// Declares a single-seat attachment destination for a rider.
#[derive(Debug, Clone, PartialEq, Eq)]
pub struct MountableComponent {
    pub entry_zone: Option<ComponentRef>,
    pub mount_anchor: Option<ComponentRef>,
    pub dismount_anchor: Option<ComponentRef>,
    pub on_grip: bool,
    pub enabled: bool,
}

impl MountableComponent {
    pub fn new() -> (c: Self)
        ensures
            c.entry_zone is None,
            c.mount_anchor is None,
            c.dismount_anchor is None,
            c.on_grip,
            c.enabled,
    {
        MountableComponent {
            entry_zone: None,
            mount_anchor: None,
            dismount_anchor: None,
            on_grip: true,
            enabled: true,
        }
    }

    pub fn entry_zone(self, value: ComponentRef) -> (c: Self)
        ensures
            c == (MountableComponent { entry_zone: Some(value), ..self }),
    {
        let mut s = self;
        s.entry_zone = Some(value);
        s
    }

    pub fn mount_anchor(self, value: ComponentRef) -> (c: Self)
        ensures
            c == (MountableComponent { mount_anchor: Some(value), ..self }),
    {
        let mut s = self;
        s.mount_anchor = Some(value);
        s
    }

    pub fn dismount_anchor(self, value: ComponentRef) -> (c: Self)
        ensures
            c == (MountableComponent { dismount_anchor: Some(value), ..self }),
    {
        let mut s = self;
        s.dismount_anchor = Some(value);
        s
    }

    /// Mount when the rider grips.
    pub fn on_grip(self) -> (c: Self)
        ensures
            c == (MountableComponent { on_grip: true, ..self }),
    {
        let mut s = self;
        s.on_grip = true;
        s
    }

    pub fn enabled(self, value: bool) -> (c: Self)
        ensures
            c == (MountableComponent { enabled: value, ..self }),
    {
        let mut s = self;
        s.enabled = value;
        s
    }
}

impl Default for MountableComponent {
    fn default() -> (c: Self)
        ensures
            c.entry_zone is None,
            c.mount_anchor is None,
            c.dismount_anchor is None,
            c.on_grip,
            c.enabled,
    {
        Self::new()
    }
}

} // verus!
