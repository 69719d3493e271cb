use vstd::prelude::*;
use crate::ecs::command_queue::{Command, CommandQueue};
use crate::ecs::world::ComponentId;

verus! {

/// Handle of a camera owned by the camera system.
#[derive(Debug, Clone, Copy, PartialEq, Eq, Structural, Hash)]
pub struct CameraHandle(pub u32);

/// Camera component; the camera system fills in its handle when it registers it.
#[derive(Debug, Clone, Copy)]
pub struct CameraComponent {
    pub handle: Option<CameraHandle>,
}

impl CameraComponent {
    pub fn new() -> (c: Self)
        ensures
            c.handle is None,
    {
        CameraComponent { handle: None }
    }

    pub fn handle(&self) -> (h: Option<CameraHandle>)
        ensures
            h == self.handle,
    {
        self.handle
    }

    pub fn set_handle(&mut self, handle: CameraHandle)
        ensures
            final(self).handle == Some(handle),
    {
        self.handle = Some(handle);
    }
}

impl Default for CameraComponent {
    fn default() -> (c: Self)
        ensures
            c.handle is None,
    {
        Self::new()
    }
}

/// 2D camera component: drives a global NDC translation.
#[derive(Debug, Clone, Copy)]
pub struct Camera2DComponent {
    pub handle: Option<CameraHandle>,
}

impl Camera2DComponent {
    pub fn new() -> (c: Self)
        ensures
            c.handle is None,
    {
        Camera2DComponent { handle: None }
    }
}

/// 3D camera component.
#[derive(Debug, Clone, Copy)]
pub struct Camera3DComponent {
    pub handle: Option<CameraHandle>,
}

impl Camera3DComponent {
    pub fn new() -> (c: Self)
        ensures
            c.handle is None,
    {
        Camera3DComponent { handle: None }
    }

    /// Ask the camera system to make this the active camera; a camera that
    /// has not been registered yet queues nothing.
    pub fn make_active_camera<T: Copy>(&mut self, queue: &mut CommandQueue<T>, component: ComponentId)
        ensures
            *final(self) == *old(self),
            final(queue).queued() == (if old(self).handle is Some {
                old(queue).queued().push(Command::MakeActiveCamera { component_id: component })
            } else {
                old(queue).queued()
            }),
            final(queue).queued_by() == (if old(self).handle is Some {
                old(queue).queued_by().push(component)
            } else {
                old(queue).queued_by()
            }),
    {
        if self.handle.is_some() {
            queue.queue_make_active_camera(component);
        }
    }
}

impl Default for Camera3DComponent {
    fn default() -> (c: Self)
        ensures
            c.handle is None,
    {
        Self::new()
    }
}

} // verus!
