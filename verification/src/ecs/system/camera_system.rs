//! Camera registry: hands out camera handles and tracks the active camera.
//! The cameras' view and projection matrices are float data kept by the
//! renderer; this system decides which camera is active.
use vstd::prelude::*;
use crate::ecs::component::camera::CameraHandle;

verus! {

pub struct CameraSystem {
    next_handle: u32,
    cameras: Vec<CameraHandle>,
    pub active_camera: Option<CameraHandle>,
}

impl CameraSystem {
    /// Registered cameras, oldest first.
    pub closed spec fn cameras(&self) -> Seq<CameraHandle> {
        self.cameras@
    }

    pub closed spec fn spec_active_camera(&self) -> Option<CameraHandle> {
        self.active_camera
    }

    pub closed spec fn next_handle(&self) -> u32 {
        self.next_handle
    }

    pub fn new() -> (s: Self)
        ensures
            s.cameras() == Seq::<CameraHandle>::empty(),
            s.next_handle() == 0,
            s.spec_active_camera() is None,
    {
        CameraSystem { next_handle: 0, cameras: Vec::new(), active_camera: None }
    }

    /// Register a camera; the newest registered camera becomes active.
    pub fn register_camera(&mut self) -> (h: CameraHandle)
        ensures
            h.0 == old(self).next_handle(),
            final(self).next_handle() == (if old(self).next_handle() < u32::MAX {
                (old(self).next_handle() + 1) as u32
            } else {
                0
            }),
            final(self).cameras() == old(self).cameras().push(h),
            final(self).spec_active_camera() == Some(h),
    {
        let h = CameraHandle(self.next_handle);
        self.next_handle = self.next_handle.wrapping_add(1);
        self.cameras.push(h);
        self.active_camera = Some(h);
        h
    }

    /// Make a registered camera active; returns whether the active camera
    /// changed (so the renderer switches matrices). Unknown handles and the
    /// camera already active change nothing.
    pub fn set_active_camera(&mut self, h: CameraHandle) -> (switched: bool)
        ensures
            switched == (old(self).spec_active_camera() != Some(h) && old(self).cameras().contains(h)),
            final(self).spec_active_camera() == (if switched { Some(h) } else { old(self).spec_active_camera() }),
            final(self).cameras() == old(self).cameras(),
            final(self).next_handle() == old(self).next_handle(),
    {
        if self.active_camera == Some(h) {
            return false;
        }
        let n = self.cameras.len();
        let mut i: usize = 0;
        while i < n
            invariant
                n == self.cameras@.len(),
                self.cameras@ == old(self).cameras@,
                self.active_camera == old(self).active_camera,
                self.next_handle == old(self).next_handle,
                old(self).active_camera != Some(h),
                i <= n,
                forall|j: int| 0 <= j < i ==> self.cameras@[j] != h,
            decreases n - i,
        {
            if self.cameras[i] == h {
                self.active_camera = Some(h);
                return true;
            }
            i = i + 1;
        }
        false
    }
}

impl Default for CameraSystem {
    fn default() -> (s: Self)
        ensures
            s.cameras() == Seq::<CameraHandle>::empty(),
            s.next_handle() == 0,
            s.spec_active_camera() is None,
    {
        CameraSystem::new()
    }
}

} // verus!
