use vstd::prelude::*;
use crate::ecs::world::ComponentId;
use crate::graphics::primitives::{InstanceHandle, MaterialHandle, MeshHandle, Renderable};

verus! {

/// Renderable component.
#[derive(Debug, Clone)]
pub struct RenderableComponent {
    pub renderable: Renderable,
    /// Visual-world instance handle created for this renderable.
    pub handle: Option<InstanceHandle>,
    /// The id this component was given when it was added to a world.
    pub component: Option<ComponentId>,
}

impl RenderableComponent {
    pub fn new(renderable: Renderable) -> (c: Self)
        ensures
            c.renderable == renderable,
            c.handle is None,
            c.component is None,
    {
        RenderableComponent { renderable, handle: None, component: None }
    }

    fn from_cpu_mesh_handle(mesh: MeshHandle, material: MaterialHandle) -> (c: Self)
        ensures
            c.renderable == (Renderable { mesh, material }),
            c.handle is None,
            c.component is None,
    {
        Self::new(Renderable::new(mesh, material))
    }

    pub fn get_handle(&self) -> (h: Option<InstanceHandle>)
        ensures
            h == self.handle,
    {
        self.handle
    }

    /// Built-in 2D triangle drawn with the toon material.
    pub fn triangle(mesh: MeshHandle) -> (c: Self)
        ensures
            c.renderable == (Renderable { mesh, material: MaterialHandle(1) }),
            c.handle is None,
            c.component is None,
    {
        Self::from_cpu_mesh_handle(mesh, MaterialHandle::toon_mesh())
    }

    /// Built-in 2D square drawn with the toon material.
    pub fn square(mesh: MeshHandle) -> (c: Self)
        ensures
            c.renderable == (Renderable { mesh, material: MaterialHandle(1) }),
            c.handle is None,
            c.component is None,
    {
        Self::from_cpu_mesh_handle(mesh, MaterialHandle::toon_mesh())
    }

    /// Built-in cube drawn with the toon material.
    pub fn cube(mesh: MeshHandle) -> (c: Self)
        ensures
            c.renderable == (Renderable { mesh, material: MaterialHandle(1) }),
            c.handle is None,
            c.component is None,
    {
        Self::from_cpu_mesh_handle(mesh, MaterialHandle::toon_mesh())
    }

    /// Built-in tetrahedron drawn with the toon material.
    pub fn tetrahedron(mesh: MeshHandle) -> (c: Self)
        ensures
            c.renderable == (Renderable { mesh, material: MaterialHandle(1) }),
            c.handle is None,
            c.component is None,
    {
        Self::from_cpu_mesh_handle(mesh, MaterialHandle::toon_mesh())
    }

    /// Alias of `tetrahedron`.
    pub fn color_tetrahedron(mesh: MeshHandle) -> (c: Self)
        ensures
            c.renderable == (Renderable { mesh, material: MaterialHandle(1) }),
            c.handle is None,
            c.component is None,
    {
        Self::from_cpu_mesh_handle(mesh, MaterialHandle::toon_mesh())
    }

    pub fn set_id(&mut self, component: ComponentId)
        ensures
            final(self).component == Some(component),
            final(self).renderable == old(self).renderable,
            final(self).handle == old(self).handle,
    {
        self.component = Some(component);
    }
}

} // verus!
