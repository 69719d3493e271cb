//! Registers renderables: each renderable component waits here until its
//! mesh is on the GPU, then gets one visual-world instance.
use vstd::prelude::*;
use std::collections::HashMap;
use crate::ecs::component::RenderableComponent;
use crate::ecs::world::{ComponentId, World};
use crate::graphics::primitives::{CpuMeshHandle, MaterialHandle};
use super::{register_once, registered};

verus! {

broadcast use vstd::std_specs::hash::group_hash_axioms;

/// A renderable waiting for its mesh upload.
#[derive(Debug, Clone, Copy)]
pub struct PendingRenderable {
    pub cpu_mesh: CpuMeshHandle,
    pub material: MaterialHandle,
    pub renderable_cid: ComponentId,
}

pub struct RenderableSystem {
    renderables: Vec<ComponentId>,
    /// Renderables known to the world but not yet in the visual world,
    /// keyed by the 64-bit form of their id.
    pending: HashMap<u64, PendingRenderable>,
}

/// What a renderable component waits for: its mesh, read as a CPU mesh
/// number, and its material.
pub open spec fn pending_for(c: RenderableComponent, id: ComponentId) -> PendingRenderable {
    PendingRenderable {
        cpu_mesh: CpuMeshHandle(c.renderable.mesh.0),
        material: c.renderable.material,
        renderable_cid: id,
    }
}

impl RenderableSystem {
    pub closed spec fn renderables(&self) -> Seq<ComponentId> {
        self.renderables@
    }

    pub closed spec fn pending(&self) -> Map<u64, PendingRenderable> {
        self.pending@
    }

    pub closed spec fn wf(&self) -> bool {
        self.renderables@.no_duplicates()
    }

    pub fn new() -> (s: Self)
        ensures
            s.wf(),
            s.renderables() == Seq::<ComponentId>::empty(),
            s.pending() == Map::<u64, PendingRenderable>::empty(),
    {
        RenderableSystem { renderables: Vec::new(), pending: HashMap::new() }
    }

    /// Register a renderable component once and queue it for the visual
    /// world.
    pub fn register_renderable(&mut self, world: &World, component: ComponentId)
        requires
            old(self).wf(),
        ensures
            final(self).wf(),
            final(self).renderables() == registered(old(self).renderables(), component),
            final(self).pending() == queued_after(old(self).pending(), *world, component),
    {
        register_once(&mut self.renderables, component);
        self.register_renderable_from_world(world, component);
    }

    /// Queue `component` for the visual world unless it is not a renderable
    /// or already has an instance.
    pub fn register_renderable_from_world(&mut self, world: &World, component: ComponentId)
        ensures
            final(self).renderables() == old(self).renderables(),
            final(self).pending() == queued_after(old(self).pending(), *world, component),
    {
        match world.get_component_by_id_as::<RenderableComponent>(component) {
            None => {},
            Some(rc) => {
                if rc.get_handle().is_none() {
                    let p = PendingRenderable {
                        cpu_mesh: CpuMeshHandle(rc.renderable.mesh.0),
                        material: rc.renderable.material,
                        renderable_cid: component,
                    };
                    self.pending.insert(component.to_bits(), p);
                }
            },
        }
    }
}

/// The pending renderables after `component` has been looked at in `w`.
pub open spec fn queued_after(pending: Map<u64, PendingRenderable>, w: World, component: ComponentId) -> Map<u64, PendingRenderable> {
    if w.contains(component) {
        match w.component(component) {
            crate::ecs::component::ComponentKind::Renderable(c) => if c.handle is None {
                pending.insert(component@, pending_for(c, component))
            } else {
                pending
            },
            _ => pending,
        }
    } else {
        pending
    }
}

} // verus!
