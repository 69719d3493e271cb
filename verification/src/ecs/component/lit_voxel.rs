use vstd::prelude::*;
use crate::ecs::world::ComponentId;

verus! {

/// Per-instance voxel lighting/shading metadata.
#[derive(Debug, Clone, Copy)]
pub struct LitVoxelComponent {
    /// Quantized shade level (0 = fully lit).
    pub shade_level: u8,
    /// If true, the voxel emits light.
    pub emissive: bool,
    /// The id this component was given when it was added to a world.
    pub component: Option<ComponentId>,
}

impl LitVoxelComponent {
    pub fn new() -> (c: Self)
        ensures
            c.shade_level == 0,
            !c.emissive,
            c.component is None,
    {
        LitVoxelComponent { shade_level: 0, emissive: false, component: None }
    }

    pub fn with_shade_level(self, shade_level: u8) -> (c: Self)
        ensures
            c.shade_level == shade_level,
            c.emissive == self.emissive,
            c.component == self.component,
    {
        let mut s = self;
        s.shade_level = shade_level;
        s
    }

    pub fn with_emissive(self, emissive: bool) -> (c: Self)
        ensures
            c.emissive == emissive,
            c.shade_level == self.shade_level,
            c.component == self.component,
    {
        let mut s = self;
        s.emissive = emissive;
        s
    }

    /// The id this component was given when it was added to a world.
    pub fn id(&self) -> (r: Option<ComponentId>)
        ensures
            r == self.component,
    {
        self.component
    }

    pub fn set_id(&mut self, component: ComponentId)
        ensures
            final(self).component == Some(component),
            final(self).shade_level == old(self).shade_level,
            final(self).emissive == old(self).emissive,
    {
        self.component = Some(component);
    }
}

impl Default for LitVoxelComponent {
    fn default() -> (c: Self)
        ensures
            c.shade_level == 0,
            !c.emissive,
            c.component is None,
    {
        Self::new()
    }
}

} // verus!
