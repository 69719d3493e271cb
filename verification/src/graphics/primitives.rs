//! Renderer-owned resource handles: lightweight ids into renderer and asset tables.
use vstd::prelude::*;

verus! {

#[derive(Debug, Clone, Copy, PartialEq, Eq, Structural, Hash)]
pub struct BufferHandle(pub u32);

/// Handle of a mesh that the renderer has uploaded.
#[derive(Debug, Clone, Copy, PartialEq, Eq, Structural, Hash)]
pub struct MeshHandle(pub u32);

/// Handle of CPU-side mesh data held by `RenderAssets`.
#[derive(Debug, Clone, Copy, PartialEq, Eq, Structural, Hash)]
pub struct CpuMeshHandle(pub u32);

#[derive(Debug, Clone, Copy, PartialEq, Eq, Structural, Hash)]
pub struct MaterialHandle(pub u32);

#[derive(Debug, Clone, Copy, PartialEq, Eq, Structural, Hash)]
pub struct InstanceHandle(pub u32);

#[derive(Debug, Clone, Copy, PartialEq, Eq, Structural, Hash)]
pub struct TextureHandle(pub u32);

impl MeshHandle {
    /// The built-in cube mesh.
    pub fn cube() -> (h: MeshHandle)
        ensures
            h.0 == 0,
    {
        MeshHandle(0)
    }

    /// The built-in tetrahedron mesh.
    pub fn tetrahedron() -> (h: MeshHandle)
        ensures
            h.0 == 1,
    {
        MeshHandle(1)
    }
}

impl MaterialHandle {
    /// The unlit full-screen material.
    pub fn unlit_fullscreen() -> (h: MaterialHandle)
        ensures
            h.0 == 0,
    {
        MaterialHandle(0)
    }

    /// The toon-shaded mesh material used by the built-in renderable shapes.
    pub fn toon_mesh() -> (h: MaterialHandle)
        ensures
            h.0 == 1,
    {
        MaterialHandle(1)
    }
}

/// What a renderable draws: a mesh with a material.
#[derive(Debug, Clone, Copy, PartialEq, Eq, Structural, Hash)]
pub struct Renderable {
    pub mesh: MeshHandle,
    pub material: MaterialHandle,
}

impl Renderable {
    pub fn new(mesh: MeshHandle, material: MaterialHandle) -> (r: Self)
        ensures
            r.mesh == mesh,
            r.material == material,
    {
        Renderable { mesh, material }
    }
}

#[derive(Debug, Clone, Copy, PartialEq, Eq, Structural)]
pub enum VertexFormat {
    Float32x2,
    Float32x3,
    Float32x4,
    Uint32,
}

#[derive(Debug, Clone, Copy)]
pub struct VertexAttribute {
    pub location: u32,
    pub offset: u32,
    pub format: VertexFormat,
}

/// Vertex buffer layout description.
#[derive(Debug, Clone)]
pub struct VertexLayout {
    pub stride: u32,
    pub attributes: Vec<VertexAttribute>,
}

/// Renderer-owned mesh resource (looked up by `MeshHandle`).
#[derive(Debug, Clone)]
pub struct Mesh {
    pub vertex_buffer: BufferHandle,
    pub index_buffer: BufferHandle,
    pub index_count: u32,
    pub vertex_layout: VertexLayout,
}

/// Renderer-owned material definition: shaders by path.
#[derive(Debug, Clone)]
pub struct Material {
    pub vertex_shader: &'static str,
    pub fragment_shader: &'static str,
}

} // verus!
