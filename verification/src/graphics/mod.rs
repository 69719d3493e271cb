pub mod material_cache;
pub mod primitives;
pub mod render_assets;
pub mod visual_world;

use vstd::prelude::*;
use crate::graphics::primitives::TextureHandle;
pub use crate::graphics::render_assets::MeshUploader;

verus! {

/// Uploads decoded textures, given as RGBA8 pixels, to the GPU; implemented
/// by renderers.
pub trait TextureUploader {
    fn upload_texture_rgba8(&mut self, rgba: &[u8], width: u32, height: u32) -> Result<TextureHandle, String>;
}

/// A renderer that uploads both meshes of type `M` and textures.
pub trait RenderUploader<M>: MeshUploader<M> + TextureUploader {
}

impl<M, T: MeshUploader<M> + TextureUploader> RenderUploader<M> for T {
}

/// Graphics back-end marker.
pub struct Graphics;

impl Graphics {
    pub fn new() -> (g: Self)
        ensures
            g == Graphics,
    {
        Graphics
    }
}

} // verus!
