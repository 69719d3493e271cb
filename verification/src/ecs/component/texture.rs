use vstd::prelude::*;

verus! {

/// Reference to a texture image by URI; the texture system loads and uploads
/// it once the texture hangs below a renderable.
#[derive(Debug, Clone)]
pub struct TextureComponent {
    pub uri: String,
}

impl TextureComponent {
    pub fn new(uri: String) -> (c: Self)
        ensures
            c.uri@ == uri@,
    {
        TextureComponent { uri }
    }

    /// A texture component referencing a PNG file (a local path, optionally
    /// prefixed with `file://`).
    pub fn from_png(uri: String) -> (c: Self)
        ensures
            c.uri@ == uri@,
    {
        Self::new(uri)
    }
}

} // verus!
