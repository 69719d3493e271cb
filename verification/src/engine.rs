//! Engine-level plumbing that holds no float state.
use vstd::prelude::*;

verus! {

/// Engine-level error type.
#[derive(Debug, PartialEq, Eq, Structural)]
pub enum EngineError {
    NotImplemented,
}

/// Networking back-end marker.
pub struct Networking;

impl Networking {
    pub fn new() -> (r: Result<Networking, EngineError>)
        ensures
            r is Ok,
    {
        Ok(Networking)
    }
}

/// Summary of one frame's ECS and visual-world state.
#[derive(Debug, Clone, Copy, PartialEq, Eq, Structural)]
pub struct Signature {
    pub instances_len: usize,
    pub draw_order_len: usize,
    pub draw_batches_len: usize,
    pub cached_instance_floats: usize,
    pub instance_buffer_capacity: usize,
}

/// Stdout-based renderer and ECS diagnostics: decides when a frame summary
/// is worth printing.
#[derive(Debug, Clone)]
pub struct RenderingInspector {
    /// If true, print every frame; otherwise print only when the summary changes.
    pub verbose_every_frame: bool,
    pub last_signature: Option<Signature>,
}

impl RenderingInspector {
    pub fn new() -> (r: Self)
        ensures
            !r.verbose_every_frame,
            r.last_signature is None,
    {
        RenderingInspector { verbose_every_frame: false, last_signature: None }
    }

    /// Whether to print this frame's summary; remembers it when printing.
    pub fn should_print(&mut self, sig: Signature) -> (r: bool)
        ensures
            r == (old(self).verbose_every_frame || old(self).last_signature != Some(sig)),
            final(self).verbose_every_frame == old(self).verbose_every_frame,
            final(self).last_signature == (if r { Some(sig) } else { old(self).last_signature }),
    {
        if self.verbose_every_frame {
            self.last_signature = Some(sig);
            return true;
        }
        match self.last_signature {
            Some(old) => {
                if old == sig {
                    return false;
                }
            },
            None => {},
        }
        self.last_signature = Some(sig);
        true
    }
}

} // verus!
