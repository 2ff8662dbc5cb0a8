//! Handles of textures.

use vstd::prelude::*;

use crate::utils::handle::Handle;

verus! {

/// The handle of a texture that can be drawn to.
#[derive(Debug, Clone, Copy, PartialEq, Eq, Hash, Structural)]
pub struct RenderTextureHandle(pub Handle);

} // verus!
