//! The settings of what is drawn to.

use vstd::prelude::*;

pub mod assets;
pub mod errors;

pub use self::errors::Error;

verus! {

/// The most color attachments that a frame buffer takes.
pub const MAX_FRAMEBUFFER_ATTACHMENTS: usize = 8;

} // verus!
