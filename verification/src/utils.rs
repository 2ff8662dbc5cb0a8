//! Pieces that the other parts share.

pub mod handle;

pub use self::handle::{Handle, HandleIndex, HandlePool};
