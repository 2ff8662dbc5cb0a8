//! The settings of the video layer's resources.

pub mod surface;
pub mod texture;
