//! The names that most users of the library want at hand.

pub use crate::math;
pub use crate::math::{Color, Vector2};

pub use crate::ecs;
pub use crate::ecs::{Entity, HashMapArena, VecArena, World};

pub use crate::graphics;
pub use crate::video;
