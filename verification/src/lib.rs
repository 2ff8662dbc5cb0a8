//! The runtime core of an entity-component-system, with the window and surface
//! descriptions that sit beside it.

pub mod ecs;
pub mod graphics;
pub mod math;
pub mod prelude;
pub mod utils;
pub mod video;
