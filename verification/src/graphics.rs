//! The description of a window and of the OpenGL context that it asks for.

pub mod capabilities;
pub mod errors;
pub mod window;

pub use self::capabilities::{Capabilities, Extension, Extensions, Version};
pub use self::errors::Error;
pub use self::window::{OpenGLAPI, OpenGLProfile, WindowBuilder};
