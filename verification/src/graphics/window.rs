//! The settings of a window and the least that its OpenGL context must offer.

use vstd::prelude::*;

use super::capabilities::{Capabilities, Version};
use super::errors::Error;

verus! {

/// A feature that the renderer cannot do without.
#[derive(Debug, Clone, Copy, PartialEq, Eq, Structural)]
pub enum Requirement {
    VertexBufferObjects,
    ShaderObjects,
    FramebufferObjects,
    BlittingFramebuffer,
    UniformBufferObjects,
    VertexArrayObjects,
}

impl Requirement {
    /// The text by which an error names the feature.
    pub open spec fn message(&self) -> Seq<char> {
        match self {
            Requirement::VertexBufferObjects => "vertex buffer objects"@,
            Requirement::ShaderObjects => "shader objects"@,
            Requirement::FramebufferObjects => "framebuffer objects"@,
            Requirement::BlittingFramebuffer => "blitting framebuffer"@,
            Requirement::UniformBufferObjects => "uniform buffer objects."@,
            Requirement::VertexArrayObjects => "vertex array objects."@,
        }
    }

    /// Whether an implementation with the capabilities `caps` offers the
    /// feature: by its version, in either API, or else by its extensions.
    pub open spec fn met_by(&self, caps: &Capabilities) -> bool {
        let v = caps.version;
        let e = caps.extensions;
        match self {
            Requirement::VertexBufferObjects => !v.older_than(&Version::GL(1, 5)) || !v.older_than(
                &Version::ES(2, 0),
            ) || (e.gl_arb_vertex_buffer_object && e.gl_arb_map_buffer_range),
            Requirement::ShaderObjects => !v.older_than(&Version::GL(2, 0)) || !v.older_than(
                &Version::ES(2, 0),
            ) || (e.gl_arb_shader_objects && e.gl_arb_vertex_shader && e.gl_arb_fragment_shader),
            Requirement::FramebufferObjects => !v.older_than(&Version::GL(3, 0)) || !v.older_than(
                &Version::ES(2, 0),
            ) || e.gl_ext_framebuffer_object || e.gl_arb_framebuffer_object,
            Requirement::BlittingFramebuffer => !v.older_than(&Version::ES(2, 0)) || !v.older_than(
                &Version::GL(3, 0),
            ) || e.gl_ext_framebuffer_blit,
            Requirement::UniformBufferObjects => !v.older_than(&Version::GL(3, 1)) || !v.older_than(
                &Version::ES(3, 0),
            ) || e.gl_arb_uniform_buffer_object,
            Requirement::VertexArrayObjects => !v.older_than(&Version::GL(3, 0)) || !v.older_than(
                &Version::ES(3, 0),
            ) || e.gl_arb_vertex_array_object || e.gl_apple_vertex_array_object
                || e.gl_oes_vertex_array_object,
        }
    }
}

/// The first requirement, in checking order, that `caps` does not meet.
pub open spec fn first_unmet(caps: &Capabilities) -> Option<Requirement> {
    if !Requirement::VertexBufferObjects.met_by(caps) {
        Some(Requirement::VertexBufferObjects)
    } else if !Requirement::ShaderObjects.met_by(caps) {
        Some(Requirement::ShaderObjects)
    } else if !Requirement::FramebufferObjects.met_by(caps) {
        Some(Requirement::FramebufferObjects)
    } else if !Requirement::BlittingFramebuffer.met_by(caps) {
        Some(Requirement::BlittingFramebuffer)
    } else if !Requirement::UniformBufferObjects.met_by(caps) {
        Some(Requirement::UniformBufferObjects)
    } else if !Requirement::VertexArrayObjects.met_by(caps) {
        Some(Requirement::VertexArrayObjects)
    } else {
        None
    }
}

/// Checks that an implementation with the capabilities `caps` offers all
/// that the renderer cannot do without. The error names the first feature
/// that is missing.
pub fn check_minimal_requirements(caps: &Capabilities) -> (r: Result<(), Error>)
    ensures
        match r {
            Ok(_) => first_unmet(caps).is_none(),
            Err(e) => first_unmet(caps).is_some() && e.message() == first_unmet(
                caps,
            ).unwrap().message(),
        },
{
    if caps.version < Version::GL(1, 5) && caps.version < Version::ES(2, 0) && (
    !caps.extensions.gl_arb_vertex_buffer_object || !caps.extensions.gl_arb_map_buffer_range) {
        return Err(Error::Requirement("vertex buffer objects".to_owned()));
    }
    if caps.version < Version::GL(2, 0) && caps.version < Version::ES(2, 0) && (
    !caps.extensions.gl_arb_shader_objects || !caps.extensions.gl_arb_vertex_shader
        || !caps.extensions.gl_arb_fragment_shader) {
        return Err(Error::Requirement("shader objects".to_owned()));
    }
    if caps.version < Version::GL(3, 0) && caps.version < Version::ES(2, 0)
        && !caps.extensions.gl_ext_framebuffer_object
        && !caps.extensions.gl_arb_framebuffer_object {
        return Err(Error::Requirement("framebuffer objects".to_owned()));
    }
    if caps.version < Version::ES(2, 0) && caps.version < Version::GL(3, 0)
        && !caps.extensions.gl_ext_framebuffer_blit {
        return Err(Error::Requirement("blitting framebuffer".to_owned()));
    }
    if caps.version < Version::GL(3, 1) && caps.version < Version::ES(3, 0)
        && !caps.extensions.gl_arb_uniform_buffer_object {
        return Err(Error::Requirement("uniform buffer objects.".to_owned()));
    }
    if caps.version < Version::GL(3, 0) && caps.version < Version::ES(3, 0)
        && !caps.extensions.gl_arb_vertex_array_object
        && !caps.extensions.gl_apple_vertex_array_object
        && !caps.extensions.gl_oes_vertex_array_object {
        return Err(Error::Requirement("vertex array objects.".to_owned()));
    }
    Ok(())
}

/// The OpenGL context profile that a window asks for.
#[derive(Debug, Clone, Copy, PartialEq, Eq, Structural)]
pub enum OpenGLProfile {
    Compatibility,
    Core,
}

/// The OpenGL API and version that a window asks for.
#[derive(Debug, Clone, Copy, PartialEq, Eq, Structural)]
pub enum OpenGLAPI {
    Lastest,
    GL(u8, u8),
    GLES(u8, u8),
}

/// What a `WindowBuilder` stands for: the settings that the window will be
/// made with.
pub struct WindowSettings {
    pub title: Seq<char>,
    pub position: (i32, i32),
    pub size: (u32, u32),
    pub vsync: bool,
    pub multisample: u16,
    pub api: OpenGLAPI,
    pub profile: OpenGLProfile,
}

/// Collects the settings of a window before it is made.
pub struct WindowBuilder {
    title: String,
    position: (i32, i32),
    size: (u32, u32),
    vsync: bool,
    multisample: u16,
    api: OpenGLAPI,
    profile: OpenGLProfile,
}

impl View for WindowBuilder {
    type V = WindowSettings;

    closed spec fn view(&self) -> WindowSettings {
        WindowSettings {
            title: self.title@,
            position: self.position,
            size: self.size,
            vsync: self.vsync,
            multisample: self.multisample,
            api: self.api,
            profile: self.profile,
        }
    }
}

/// The settings of a builder that nothing was asked of: a window titled
/// "Window" of 512 by 512 at the origin, without vertical sync or
/// multisampling, with the latest core profile.
pub open spec fn default_settings() -> WindowSettings {
    WindowSettings {
        title: "Window"@,
        position: (0, 0),
        size: (512, 512),
        vsync: false,
        multisample: 0,
        api: OpenGLAPI::Lastest,
        profile: OpenGLProfile::Core,
    }
}

impl Default for WindowBuilder {
    fn default() -> (builder: WindowBuilder)
        ensures
            builder@ == default_settings(),
    {
        WindowBuilder {
            title: "Window".to_owned(),
            position: (0, 0),
            size: (512, 512),
            vsync: false,
            multisample: 0,
            api: OpenGLAPI::Lastest,
            profile: OpenGLProfile::Core,
        }
    }
}

impl WindowBuilder {
    /// A builder with the default settings.
    pub fn new() -> (builder: WindowBuilder)
        ensures
            builder@ == default_settings(),
    {
        Default::default()
    }

    /// Asks for a title.
    pub fn with_title(&mut self, title: &str) -> (r: &mut Self)
        ensures
            r@ == (WindowSettings { title: title@, ..old(self)@ }),
            *final(self) == *final(r),
    {
        self.title = title.to_owned();
        self
    }

    /// Asks for a position of the window.
    pub fn with_position(&mut self, position: (i32, i32)) -> (r: &mut Self)
        ensures
            r@ == (WindowSettings { position: position, ..old(self)@ }),
            *final(self) == *final(r),
    {
        self.position = position;
        self
    }

    /// Asks for the dimensions of the window.
    pub fn with_dimensions(&mut self, width: u32, height: u32) -> (r: &mut Self)
        ensures
            r@ == (WindowSettings { size: (width, height), ..old(self)@ }),
            *final(self) == *final(r),
    {
        self.size = (width, height);
        self
    }

    /// Asks for a multisampling level. Zero asks for none.
    pub fn with_multisample(&mut self, multisample: u16) -> (r: &mut Self)
        ensures
            r@ == (WindowSettings { multisample: multisample, ..old(self)@ }),
            *final(self) == *final(r),
    {
        self.multisample = multisample;
        self
    }

    /// Asks for an OpenGL context profile.
    pub fn with_profile(&mut self, profile: OpenGLProfile) -> (r: &mut Self)
        ensures
            r@ == (WindowSettings { profile: profile, ..old(self)@ }),
            *final(self) == *final(r),
    {
        self.profile = profile;
        self
    }

    /// Asks for an OpenGL API and version.
    pub fn with_api(&mut self, api: OpenGLAPI) -> (r: &mut Self)
        ensures
            r@ == (WindowSettings { api: api, ..old(self)@ }),
            *final(self) == *final(r),
    {
        self.api = api;
        self
    }

    /// The title asked for.
    pub fn title(&self) -> (title: &str)
        ensures
            title@ == self@.title,
    {
        self.title.as_str()
    }

    /// The position asked for.
    pub fn position(&self) -> (position: (i32, i32))
        ensures
            position == self@.position,
    {
        self.position
    }

    /// The dimensions asked for.
    pub fn dimensions(&self) -> (size: (u32, u32))
        ensures
            size == self@.size,
    {
        self.size
    }

    /// Whether vertical sync is asked for.
    pub fn vsync(&self) -> (vsync: bool)
        ensures
            vsync == self@.vsync,
    {
        self.vsync
    }

    /// The multisampling level asked for.
    pub fn multisample(&self) -> (multisample: u16)
        ensures
            multisample == self@.multisample,
    {
        self.multisample
    }

    /// The OpenGL API and version asked for.
    pub fn api(&self) -> (api: OpenGLAPI)
        ensures
            api == self@.api,
    {
        self.api
    }

    /// The OpenGL context profile asked for.
    pub fn profile(&self) -> (profile: OpenGLProfile)
        ensures
            profile == self@.profile,
    {
        self.profile
    }
}

} // verus!
