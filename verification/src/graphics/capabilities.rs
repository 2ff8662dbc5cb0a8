//! What an OpenGL implementation reports of itself.

use core::cmp::Ordering;
use vstd::prelude::*;
use vstd::std_specs::cmp::PartialOrdSpecImpl;

verus! {

/// The version of an OpenGL implementation: desktop OpenGL or OpenGL ES, with
/// a major and a minor number.
///
/// Versions are totally ordered: every desktop version comes before every ES
/// version, and within one API the order is by major number, then by minor.
#[derive(Debug, Clone, Copy, PartialEq, Eq, Structural)]
pub enum Version {
    GL(u32, u32),
    ES(u32, u32),
}

impl Version {
    /// The place of the version in the order: API first, then major, then minor.
    pub open spec fn rank(&self) -> (int, int, int) {
        match self {
            Version::GL(major, minor) => (0, *major as int, *minor as int),
            Version::ES(major, minor) => (1, *major as int, *minor as int),
        }
    }

    /// Whether `self` comes strictly before `other`.
    pub open spec fn older_than(&self, other: &Version) -> bool {
        let a = self.rank();
        let b = other.rank();
        a.0 < b.0 || (a.0 == b.0 && (a.1 < b.1 || (a.1 == b.1 && a.2 < b.2)))
    }
}

impl PartialOrdSpecImpl for Version {
    open spec fn obeys_partial_cmp_spec() -> bool {
        true
    }

    open spec fn partial_cmp_spec(&self, other: &Version) -> Option<Ordering> {
        if self.older_than(other) {
            Some(Ordering::Less)
        } else if other.older_than(self) {
            Some(Ordering::Greater)
        } else {
            Some(Ordering::Equal)
        }
    }
}

impl PartialOrd for Version {
    fn partial_cmp(&self, other: &Version) -> (r: Option<Ordering>) {
        let (a, a_major, a_minor): (u8, u32, u32) = match self {
            Version::GL(major, minor) => (0u8, *major, *minor),
            Version::ES(major, minor) => (1u8, *major, *minor),
        };
        let (b, b_major, b_minor): (u8, u32, u32) = match other {
            Version::GL(major, minor) => (0u8, *major, *minor),
            Version::ES(major, minor) => (1u8, *major, *minor),
        };
        if a < b || (a == b && (a_major < b_major || (a_major == b_major && a_minor < b_minor))) {
            Some(Ordering::Less)
        } else if a == b && a_major == b_major && a_minor == b_minor {
            Some(Ordering::Equal)
        } else {
            Some(Ordering::Greater)
        }
    }
}

/// The extensions that the renderer can make use of, each with whether the
/// implementation offers it.
#[derive(Debug, Clone, Copy, PartialEq, Eq, Structural)]
pub struct Extensions {
    pub gl_arb_vertex_buffer_object: bool,
    pub gl_arb_map_buffer_range: bool,
    pub gl_arb_shader_objects: bool,
    pub gl_arb_vertex_shader: bool,
    pub gl_arb_fragment_shader: bool,
    pub gl_ext_framebuffer_object: bool,
    pub gl_arb_framebuffer_object: bool,
    pub gl_ext_framebuffer_blit: bool,
    pub gl_arb_uniform_buffer_object: bool,
    pub gl_arb_vertex_array_object: bool,
    pub gl_apple_vertex_array_object: bool,
    pub gl_oes_vertex_array_object: bool,
}

/// Whether two texts are the same.
fn same_text(a: &str, b: &str) -> (same: bool)
    ensures
        same == (a@ == b@),
{
    a.to_owned() == b.to_owned()
}

/// An extension that the renderer can make use of.
#[derive(Debug, Clone, Copy, PartialEq, Eq, Structural)]
pub enum Extension {
    ArbVertexBufferObject,
    ArbMapBufferRange,
    ArbShaderObjects,
    ArbVertexShader,
    ArbFragmentShader,
    ExtFramebufferObject,
    ArbFramebufferObject,
    ExtFramebufferBlit,
    ArbUniformBufferObject,
    ArbVertexArrayObject,
    AppleVertexArrayObject,
    OesVertexArrayObject,
}

impl Extension {
    /// The extension that an implementation reports under the name `name`.
    pub open spec fn of(name: Seq<char>) -> Option<Extension> {
        if name == "GL_ARB_vertex_buffer_object"@ {
            Some(Extension::ArbVertexBufferObject)
        } else if name == "GL_ARB_map_buffer_range"@ {
            Some(Extension::ArbMapBufferRange)
        } else if name == "GL_ARB_shader_objects"@ {
            Some(Extension::ArbShaderObjects)
        } else if name == "GL_ARB_vertex_shader"@ {
            Some(Extension::ArbVertexShader)
        } else if name == "GL_ARB_fragment_shader"@ {
            Some(Extension::ArbFragmentShader)
        } else if name == "GL_EXT_framebuffer_object"@ {
            Some(Extension::ExtFramebufferObject)
        } else if name == "GL_ARB_framebuffer_object"@ {
            Some(Extension::ArbFramebufferObject)
        } else if name == "GL_EXT_framebuffer_blit"@ {
            Some(Extension::ExtFramebufferBlit)
        } else if name == "GL_ARB_uniform_buffer_object"@ {
            Some(Extension::ArbUniformBufferObject)
        } else if name == "GL_ARB_vertex_array_object"@ {
            Some(Extension::ArbVertexArrayObject)
        } else if name == "GL_APPLE_vertex_array_object"@ {
            Some(Extension::AppleVertexArrayObject)
        } else if name == "GL_OES_vertex_array_object"@ {
            Some(Extension::OesVertexArrayObject)
        } else {
            None
        }
    }

    /// The extension that an implementation reports under the name `name`,
    /// if it is one that the renderer can make use of.
    pub fn named(name: &str) -> (r: Option<Extension>)
        ensures
            r == Extension::of(name@),
    {
        if same_text(name, "GL_ARB_vertex_buffer_object") {
            Some(Extension::ArbVertexBufferObject)
        } else if same_text(name, "GL_ARB_map_buffer_range") {
            Some(Extension::ArbMapBufferRange)
        } else if same_text(name, "GL_ARB_shader_objects") {
            Some(Extension::ArbShaderObjects)
        } else if same_text(name, "GL_ARB_vertex_shader") {
            Some(Extension::ArbVertexShader)
        } else if same_text(name, "GL_ARB_fragment_shader") {
            Some(Extension::ArbFragmentShader)
        } else if same_text(name, "GL_EXT_framebuffer_object") {
            Some(Extension::ExtFramebufferObject)
        } else if same_text(name, "GL_ARB_framebuffer_object") {
            Some(Extension::ArbFramebufferObject)
        } else if same_text(name, "GL_EXT_framebuffer_blit") {
            Some(Extension::ExtFramebufferBlit)
        } else if same_text(name, "GL_ARB_uniform_buffer_object") {
            Some(Extension::ArbUniformBufferObject)
        } else if same_text(name, "GL_ARB_vertex_array_object") {
            Some(Extension::ArbVertexArrayObject)
        } else if same_text(name, "GL_APPLE_vertex_array_object") {
            Some(Extension::AppleVertexArrayObject)
        } else if same_text(name, "GL_OES_vertex_array_object") {
            Some(Extension::OesVertexArrayObject)
        } else {
            None
        }
    }
}

impl Extensions {
    /// `self` with the extension `which` offered.
    pub open spec fn with(self, which: Extension) -> Extensions {
        match which {
            Extension::ArbVertexBufferObject => Extensions {
                gl_arb_vertex_buffer_object: true,
                ..self
            },
            Extension::ArbMapBufferRange => Extensions { gl_arb_map_buffer_range: true, ..self },
            Extension::ArbShaderObjects => Extensions { gl_arb_shader_objects: true, ..self },
            Extension::ArbVertexShader => Extensions { gl_arb_vertex_shader: true, ..self },
            Extension::ArbFragmentShader => Extensions { gl_arb_fragment_shader: true, ..self },
            Extension::ExtFramebufferObject => Extensions {
                gl_ext_framebuffer_object: true,
                ..self
            },
            Extension::ArbFramebufferObject => Extensions {
                gl_arb_framebuffer_object: true,
                ..self
            },
            Extension::ExtFramebufferBlit => Extensions { gl_ext_framebuffer_blit: true, ..self },
            Extension::ArbUniformBufferObject => Extensions {
                gl_arb_uniform_buffer_object: true,
                ..self
            },
            Extension::ArbVertexArrayObject => Extensions {
                gl_arb_vertex_array_object: true,
                ..self
            },
            Extension::AppleVertexArrayObject => Extensions {
                gl_apple_vertex_array_object: true,
                ..self
            },
            Extension::OesVertexArrayObject => Extensions {
                gl_oes_vertex_array_object: true,
                ..self
            },
        }
    }

    /// Whether `self` offers the extension `which`.
    pub open spec fn offers(self, which: Extension) -> bool {
        match which {
            Extension::ArbVertexBufferObject => self.gl_arb_vertex_buffer_object,
            Extension::ArbMapBufferRange => self.gl_arb_map_buffer_range,
            Extension::ArbShaderObjects => self.gl_arb_shader_objects,
            Extension::ArbVertexShader => self.gl_arb_vertex_shader,
            Extension::ArbFragmentShader => self.gl_arb_fragment_shader,
            Extension::ExtFramebufferObject => self.gl_ext_framebuffer_object,
            Extension::ArbFramebufferObject => self.gl_arb_framebuffer_object,
            Extension::ExtFramebufferBlit => self.gl_ext_framebuffer_blit,
            Extension::ArbUniformBufferObject => self.gl_arb_uniform_buffer_object,
            Extension::ArbVertexArrayObject => self.gl_arb_vertex_array_object,
            Extension::AppleVertexArrayObject => self.gl_apple_vertex_array_object,
            Extension::OesVertexArrayObject => self.gl_oes_vertex_array_object,
        }
    }

    /// No extension.
    pub fn none() -> (extensions: Extensions)
        ensures
            forall|which: Extension| !extensions.offers(which),
    {
        Extensions {
            gl_arb_vertex_buffer_object: false,
            gl_arb_map_buffer_range: false,
            gl_arb_shader_objects: false,
            gl_arb_vertex_shader: false,
            gl_arb_fragment_shader: false,
            gl_ext_framebuffer_object: false,
            gl_arb_framebuffer_object: false,
            gl_ext_framebuffer_blit: false,
            gl_arb_uniform_buffer_object: false,
            gl_arb_vertex_array_object: false,
            gl_apple_vertex_array_object: false,
            gl_oes_vertex_array_object: false,
        }
    }

    /// Notes that the implementation offers the extension `which`.
    pub fn enable(&mut self, which: Extension)
        ensures
            *final(self) == old(self).with(which),
    {
        let before: Extensions = *self;
        *self = before.enabled(which);
    }

    /// `self` with the extension `which` offered.
    pub fn enabled(self, which: Extension) -> (extensions: Extensions)
        ensures
            extensions == self.with(which),
    {
        match which {
            Extension::ArbVertexBufferObject => Extensions {
                gl_arb_vertex_buffer_object: true,
                ..self
            },
            Extension::ArbMapBufferRange => Extensions { gl_arb_map_buffer_range: true, ..self },
            Extension::ArbShaderObjects => Extensions { gl_arb_shader_objects: true, ..self },
            Extension::ArbVertexShader => Extensions { gl_arb_vertex_shader: true, ..self },
            Extension::ArbFragmentShader => Extensions { gl_arb_fragment_shader: true, ..self },
            Extension::ExtFramebufferObject => Extensions {
                gl_ext_framebuffer_object: true,
                ..self
            },
            Extension::ArbFramebufferObject => Extensions {
                gl_arb_framebuffer_object: true,
                ..self
            },
            Extension::ExtFramebufferBlit => Extensions { gl_ext_framebuffer_blit: true, ..self },
            Extension::ArbUniformBufferObject => Extensions {
                gl_arb_uniform_buffer_object: true,
                ..self
            },
            Extension::ArbVertexArrayObject => Extensions {
                gl_arb_vertex_array_object: true,
                ..self
            },
            Extension::AppleVertexArrayObject => Extensions {
                gl_apple_vertex_array_object: true,
                ..self
            },
            Extension::OesVertexArrayObject => Extensions {
                gl_oes_vertex_array_object: true,
                ..self
            },
        }
    }
}

/// The version of an OpenGL implementation and the extensions that it offers.
#[derive(Debug, Clone, Copy, PartialEq, Eq, Structural)]
pub struct Capabilities {
    pub version: Version,
    pub extensions: Extensions,
}

} // verus!
