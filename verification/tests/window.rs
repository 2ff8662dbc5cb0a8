use crayon::graphics::window::check_minimal_requirements;
use crayon::graphics::{
    Capabilities, Error, Extension, Extensions, OpenGLAPI, OpenGLProfile, Version, WindowBuilder,
};

fn no_extensions() -> Extensions {
    Extensions {
        gl_arb_vertex_buffer_object: false,
        gl_arb_map_buffer_range: false,
        gl_arb_shader_objects: false,
        gl_arb_vertex_shader: false,
        gl_arb_fragment_shader: false,
        gl_ext_framebuffer_object: false,
        gl_arb_framebuffer_object: false,
        gl_ext_framebuffer_blit: false,
        gl_arb_uniform_buffer_object: false,
        gl_arb_vertex_array_object: false,
        gl_apple_vertex_array_object: false,
        gl_oes_vertex_array_object: false,
    }
}

fn missing(version: Version, extensions: Extensions) -> Option<String> {
    match check_minimal_requirements(&Capabilities { version, extensions }) {
        Ok(()) => None,
        Err(e) => {
            let Error::Requirement(what) = &e;
            assert_eq!(what.as_str(), e.description());
            Some(what.clone())
        }
    }
}

#[test]
fn builder_starts_with_the_defaults() {
    let builder = WindowBuilder::new();
    assert_eq!(builder.title(), "Window");
    assert_eq!(builder.position(), (0, 0));
    assert_eq!(builder.dimensions(), (512, 512));
    assert!(!builder.vsync());
    assert_eq!(builder.multisample(), 0);
    assert_eq!(builder.api(), OpenGLAPI::Lastest);
    assert_eq!(builder.profile(), OpenGLProfile::Core);
    let other = WindowBuilder::default();
    assert_eq!(other.title(), "Window");
    assert_eq!(other.dimensions(), (512, 512));
}

#[test]
fn builder_takes_each_setting() {
    let mut builder = WindowBuilder::new();
    builder
        .with_title("Demo")
        .with_position((-3, 40))
        .with_dimensions(640, 480)
        .with_multisample(4)
        .with_profile(OpenGLProfile::Compatibility)
        .with_api(OpenGLAPI::GLES(3, 0));
    assert_eq!(builder.title(), "Demo");
    assert_eq!(builder.position(), (-3, 40));
    assert_eq!(builder.dimensions(), (640, 480));
    assert_eq!(builder.multisample(), 4);
    assert_eq!(builder.profile(), OpenGLProfile::Compatibility);
    assert_eq!(builder.api(), OpenGLAPI::GLES(3, 0));
    assert!(!builder.vsync());
}

#[test]
fn builder_setting_leaves_the_others() {
    let mut builder = WindowBuilder::new();
    builder.with_multisample(8);
    assert_eq!(builder.title(), "Window");
    assert_eq!(builder.dimensions(), (512, 512));
    builder.with_title("");
    assert_eq!(builder.title(), "");
    assert_eq!(builder.multisample(), 8);
    builder.with_api(OpenGLAPI::GL(3, 3));
    assert_eq!(builder.api(), OpenGLAPI::GL(3, 3));
    assert_eq!(builder.profile(), OpenGLProfile::Core);
}

#[test]
fn versions_are_ordered_by_api_then_major_then_minor() {
    assert!(Version::GL(1, 4) < Version::GL(1, 5));
    assert!(Version::GL(1, 9) < Version::GL(2, 0));
    assert!(!(Version::GL(2, 0) < Version::GL(2, 0)));
    assert!(!(Version::GL(3, 0) < Version::GL(2, 9)));
    assert!(Version::GL(9, 9) < Version::ES(1, 0));
    assert!(!(Version::ES(1, 0) < Version::GL(9, 9)));
    assert!(Version::ES(2, 0) < Version::ES(3, 0));
    assert!(Version::ES(3, 0) >= Version::ES(3, 0));
    assert!(Version::ES(3, 1) > Version::ES(3, 0));
    assert_eq!(
        Version::GL(2, 1).partial_cmp(&Version::GL(2, 1)),
        Some(std::cmp::Ordering::Equal)
    );
    assert_eq!(
        Version::ES(2, 1).partial_cmp(&Version::GL(4, 1)),
        Some(std::cmp::Ordering::Greater)
    );
}

#[test]
fn a_recent_desktop_version_needs_no_extension() {
    assert_eq!(missing(Version::GL(3, 1), no_extensions()), None);
    assert_eq!(missing(Version::GL(4, 5), no_extensions()), None);
}

#[test]
fn an_embedded_version_is_never_turned_down() {
    assert_eq!(missing(Version::ES(1, 0), no_extensions()), None);
    assert_eq!(missing(Version::ES(2, 0), no_extensions()), None);
    assert_eq!(missing(Version::ES(3, 0), no_extensions()), None);
}

#[test]
fn each_requirement_is_named_when_it_is_the_first_unmet() {
    let mut e = no_extensions();
    assert_eq!(
        missing(Version::GL(1, 4), e),
        Some("vertex buffer objects".to_string())
    );
    e.gl_arb_vertex_buffer_object = true;
    assert_eq!(
        missing(Version::GL(1, 4), e),
        Some("vertex buffer objects".to_string())
    );
    e.gl_arb_map_buffer_range = true;
    assert_eq!(missing(Version::GL(1, 4), e), Some("shader objects".to_string()));
    assert_eq!(
        missing(Version::GL(1, 5), no_extensions()),
        Some("shader objects".to_string())
    );
    e.gl_arb_shader_objects = true;
    e.gl_arb_vertex_shader = true;
    assert_eq!(missing(Version::GL(1, 4), e), Some("shader objects".to_string()));
    e.gl_arb_fragment_shader = true;
    assert_eq!(
        missing(Version::GL(1, 4), e),
        Some("framebuffer objects".to_string())
    );
    assert_eq!(
        missing(Version::GL(2, 0), no_extensions()),
        Some("framebuffer objects".to_string())
    );
    e.gl_arb_framebuffer_object = true;
    assert_eq!(
        missing(Version::GL(1, 4), e),
        Some("blitting framebuffer".to_string())
    );
    e.gl_arb_framebuffer_object = false;
    e.gl_ext_framebuffer_object = true;
    assert_eq!(
        missing(Version::GL(2, 1), e),
        Some("blitting framebuffer".to_string())
    );
    e.gl_ext_framebuffer_blit = true;
    assert_eq!(
        missing(Version::GL(1, 4), e),
        Some("uniform buffer objects.".to_string())
    );
    assert_eq!(
        missing(Version::GL(3, 0), no_extensions()),
        Some("uniform buffer objects.".to_string())
    );
    e.gl_arb_uniform_buffer_object = true;
    assert_eq!(
        missing(Version::GL(1, 4), e),
        Some("vertex array objects.".to_string())
    );
    assert_eq!(missing(Version::GL(3, 0), e), None);
    e.gl_oes_vertex_array_object = true;
    assert_eq!(missing(Version::GL(1, 4), e), None);
    e.gl_oes_vertex_array_object = false;
    e.gl_apple_vertex_array_object = true;
    assert_eq!(missing(Version::GL(2, 1), e), None);
    e.gl_apple_vertex_array_object = false;
    e.gl_arb_vertex_array_object = true;
    assert_eq!(missing(Version::GL(2, 1), e), None);
}

#[test]
fn extensions_are_found_by_their_names() {
    assert_eq!(
        Extension::named("GL_ARB_vertex_buffer_object"),
        Some(Extension::ArbVertexBufferObject)
    );
    assert_eq!(Extension::named("GL_ARB_map_buffer_range"), Some(Extension::ArbMapBufferRange));
    assert_eq!(Extension::named("GL_ARB_shader_objects"), Some(Extension::ArbShaderObjects));
    assert_eq!(Extension::named("GL_ARB_vertex_shader"), Some(Extension::ArbVertexShader));
    assert_eq!(Extension::named("GL_ARB_fragment_shader"), Some(Extension::ArbFragmentShader));
    assert_eq!(
        Extension::named("GL_EXT_framebuffer_object"),
        Some(Extension::ExtFramebufferObject)
    );
    assert_eq!(
        Extension::named("GL_ARB_framebuffer_object"),
        Some(Extension::ArbFramebufferObject)
    );
    assert_eq!(Extension::named("GL_EXT_framebuffer_blit"), Some(Extension::ExtFramebufferBlit));
    assert_eq!(
        Extension::named("GL_ARB_uniform_buffer_object"),
        Some(Extension::ArbUniformBufferObject)
    );
    assert_eq!(
        Extension::named("GL_ARB_vertex_array_object"),
        Some(Extension::ArbVertexArrayObject)
    );
    assert_eq!(
        Extension::named("GL_APPLE_vertex_array_object"),
        Some(Extension::AppleVertexArrayObject)
    );
    assert_eq!(
        Extension::named("GL_OES_vertex_array_object"),
        Some(Extension::OesVertexArrayObject)
    );
    assert_eq!(Extension::named("GL_ARB_multitexture"), None);
    assert_eq!(Extension::named("gl_arb_vertex_shader"), None);
    assert_eq!(Extension::named(""), None);
}

#[test]
fn enabling_an_extension_sets_its_flag_alone() {
    assert_eq!(Extensions::none(), no_extensions());
    let mut e = Extensions::none();
    e.enable(Extension::ExtFramebufferBlit);
    let mut expected = no_extensions();
    expected.gl_ext_framebuffer_blit = true;
    assert_eq!(e, expected);
    e.enable(Extension::OesVertexArrayObject);
    e.enable(Extension::ExtFramebufferBlit);
    expected.gl_oes_vertex_array_object = true;
    assert_eq!(e, expected);
    assert_eq!(no_extensions().enabled(Extension::ArbVertexShader).gl_arb_vertex_shader, true);
    assert_eq!(no_extensions().enabled(Extension::ArbVertexShader).gl_arb_shader_objects, false);
}

#[test]
fn reported_names_decide_the_requirements() {
    let mut e = Extensions::none();
    for name in [
        "GL_ARB_vertex_buffer_object",
        "GL_ARB_map_buffer_range",
        "GL_ARB_shader_objects",
        "GL_ARB_vertex_shader",
        "GL_ARB_fragment_shader",
        "GL_KHR_debug",
        "GL_EXT_framebuffer_object",
        "GL_EXT_framebuffer_blit",
    ] {
        if let Some(which) = Extension::named(name) {
            e.enable(which);
        }
    }
    assert_eq!(
        missing(Version::GL(1, 4), e),
        Some("uniform buffer objects.".to_string())
    );
}
