//! Surfaces: named buckets of draw calls, with the target that they draw to
//! and what it is cleared with.

use vstd::prelude::*;

use crate::math::{Color, Vector2};
use crate::utils::handle::Handle;
use crate::video::assets::texture::RenderTextureHandle;
use crate::video::errors::Error;
use crate::video::MAX_FRAMEBUFFER_ATTACHMENTS;

verus! {

/// The handle of a surface.
#[derive(Debug, Clone, Copy, PartialEq, Eq, Hash, Structural)]
pub struct SurfaceHandle(pub Handle);

/// What a `SurfaceParams` stands for.
pub struct SurfaceSettings<S> {
    /// The color attachments, one place for each that a frame buffer takes.
    pub colors: Seq<Option<RenderTextureHandle>>,
    /// The depth or depth-and-stencil attachment.
    pub depth_stencil: Option<RenderTextureHandle>,
    /// The color that the target is cleared with, if it is cleared.
    pub clear_color: Option<Color<S>>,
    /// The depth that the target is cleared with, if it is cleared.
    pub clear_depth: Option<S>,
    /// The stencil value that the target is cleared with, if it is cleared.
    pub clear_stencil: Option<i32>,
}

/// The settings of a surface: the attachments of its frame buffer and the
/// values that it is cleared with. Without attachments the surface draws to
/// the frame buffer of the window. `S` is the type of a clear value.
#[derive(Debug, Clone, Copy)]
pub struct SurfaceParams<S> {
    colors: [Option<RenderTextureHandle>; MAX_FRAMEBUFFER_ATTACHMENTS],
    depth_stencil: Option<RenderTextureHandle>,
    clear_color: Option<Color<S>>,
    clear_depth: Option<S>,
    clear_stencil: Option<i32>,
}

impl<S> View for SurfaceParams<S> {
    type V = SurfaceSettings<S>;

    closed spec fn view(&self) -> SurfaceSettings<S> {
        SurfaceSettings {
            colors: self.colors@,
            depth_stencil: self.depth_stencil,
            clear_color: self.clear_color,
            clear_depth: self.clear_depth,
            clear_stencil: self.clear_stencil,
        }
    }
}

/// The color attachments that `colors` ask for: `colors` in its order,
/// then empty places up to the number that a frame buffer takes.
pub open spec fn attachments(colors: Seq<RenderTextureHandle>) -> Seq<Option<RenderTextureHandle>> {
    Seq::new(
        MAX_FRAMEBUFFER_ATTACHMENTS as nat,
        |i: int|
            if i < colors.len() {
                Some(colors[i])
            } else {
                None
            },
    )
}

impl<S> SurfaceParams<S> {
    /// Settings without attachments, with the clear color `clear_color`, the
    /// clear depth `clear_depth` and no clear stencil.
    pub fn new(clear_color: Option<Color<S>>, clear_depth: Option<S>) -> (params: SurfaceParams<S>)
        ensures
            params@ == (SurfaceSettings {
                colors: attachments(Seq::empty()),
                depth_stencil: None,
                clear_color: clear_color,
                clear_depth: clear_depth,
                clear_stencil: None,
            }),
    {
        let params = SurfaceParams {
            colors: [None, None, None, None, None, None, None, None],
            depth_stencil: None,
            clear_color,
            clear_depth,
            clear_stencil: None,
        };
        assert(params.colors@ =~= attachments(Seq::empty()));
        params
    }

    /// Sets the attachments of the frame buffer: the color attachments
    /// `colors`, fewer than a frame buffer takes, and the depth or
    /// depth-and-stencil attachment. With too many colors nothing changes.
    pub fn set_attachments(
        &mut self,
        colors: &[RenderTextureHandle],
        depth_stencil: Option<RenderTextureHandle>,
    ) -> (r: Result<(), Error>)
        ensures
            match r {
                Ok(_) => {
                    &&& colors@.len() < MAX_FRAMEBUFFER_ATTACHMENTS
                    &&& final(self)@ == (SurfaceSettings {
                        colors: attachments(colors@),
                        depth_stencil: depth_stencil,
                        ..old(self)@
                    })
                },
                Err(e) => {
                    &&& colors@.len() >= MAX_FRAMEBUFFER_ATTACHMENTS
                    &&& final(self)@ == old(self)@
                    &&& e.message() == "Too many color attachments."@
                },
            },
    {
        if colors.len() >= MAX_FRAMEBUFFER_ATTACHMENTS {
            return Err(Error::SurfaceInvalid("Too many color attachments.".to_owned()));
        }
        let mut i: usize = 0;
        while i < MAX_FRAMEBUFFER_ATTACHMENTS
            invariant
                i <= MAX_FRAMEBUFFER_ATTACHMENTS,
                self.depth_stencil == old(self).depth_stencil,
                self.clear_color == old(self).clear_color,
                self.clear_depth == old(self).clear_depth,
                self.clear_stencil == old(self).clear_stencil,
                forall|j: int| 0 <= j < i ==> self.colors@[j] == attachments(colors@)[j],
            decreases MAX_FRAMEBUFFER_ATTACHMENTS - i,
        {
            if i < colors.len() {
                self.colors[i] = Some(colors[i]);
            } else {
                self.colors[i] = None;
            }
            i = i + 1;
        }
        self.depth_stencil = depth_stencil;
        assert(self.colors@ =~= attachments(colors@));
        Ok(())
    }

    /// Sets what the target is cleared with. `None` leaves that part of the
    /// target as it is.
    pub fn set_clear(&mut self, color: Option<Color<S>>, depth: Option<S>, stencil: Option<i32>)
        ensures
            final(self)@ == (SurfaceSettings {
                clear_color: color,
                clear_depth: depth,
                clear_stencil: stencil,
                ..old(self)@
            }),
    {
        self.clear_color = color;
        self.clear_depth = depth;
        self.clear_stencil = stencil;
    }

    /// The color attachments, one place for each that a frame buffer takes.
    pub fn colors(&self) -> (colors: &[Option<RenderTextureHandle>; MAX_FRAMEBUFFER_ATTACHMENTS])
        ensures
            colors@ == self@.colors,
    {
        &self.colors
    }

    /// The depth or depth-and-stencil attachment.
    pub fn depth_stencil(&self) -> (attachment: Option<RenderTextureHandle>)
        ensures
            attachment == self@.depth_stencil,
    {
        self.depth_stencil
    }

    /// The color that the target is cleared with, if it is cleared.
    pub fn clear_color(&self) -> (color: &Option<Color<S>>)
        ensures
            *color == self@.clear_color,
    {
        &self.clear_color
    }

    /// The depth that the target is cleared with, if it is cleared.
    pub fn clear_depth(&self) -> (depth: &Option<S>)
        ensures
            *depth == self@.clear_depth,
    {
        &self.clear_depth
    }

    /// The stencil value that the target is cleared with, if it is cleared.
    pub fn clear_stencil(&self) -> (stencil: Option<i32>)
        ensures
            stencil == self@.clear_stencil,
    {
        self.clear_stencil
    }
}

/// The scissor box of a surface, in window coordinates. While the test is
/// enabled, drawing changes only the pixels inside the box.
#[derive(Debug, Clone, Copy, PartialEq, Eq, Structural)]
pub enum SurfaceScissor {
    Enable {
        /// The lower left corner of the box, in pixels.
        position: Vector2<i32>,
        /// The width and height of the box.
        size: Vector2<u32>,
    },
    Disable,
}

/// The viewport of a surface: the rectangle of the window that normalized
/// coordinates are mapped to.
#[derive(Debug, Clone, Copy, PartialEq, Eq, Structural)]
pub struct SurfaceViewport {
    /// The lower left corner of the rectangle, in pixels.
    pub position: Vector2<i32>,
    /// The width and height of the rectangle.
    pub size: Vector2<u32>,
}

} // verus!
