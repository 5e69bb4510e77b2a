//! What a render pass draws: the descriptor a tile carries and the draw
//! commands computed from it.

use vstd::prelude::*;
use crate::animation::{Animation, AnimationSource, AnimationSourceView, Rect};

verus! {

/// How an entity is drawn: one whole texture, or the current frame of an
/// animation cut from a texture atlas.
#[derive(Debug)]
pub enum Render {
    Texture(u32),
    Animation(Animation, AnimationSource),
}

/// A `Render` as a mathematical value.
#[verifier::ext_equal]
pub enum RenderView {
    Texture(u32),
    Animation(Animation, AnimationSourceView),
}

impl View for Render {
    type V = RenderView;

    open spec fn view(&self) -> RenderView {
        match *self {
            Render::Texture(texture_id) => RenderView::Texture(texture_id),
            Render::Animation(anim, anim_src) => RenderView::Animation(anim, anim_src@),
        }
    }
}

/// One texture draw: which texture, where on screen, and which part of the
/// texture (`None` for all of it).
#[derive(Debug, Clone, Copy, PartialEq, Eq, Structural)]
pub struct DrawCommand {
    pub texture_id: u32,
    pub x: i32,
    pub y: i32,
    pub source: Option<Rect>,
}

impl RenderView {
    /// The draw that shows this descriptor at `position`, if it shows
    /// anything: a texture is always drawn, an animation only while its
    /// current frame has a rectangle.
    pub open spec fn draw(self, position: (i32, i32)) -> Option<DrawCommand> {
        match self {
            RenderView::Texture(texture_id) => Some(
                DrawCommand { texture_id, x: position.0, y: position.1, source: None },
            ),
            RenderView::Animation(anim, anim_src) => anim.spec_draw(position, anim_src),
        }
    }

    /// This descriptor after `time_elapsed` microseconds: an animation moves
    /// on, a texture stays as it is.
    pub open spec fn advanced(self, time_elapsed: u64) -> RenderView {
        match self {
            RenderView::Texture(texture_id) => RenderView::Texture(texture_id),
            RenderView::Animation(anim, anim_src) => RenderView::Animation(
                anim.advanced(time_elapsed),
                anim_src,
            ),
        }
    }

    /// This descriptor with its animation, if it has one, set playing.
    pub open spec fn started(self) -> RenderView {
        match self {
            RenderView::Texture(texture_id) => RenderView::Texture(texture_id),
            RenderView::Animation(anim, anim_src) => RenderView::Animation(
                Animation { is_playing: true, ..anim },
                anim_src,
            ),
        }
    }
}

impl Clone for Render {
    /// A descriptor that draws the same.
    fn clone(&self) -> (copy: Render)
        ensures
            copy@ == self@,
    {
        match self {
            Render::Texture(texture_id) => Render::Texture(*texture_id),
            Render::Animation(anim, anim_src) => Render::Animation(*anim, anim_src.clone()),
        }
    }
}

impl Render {
    /// Computes the draw that shows this descriptor at `position`.
    pub fn draw(&self, position: (i32, i32)) -> (cmd: Option<DrawCommand>)
        ensures
            cmd == self@.draw(position),
    {
        match self {
            Render::Texture(texture_id) => Some(
                DrawCommand { texture_id: *texture_id, x: position.0, y: position.1, source: None },
            ),
            Render::Animation(anim, anim_src) => anim.draw(position, anim_src),
        }
    }

    /// Moves the animation, if there is one, on by `time_elapsed`
    /// microseconds.
    pub fn update(&mut self, time_elapsed: u64)
        ensures
            final(self)@ == old(self)@.advanced(time_elapsed),
    {
        match self {
            Render::Texture(_) => {},
            Render::Animation(anim, _) => {
                anim.update(time_elapsed);
            },
        }
    }

    /// Sets the animation, if there is one, playing.
    pub fn play(&mut self)
        ensures
            final(self)@ == old(self)@.started(),
    {
        match self {
            Render::Texture(_) => {},
            Render::Animation(anim, _) => {
                anim.play();
            },
        }
    }
}

} // verus!
