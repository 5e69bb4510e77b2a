//! The kinds of tile a map is made of.

use vstd::prelude::*;
use crate::animation::{Animation, AnimationSource, AnimationSourceView, Rect};
use crate::assets::TextureId;
use crate::rendering::{Render, RenderView};

verus! {

/// A kind of tile.
#[derive(Debug, Clone, Copy, PartialEq, Eq, Structural)]
pub enum TileType {
    Ground,
    Wall,
    SideWall,
    GatewayWall,
    Door,
    SideDoor,
    Shadow,
}

/// The number of tile kinds; ids run from `0` up to this, exclusive.
pub const TILE_TYPE_COUNT: u32 = 7;

impl TileType {
    /// The id under which this kind is stored in a map file.
    pub open spec fn spec_id(self) -> u32 {
        match self {
            TileType::Ground => 0,
            TileType::Wall => 1,
            TileType::SideWall => 2,
            TileType::GatewayWall => 3,
            TileType::Door => 4,
            TileType::SideDoor => 5,
            TileType::Shadow => 6,
        }
    }

    /// The id under which this kind is stored in a map file.
    #[verifier::when_used_as_spec(spec_id)]
    pub fn id(self) -> (id: u32)
        ensures
            id == self.spec_id(),
            id < TILE_TYPE_COUNT,
    {
        match self {
            TileType::Ground => 0,
            TileType::Wall => 1,
            TileType::SideWall => 2,
            TileType::GatewayWall => 3,
            TileType::Door => 4,
            TileType::SideDoor => 5,
            TileType::Shadow => 6,
        }
    }

    /// Width and height of a tile of this kind, in pixels.
    pub open spec fn spec_size(&self) -> (u32, u32) {
        match *self {
            TileType::Ground => (40, 40),
            TileType::Wall => (20, 40),
            TileType::SideWall => (5, 5),
            TileType::GatewayWall => (5, 5),
            TileType::Door => (40, 40),
            TileType::SideDoor => (1, 5),
            TileType::Shadow => (40, 40),
        }
    }

    /// How a tile of this kind is drawn: the ground, the walls and the
    /// shadow by their texture, the doors by their animation.
    pub open spec fn spec_render(self) -> RenderView {
        match self {
            TileType::Ground => RenderView::Texture(TextureId::Ground.spec_id()),
            TileType::Wall => RenderView::Texture(TextureId::Wall.spec_id()),
            TileType::SideWall => RenderView::Texture(TextureId::SideWall.spec_id()),
            TileType::GatewayWall => RenderView::Texture(TextureId::GatewayWall.spec_id()),
            TileType::Door => RenderView::Animation(
                strip_animation(TextureId::Door, 40, 40).1,
                strip_animation(TextureId::Door, 40, 40).0,
            ),
            TileType::SideDoor => RenderView::Animation(
                strip_animation(TextureId::SideDoor, 40, 59).1,
                strip_animation(TextureId::SideDoor, 40, 59).0,
            ),
            TileType::Shadow => RenderView::Texture(TextureId::Shadow.spec_id()),
        }
    }

    /// Builds the descriptor by which a tile of this kind is drawn.
    pub fn get_render(&self) -> (render: Render)
        ensures
            render@ == self.spec_render(),
    {
        match self {
            TileType::Ground => Render::Texture(TextureId::Ground.id()),
            TileType::Wall => Render::Texture(TextureId::Wall.id()),
            TileType::SideWall => Render::Texture(TextureId::SideWall.id()),
            TileType::GatewayWall => Render::Texture(TextureId::GatewayWall.id()),
            TileType::Door => {
                let (anim_src, anim) = build_door_animation();
                Render::Animation(anim, anim_src)
            },
            TileType::SideDoor => {
                let (anim_src, anim) = build_sidedoor_animation();
                Render::Animation(anim, anim_src)
            },
            TileType::Shadow => Render::Texture(TextureId::Shadow.id()),
        }
    }

    /// Width and height of a tile of this kind, in pixels.
    #[verifier::when_used_as_spec(spec_size)]
    pub fn size(&self) -> (size: (u32, u32))
        ensures
            size == self.spec_size(),
            size.0 > 0,
            size.1 > 0,
    {
        match self {
            TileType::Ground => (40, 40),
            TileType::Wall => (20, 40),
            TileType::SideWall => (5, 5),
            TileType::GatewayWall => (5, 5),
            TileType::Door => (40, 40),
            TileType::SideDoor => (1, 5),
            TileType::Shadow => (40, 40),
        }
    }

    /// The kind with the given id. No kind has an id of `TILE_TYPE_COUNT`
    /// or more; what stands here for such an id means nothing.
    pub open spec fn spec_from_u32(u: u32) -> TileType
        recommends
            u < TILE_TYPE_COUNT,
    {
        if u == 0 {
            TileType::Ground
        } else if u == 1 {
            TileType::Wall
        } else if u == 2 {
            TileType::SideWall
        } else if u == 3 {
            TileType::GatewayWall
        } else if u == 4 {
            TileType::Door
        } else if u == 5 {
            TileType::SideDoor
        } else {
            TileType::Shadow
        }
    }

    /// The kind with the given id. There is no kind for an id of
    /// `TILE_TYPE_COUNT` or more.
    #[verifier::when_used_as_spec(spec_from_u32)]
    pub fn from_u32(u: u32) -> (tile: TileType)
        requires
            u < TILE_TYPE_COUNT,
        ensures
            tile == TileType::spec_from_u32(u),
            tile.spec_id() == u,
    {
        if u == 0 {
            TileType::Ground
        } else if u == 1 {
            TileType::Wall
        } else if u == 2 {
            TileType::SideWall
        } else if u == 3 {
            TileType::GatewayWall
        } else if u == 4 {
            TileType::Door
        } else if u == 5 {
            TileType::SideDoor
        } else {
            TileType::Shadow
        }
    }
}

/// The number of frames in a door animation.
pub const DOOR_FRAMES: u32 = 4;

/// How long a door animation runs, in microseconds.
pub const DOOR_DURATION: u64 = 800_000;

/// The rectangles of a strip of `DOOR_FRAMES` frames, each `w` by `h`
/// pixels, laid side by side from the left edge of a texture.
pub open spec fn strip_frames(w: u32, h: u32) -> Map<u32, Rect> {
    Map::new(|i: u32| i < DOOR_FRAMES, |i: u32| Rect { x: (i * w) as u32, y: 0, w, h })
}

/// The animation of a strip of `DOOR_FRAMES` frames in texture `texture`:
/// stopped, at position zero, `DOOR_DURATION` long.
pub open spec fn strip_animation(texture: TextureId, w: u32, h: u32) -> (
    AnimationSourceView,
    Animation,
) {
    (
        AnimationSourceView { texture_id: texture.spec_id(), frames: strip_frames(w, h) },
        Animation {
            duration: DOOR_DURATION,
            frames: DOOR_FRAMES,
            time_elapsed: 0,
            is_playing: false,
            run_forever: false,
        },
    )
}

/// Builds the animation of a strip of frames in texture `texture`.
fn build_strip_animation(texture: TextureId, w: u32, h: u32) -> (built: (
    AnimationSource,
    Animation,
))
    requires
        DOOR_FRAMES * w <= u32::MAX,
    ensures
        (built.0@, built.1) == strip_animation(texture, w, h),
{
    let mut anim_src = AnimationSource::new(texture.id());
    let mut i: u32 = 0;
    while i < DOOR_FRAMES
        invariant
            i <= DOOR_FRAMES,
            DOOR_FRAMES * w <= u32::MAX,
            anim_src@.texture_id == texture.spec_id(),
            anim_src@.frames =~= Map::new(
                |k: u32| k < i,
                |k: u32| Rect { x: (k * w) as u32, y: 0, w, h },
            ),
        decreases DOOR_FRAMES - i,
    {
        assert(i * w <= DOOR_FRAMES * w) by (nonlinear_arith)
            requires
                i <= DOOR_FRAMES,
        ;
        anim_src.set_frame(i, Rect { x: i * w, y: 0, w, h });
        i = i + 1;
    }
    (anim_src, Animation::new(DOOR_DURATION, DOOR_FRAMES))
}

/// The animation of a door seen from the front: frames of 40 by 40 pixels.
pub fn build_door_animation() -> (built: (AnimationSource, Animation))
    ensures
        (built.0@, built.1) == strip_animation(TextureId::Door, 40, 40),
{
    build_strip_animation(TextureId::Door, 40, 40)
}

/// The animation of a door seen from the side: frames of 40 by 59 pixels.
pub fn build_sidedoor_animation() -> (built: (AnimationSource, Animation))
    ensures
        (built.0@, built.1) == strip_animation(TextureId::SideDoor, 40, 59),
{
    build_strip_animation(TextureId::SideDoor, 40, 59)
}

} // verus!
