//! The entities of the scene, kept in a `hecs::World`.
//!
//! The editor keeps one component per entity, a `Sprite`. This module states
//! what the world's operations do to the sprites it holds, and builds the
//! per-frame passes over them on that.

use vstd::prelude::*;
use hecs::{Entity, World};
use crate::editor::{tile_sprite, CurTile};
use crate::rendering::{DrawCommand, Render, RenderView};
use crate::tile::{build_sidedoor_animation, TileType};

verus! {

/// Everything the editor keeps of one entity of the scene.
#[derive(Debug)]
pub struct Sprite {
    /// The kind of tile shown.
    pub tile: TileType,
    /// How it is drawn.
    pub render: Render,
    /// Where its left edge is, in pixels.
    pub x: i32,
    /// Where its top edge is, in pixels.
    pub y: i32,
    /// The layer it was put on.
    pub layer: usize,
    /// Set on the sprite that follows the mouse, and on no other.
    pub cursor: Option<CurTile>,
}

/// A `Sprite` as a mathematical value.
#[verifier::ext_equal]
pub struct SpriteView {
    pub tile: TileType,
    pub render: RenderView,
    pub x: i32,
    pub y: i32,
    pub layer: usize,
    pub cursor: bool,
}

impl View for Sprite {
    type V = SpriteView;

    open spec fn view(&self) -> SpriteView {
        SpriteView {
            tile: self.tile,
            render: self.render@,
            x: self.x,
            y: self.y,
            layer: self.layer,
            cursor: self.cursor is Some,
        }
    }
}

impl Clone for Sprite {
    /// A sprite with the same content.
    fn clone(&self) -> (copy: Sprite)
        ensures
            copy@ == self@,
    {
        Sprite {
            tile: self.tile,
            render: self.render.clone(),
            x: self.x,
            y: self.y,
            layer: self.layer,
            cursor: self.cursor,
        }
    }
}

/// `hecs::World`, carried through as it is: nothing of its inside is known
/// here but what `world_sprites` and `world_len` name.
#[verifier::external_type_specification]
#[verifier::external_body]
pub struct ExWorld(World);


/// The sprites in a world: for each live entity that has a `Sprite`, the
/// bits of its handle (`Entity::to_bits`) and the sprite. A world holds
/// finitely many.
pub uninterp spec fn world_sprites(world: World) -> Map<u64, SpriteView>;

/// The number of entities in a world, with or without a sprite, counting
/// those whose handle is only reserved so far.
pub uninterp spec fn world_len(world: World) -> nat;

/// The most entities a world can hold.
pub const WORLD_CAPACITY: u32 = 0xffff_ffff;

/// A world as the editor sees it: its sprites by handle, and how many
/// entities it holds in all.
#[verifier::ext_equal]
pub struct Scene {
    pub sprites: Map<u64, SpriteView>,
    pub len: nat,
}

/// What the editor sees of `world`.
pub open spec fn scene(world: World) -> Scene {
    Scene { sprites: world_sprites(world), len: world_len(world) }
}

impl Scene {
    /// This scene with every cursor sprite moved to `position`.
    pub open spec fn cursors_moved(self, position: (i32, i32)) -> Scene {
        Scene {
            sprites: self.sprites.map_values(
                |sprite: SpriteView|
                    if sprite.cursor {
                        sprite.moved_to(position)
                    } else {
                        sprite
                    },
            ),
            ..self
        }
    }

    /// The sprites of this scene that are cursors, if `cursors` is set, or
    /// those that are none, if it is not.
    pub open spec fn keeping(self, cursors: bool) -> Map<u64, SpriteView> {
        Map::new(
            |id: u64| self.sprites.contains_key(id) && self.sprites[id].cursor == cursors,
            |id: u64| self.sprites[id],
        )
    }

    /// This scene with no cursor sprite left in it: the entities that held
    /// one are gone.
    pub open spec fn without_cursors(self) -> Scene {
        Scene {
            sprites: self.keeping(false),
            len: (self.len - (self.sprites.len() - self.keeping(false).len())) as nat,
        }
    }

    /// This scene with no sprite but the cursor sprites left in it: the
    /// entities that held another are gone.
    pub open spec fn only_cursors(self) -> Scene {
        Scene {
            sprites: self.keeping(true),
            len: (self.len - (self.sprites.len() - self.keeping(true).len())) as nat,
        }
    }

    /// This scene with one more entity, which holds `sprite` and has the
    /// handle `id`.
    pub open spec fn with(self, id: u64, sprite: SpriteView) -> Scene {
        Scene { sprites: self.sprites.insert(id, sprite), len: self.len + 1 }
    }

    /// This scene after the entity with handle `id` was despawned, where
    /// `gone` says whether there was such an entity.
    pub open spec fn without(self, id: u64, gone: bool) -> Scene {
        Scene {
            sprites: self.sprites.remove(id),
            len: if gone && self.len > 0 {
                (self.len - 1) as nat
            } else {
                self.len
            },
        }
    }
}

impl SpriteView {
    /// This sprite after `time_elapsed` microseconds: its animation, if it
    /// has one, has moved on.
    pub open spec fn advanced(self, time_elapsed: u64) -> SpriteView {
        SpriteView { render: self.render.advanced(time_elapsed), ..self }
    }

    /// This sprite with its animation, if it has one, set playing.
    pub open spec fn started(self) -> SpriteView {
        SpriteView { render: self.render.started(), ..self }
    }

    /// This sprite moved to `position`.
    pub open spec fn moved_to(self, position: (i32, i32)) -> SpriteView {
        SpriteView { x: position.0, y: position.1, ..self }
    }

    /// The draw that shows this sprite, if it shows anything.
    pub open spec fn draw(self) -> Option<DrawCommand> {
        self.render.draw((self.x, self.y))
    }
}

/// The handles and sprites of `found`, each sprite as its mathematical
/// value.
pub open spec fn listing(found: Seq<(u64, Sprite)>) -> Seq<(u64, SpriteView)> {
    found.map_values(|entry: (u64, Sprite)| (entry.0, entry.1@))
}

/// Whether `found` lists the sprites of `sprites`: each of them once, under
/// its handle, and nothing else. The order is left open.
pub open spec fn lists(found: Seq<(u64, SpriteView)>, sprites: Map<u64, SpriteView>) -> bool {
    &&& forall|i: int|
        0 <= i < found.len() ==> sprites.contains_key(#[trigger] found[i].0)
            && sprites[found[i].0] == found[i].1
    &&& forall|i: int, j: int|
        0 <= i < j < found.len() ==> #[trigger] found[i].0 != #[trigger] found[j].0
    &&& forall|id: u64| #[trigger]
        sprites.contains_key(id) ==> exists|i: int| 0 <= i < found.len() && found[i].0 == id
}

/// `World::spawn` with a bundle of one `Sprite`, and `Entity::to_bits` on
/// the handle it returns.
///
/// The world gains one entity, which holds `sprite`; its handle belongs to
/// no entity that was live before. No other entity changes. hecs refuses
/// ("too many entities") to go beyond `WORLD_CAPACITY` entities, hence the
/// `requires`.
#[verifier::external_body]
pub(crate) fn spawn_sprite(world: &mut World, sprite: Sprite) -> (id: u64)
    requires
        world_len(*old(world)) < WORLD_CAPACITY,
    ensures
        world_sprites(*final(world)).dom().finite(),
        !world_sprites(*old(world)).contains_key(id),
        world_sprites(*final(world)) == world_sprites(*old(world)).insert(id, sprite@),
        world_len(*final(world)) == world_len(*old(world)) + 1,
{
    world.spawn((sprite,)).to_bits().get()
}

/// `World::despawn` on the entity with handle bits `id`, if `id` is the bits
/// of a handle at all (`Entity::from_bits`).
///
/// Whatever entity had that handle is gone, and its sprite with it; nothing
/// else changes. The result says whether there was such an entity: there was
/// if it had a sprite.
#[verifier::external_body]
pub(crate) fn despawn_entity(world: &mut World, id: u64) -> (gone: bool)
    ensures
        world_sprites(*final(world)).dom().finite(),
        world_sprites(*final(world)) == world_sprites(*old(world)).remove(id),
        world_sprites(*old(world)).contains_key(id) ==> gone,
        world_len(*old(world)) == world_len(*final(world)) + if gone { 1nat } else { 0nat },
{
    match Entity::from_bits(id) {
        Some(entity) => world.despawn(entity).is_ok(),
        None => false,
    }
}

/// `World::query_mut` for every entity that has a `Sprite`, handing each
/// out as the bits of its handle and a copy of the sprite.
///
/// hecs yields the entities in an order it does not document. The world
/// stays as it is.
#[verifier::external_body]
pub(crate) fn all_sprites(world: &mut World) -> (found: Vec<(u64, Sprite)>)
    ensures
        world_sprites(*final(world)).dom().finite(),
        lists(listing(found@), world_sprites(*old(world))),
        world_sprites(*final(world)) == world_sprites(*old(world)),
        world_len(*final(world)) == world_len(*old(world)),
{
    world.query_mut::<(Entity, &Sprite)>().into_iter().map(
        |(entity, sprite)| (entity.to_bits().get(), sprite.clone()),
    ).collect()
}

/// `World::insert_one` with a `Sprite`, on an entity that has one: hecs
/// drops the old sprite and keeps the new one in its place. Nothing else
/// changes.
#[verifier::external_body]
pub(crate) fn replace_sprite(world: &mut World, id: u64, sprite: Sprite)
    requires
        world_sprites(*old(world)).contains_key(id),
    ensures
        world_sprites(*final(world)).dom().finite(),
        world_sprites(*final(world)) == world_sprites(*old(world)).insert(id, sprite@),
        world_len(*final(world)) == world_len(*old(world)),
{
    if let Some(entity) = Entity::from_bits(id) {
        let _ = world.insert_one(entity, sprite);
    }
}

/// `World::flush`, which turns reserved handles into entities without
/// components, and then `World::len`, which counts the entities.
#[verifier::external_body]
fn entity_count(world: &mut World) -> (count: u32)
    ensures
        world_sprites(*final(world)).dom().finite(),
        count == world_len(*old(world)),
        world_sprites(*final(world)) == world_sprites(*old(world)),
        world_len(*final(world)) == world_len(*old(world)),
{
    world.flush();
    world.len()
}

/// Whether `world` can take `count` more entities.
pub fn has_room(world: &mut World, count: u32) -> (yes: bool)
    ensures
        yes == (world_len(*old(world)) + count <= WORLD_CAPACITY),
        world_sprites(*final(world)) == world_sprites(*old(world)),
        world_len(*final(world)) == world_len(*old(world)),
{
    let used: u32 = entity_count(world);
    count <= WORLD_CAPACITY - used
}

/// Puts an animated side door into the world, on the first layer, with its
/// corner at the pixel `position`, and hands out its handle.
pub fn build_door_anim(world: &mut World, position: (i32, i32)) -> (id: u64)
    requires
        world_len(*old(world)) < WORLD_CAPACITY,
    ensures
        !scene(*old(world)).sprites.contains_key(id),
        scene(*final(world)) == scene(*old(world)).with(
            id,
            tile_sprite(TileType::SideDoor, position, 0),
        ),
{
    let (anim_src, anim) = build_sidedoor_animation();
    let sprite = Sprite {
        tile: TileType::SideDoor,
        render: Render::Animation(anim, anim_src),
        x: position.0,
        y: position.1,
        layer: 0,
        cursor: None,
    };
    spawn_sprite(world, sprite)
}

/// The draws that show the sprites of `found`, in the order of `found`;
/// a sprite that shows nothing adds none.
pub open spec fn draw_list(found: Seq<(u64, SpriteView)>) -> Seq<DrawCommand>
    decreases found.len(),
{
    if found.len() == 0 {
        Seq::empty()
    } else {
        match found.last().1.draw() {
            Some(cmd) => draw_list(found.drop_last()).push(cmd),
            None => draw_list(found.drop_last()),
        }
    }
}

/// Something done to every sprite of a world.
pub(crate) enum Change {
    /// Animations move on by so many microseconds.
    Advance(u64),
    /// Animations are set playing.
    Start,
    /// Cursor sprites move to this pixel.
    MoveCursors(i32, i32),
}

impl SpriteView {
    /// This sprite after `change` was made to it.
    pub(crate) open spec fn changed(self, change: Change) -> SpriteView {
        match change {
            Change::Advance(time_elapsed) => self.advanced(time_elapsed),
            Change::Start => self.started(),
            Change::MoveCursors(x, y) => if self.cursor {
                self.moved_to((x, y))
            } else {
                self
            },
        }
    }
}

impl Sprite {
    /// Makes `change` to this sprite.
    fn change(&mut self, change: &Change)
        ensures
            final(self)@ == old(self)@.changed(*change),
    {
        match change {
            Change::Advance(time_elapsed) => {
                self.render.update(*time_elapsed);
            },
            Change::Start => {
                self.render.play();
            },
            Change::MoveCursors(x, y) => {
                if self.cursor.is_some() {
                    self.x = *x;
                    self.y = *y;
                }
            },
        }
    }
}

/// Makes `change` to every sprite of the world.
pub(crate) fn change_sprites(world: &mut World, change: &Change)
    ensures
        world_sprites(*final(world)) == world_sprites(*old(world)).map_values(
            |sprite: SpriteView| sprite.changed(*change),
        ),
        world_len(*final(world)) == world_len(*old(world)),
{
    let mut found = all_sprites(world);
    let ghost before = world_sprites(*world);
    let ghost all = listing(found@);
    while found.len() > 0
        invariant
            lists(all, before),
            found@.len() <= all.len(),
            listing(found@) == all.take(found@.len() as int),
            world_len(*world) == world_len(*old(world)),
            world_sprites(*world).dom() == before.dom(),
            forall|i: int|
                0 <= i < all.len() ==> world_sprites(*world)[#[trigger] all[i].0] == if i
                    < found@.len() {
                    all[i].1
                } else {
                    all[i].1.changed(*change)
                },
        decreases found.len(),
    {
        let ghost n = found@.len() - 1;
        let ghost prefix = found@;
        let (id, mut sprite) = found.pop().unwrap();
        assert(all.take(prefix.len() as int)[n] == all[n]);
        assert(before.contains_key(all[n].0));
        sprite.change(change);
        replace_sprite(world, id, sprite);
    }
    assert(world_sprites(*world) =~= before.map_values(
        |sprite: SpriteView| sprite.changed(*change),
    ));
}

/// Takes out of the world every sprite that is a cursor, if `cursors` is
/// set, or every sprite that is none, if it is not.
pub(crate) fn despawn_sprites(world: &mut World, cursors: bool)
    ensures
        scene(*final(world)) == if cursors {
            scene(*old(world)).without_cursors()
        } else {
            scene(*old(world)).only_cursors()
        },
        scene(*final(world)).len <= scene(*old(world)).len,
{
    let mut found = all_sprites(world);
    let ghost before = world_sprites(*world);
    let ghost all = listing(found@);
    while found.len() > 0
        invariant
            lists(all, before),
            found@.len() <= all.len(),
            listing(found@) == all.take(found@.len() as int),
            world_sprites(*world).dom().finite(),
            before.dom().finite(),
            world_sprites(*world).len() <= before.len(),
            world_len(*world) - world_sprites(*world).len() == world_len(*old(world))
                - before.len(),
            forall|id: u64| #[trigger]
                world_sprites(*world).contains_key(id) ==> before.contains_key(id),
            forall|i: int|
                0 <= i < all.len() ==> (world_sprites(*world).contains_key(#[trigger] all[i].0)
                    <==> i < found@.len() || all[i].1.cursor != cursors),
            forall|i: int|
                0 <= i < all.len() && world_sprites(*world).contains_key(#[trigger] all[i].0)
                    ==> world_sprites(*world)[all[i].0] == all[i].1,
        decreases found.len(),
    {
        let ghost n = found@.len() - 1;
        let ghost prefix = found@;
        let ghost here = *world;
        let (id, sprite) = found.pop().unwrap();
        assert(all.take(prefix.len() as int)[n] == all[n]);
        assert(before.contains_key(all[n].0));
        if sprite.cursor.is_some() == cursors {
            let _ = despawn_entity(world, id);
            proof {
                lemma_one_fewer(world_sprites(here), world_sprites(*world), id);
            }
        }
    }
    assert(world_sprites(*world) =~= scene(*old(world)).keeping(!cursors)) by {
        assert forall|id: u64| #[trigger]
            before.contains_key(id) && before[id].cursor != cursors implies world_sprites(
            *world,
        ).contains_key(id) && world_sprites(*world)[id] == before[id] by {
            let i = choose|i: int| 0 <= i < all.len() && all[i].0 == id;
            assert(world_sprites(*world).contains_key(all[i].0));
        }
        assert forall|id: u64| #[trigger]
            world_sprites(*world).contains_key(id) implies before[id].cursor != cursors by {
            let i = choose|i: int| 0 <= i < all.len() && all[i].0 == id;
            assert(world_sprites(*world).contains_key(all[i].0));
        }
    }
}

/// Taking one sprite away makes the sprites one fewer.
proof fn lemma_one_fewer(before: Map<u64, SpriteView>, now: Map<u64, SpriteView>, id: u64)
    requires
        before.contains_key(id),
        now.dom().finite(),
        now == before.remove(id),
    ensures
        before.dom().finite(),
        before.len() == now.len() + 1,
{
    assert(before.dom() =~= now.dom().insert(id));
    assert(now.dom() =~= before.dom().remove(id));
}

/// Moves every animation in the world on by `time_elapsed` microseconds.
pub fn update_animations(world: &mut World, time_elapsed: u64)
    ensures
        world_sprites(*final(world)) == world_sprites(*old(world)).map_values(
            |sprite: SpriteView| sprite.advanced(time_elapsed),
        ),
        world_len(*final(world)) == world_len(*old(world)),
{
    change_sprites(world, &Change::Advance(time_elapsed));
    assert(world_sprites(*world) =~= world_sprites(*old(world)).map_values(
        |sprite: SpriteView| sprite.advanced(time_elapsed),
    ));
}

/// Sets every animation in the world playing.
pub fn play_animations(world: &mut World)
    ensures
        world_sprites(*final(world)) == world_sprites(*old(world)).map_values(
            |sprite: SpriteView| sprite.started(),
        ),
        world_len(*final(world)) == world_len(*old(world)),
{
    change_sprites(world, &Change::Start);
    assert(world_sprites(*world) =~= world_sprites(*old(world)).map_values(
        |sprite: SpriteView| sprite.started(),
    ));
}

/// Computes what a render pass draws: one draw for each sprite that shows
/// something, in the order in which the world yields its sprites.
pub fn system_render(world: &mut World) -> (commands: Vec<DrawCommand>)
    ensures
        exists|found: Seq<(u64, SpriteView)>|
            lists(found, world_sprites(*old(world))) && commands@ == draw_list(found),
        world_sprites(*final(world)) == world_sprites(*old(world)),
        world_len(*final(world)) == world_len(*old(world)),
{
    let found = all_sprites(world);
    let mut commands: Vec<DrawCommand> = Vec::new();
    let mut i: usize = 0;
    while i < found.len()
        invariant
            i <= found@.len(),
            commands@ == draw_list(listing(found@).take(i as int)),
        decreases found@.len() - i,
    {
        let sprite = &found[i].1;
        let ghost shown = listing(found@).take(i + 1);
        assert(shown.drop_last() =~= listing(found@).take(i as int));
        match sprite.render.draw((sprite.x, sprite.y)) {
            Some(cmd) => {
                commands.push(cmd);
            },
            None => {},
        }
        i = i + 1;
    }
    assert(listing(found@).take(i as int) =~= listing(found@));
    commands
}

} // verus!
