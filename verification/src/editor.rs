//! The editor: what is selected, what has been placed, and what each frame's
//! input does to both.

use vstd::prelude::*;
use vstd::arithmetic::div_mod::lemma_fundamental_div_mod_converse;
use hecs::World;
use crate::map_file::{
    encode_map, file_entries, file_text, in_file_order, lemma_by_layer_of_layers,
    lemma_read_written_in_order, MapEntry,
};
use crate::tile::TileType;
use crate::tile_map::{lists_tiles, Placement, TileIndex, TileMap, GRID_MAX};
use crate::world::{
    change_sprites, despawn_entity, despawn_sprites, scene, spawn_sprite, world_len,
    world_sprites, Change, Scene, Sprite, SpriteView, WORLD_CAPACITY,
};

verus! {

/// The number of layers a map has.
pub const LAYER_COUNT: usize = 3;

/// The layer of the sprite that follows the mouse: above every layer of the
/// map.
pub const CURSOR_LAYER: usize = 100;

/// Marks the sprite that shows the selected tile under the mouse.
#[derive(Debug, Clone, Copy, PartialEq, Eq, Structural)]
pub struct CurTile;

/// What a click does: in insert mode it places the selected tile, in delete
/// mode it places nothing.
#[derive(Debug, Clone, Copy, PartialEq, Eq, Structural)]
pub enum EditorMode {
    Insert,
    Delete,
}

/// One placement, as the undo stack keeps it.
#[derive(Debug, Clone, Copy, PartialEq, Eq)]
pub struct PlaceCommand {
    pub layer: usize,
    pub index: TileIndex,
    pub tile: TileType,
    pub entity: u64,
}

/// What the keyboard and the mouse gave in one frame.
#[derive(Debug, Clone, Copy, PartialEq, Eq)]
pub struct Input {
    /// Where the mouse is, in pixels.
    pub mouse: (i32, i32),
    /// The left mouse button went down in this frame.
    pub click: bool,
    /// The key that places tiles for as long as it is held is down.
    pub hold: bool,
    /// The key for insert mode went down.
    pub insert: bool,
    /// The key for delete mode went down.
    pub delete: bool,
    /// The key that selects the ground tile went down.
    pub ground: bool,
    /// The key that steps through the wall tiles went down.
    pub wall: bool,
    /// The key that steps through the door tiles went down.
    pub door: bool,
    /// The key for the first layer went down.
    pub layer1: bool,
    /// The key for the second layer went down.
    pub layer2: bool,
    /// The undo key went down.
    pub undo: bool,
    /// The save key went down.
    pub save: bool,
}

/// The editor's state.
#[derive(Debug)]
pub struct Editor {
    pub mode: EditorMode,
    pub cur_tile_type: TileType,
    pub cur_layer: usize,
    pub tile_map: [TileMap; 3],
    pub undo_stack: Vec<PlaceCommand>,
}

/// The editor's state as a mathematical value.
#[verifier::ext_equal]
pub struct EditorView {
    pub mode: EditorMode,
    pub cur_tile_type: TileType,
    pub cur_layer: usize,
    pub maps: Seq<Map<TileIndex, Placement>>,
    pub stack: Seq<PlaceCommand>,
}

impl View for Editor {
    type V = EditorView;

    open spec fn view(&self) -> EditorView {
        EditorView {
            mode: self.mode,
            cur_tile_type: self.cur_tile_type,
            cur_layer: self.cur_layer,
            maps: Seq::new(LAYER_COUNT as nat, |layer: int| self.tile_map@[layer]@),
            stack: self.undo_stack@,
        }
    }
}

/// The left or top edge of the cell of size `size` that holds the pixel
/// `mouse`: the largest multiple of `size` that is not above `mouse`, or
/// the smallest `i32` where that multiple lies below it.
pub open spec fn spec_snap_coord(mouse: i32, size: u32) -> i32
    recommends
        size > 0,
{
    let edge = (mouse as int / size as int) * size as int;
    if edge < i32::MIN {
        i32::MIN
    } else {
        edge as i32
    }
}

/// The top left corner of the cell that holds the pixel `mouse`, for tiles
/// of `size`.
pub open spec fn spec_snap(mouse: (i32, i32), size: (u32, u32)) -> (i32, i32)
    recommends
        size.0 > 0,
        size.1 > 0,
{
    (spec_snap_coord(mouse.0, size.0), spec_snap_coord(mouse.1, size.1))
}

/// The sprite that shows a tile of kind `tile` under the mouse.
pub open spec fn cursor_sprite(tile: TileType, mouse: (i32, i32)) -> SpriteView {
    SpriteView {
        tile,
        render: tile.spec_render(),
        x: mouse.0,
        y: mouse.1,
        layer: CURSOR_LAYER,
        cursor: true,
    }
}

/// The sprite that shows a placed tile of kind `tile`, with its corner at
/// `corner`, on layer `layer`.
pub open spec fn tile_sprite(tile: TileType, corner: (i32, i32), layer: usize) -> SpriteView {
    SpriteView { tile, render: tile.spec_render(), x: corner.0, y: corner.1, layer, cursor: false }
}

/// The wall tile that the wall key selects when `tile` is selected: the
/// plain wall, from there the side wall, from there the gateway wall.
pub open spec fn next_wall(tile: TileType) -> TileType {
    match tile {
        TileType::Wall => TileType::SideWall,
        TileType::SideWall => TileType::GatewayWall,
        _ => TileType::Wall,
    }
}

/// The door tile that the door key selects when `tile` is selected: the
/// door, from there the side door.
pub open spec fn next_door(tile: TileType) -> TileType {
    match tile {
        TileType::Door => TileType::SideDoor,
        _ => TileType::Door,
    }
}

/// The cell of the grid whose corner is the pixel `corner`, if the grid has
/// such a cell.
pub open spec fn cell_of(corner: (i32, i32)) -> Option<TileIndex> {
    if 0 <= corner.0 <= GRID_MAX && 0 <= corner.1 <= GRID_MAX {
        Some(TileIndex((corner.0 as u32, corner.1 as u32)))
    } else {
        None
    }
}

/// The pixel at the corner of the cell `index`.
pub open spec fn corner_of(index: TileIndex) -> (i32, i32)
    recommends
        index.spec_in_grid(),
{
    (index.0.0 as i32, index.0.1 as i32)
}

/// Whether `found` lists the tiles of the layers `maps`: each tile once,
/// with its layer, its cell and its kind, and nothing else. The order is
/// left open.
pub open spec fn lists_maps(found: Seq<MapEntry>, maps: Seq<Map<TileIndex, Placement>>) -> bool {
    &&& forall|i: int|
        0 <= i < found.len() ==> (#[trigger] found[i]).valid()
            && maps[found[i].layer as int].contains_key(found[i].index)
            && maps[found[i].layer as int][found[i].index].tile == found[i].tile
    &&& forall|i: int, j: int|
        0 <= i < j < found.len() ==> !((#[trigger] found[i]).layer == (#[trigger] found[j]).layer
            && found[i].index == found[j].index)
    &&& forall|layer: int, index: TileIndex|
        0 <= layer < LAYER_COUNT && #[trigger] maps[layer].contains_key(index) ==> exists|i: int|
            0 <= i < found.len() && found[i].layer == layer && found[i].index == index
}

/// Whether the layers `a` hold tiles of the same kinds at the same cells as
/// the layers `b`; the entities that show them may differ.
pub open spec fn same_tiles(
    a: Seq<Map<TileIndex, Placement>>,
    b: Seq<Map<TileIndex, Placement>>,
) -> bool {
    forall|layer: int, index: TileIndex|
        #![trigger a[layer].contains_key(index)]
        #![trigger b[layer].contains_key(index)]
        0 <= layer < LAYER_COUNT ==> (a[layer].contains_key(index) <==> b[layer].contains_key(
            index,
        )) && (b[layer].contains_key(index) ==> a[layer][index].tile == b[layer][index].tile)
}

/// Whether `text` is a map file of the layers `maps`: reading it gives a
/// list of the tiles of `maps`, and it is the text that is written for that
/// list.
pub open spec fn saves(text: Seq<u8>, maps: Seq<Map<TileIndex, Placement>>) -> bool {
    &&& file_entries(text) matches Some(entries)
    &&& lists_maps(entries, maps)
    &&& text == file_text(entries)
}

/// The editor and the scene after the tiles `entries` were put on an empty
/// map one after the other, the entity `ids[i]` showing the tile
/// `entries[i]`. A later tile replaces the record of an earlier one at its
/// cell; the sprites of both stay.
pub open spec fn loaded(
    editor: EditorView,
    scene: Scene,
    entries: Seq<MapEntry>,
    ids: Seq<u64>,
) -> (EditorView, Scene)
    recommends
        entries.len() == ids.len(),
    decreases entries.len(),
{
    if entries.len() == 0 {
        (editor, scene)
    } else {
        let so_far = loaded(editor, scene, entries.drop_last(), ids.drop_last());
        let entry = entries.last();
        (
            so_far.0.recorded(entry, ids.last()),
            so_far.1.with(ids.last(), tile_sprite(entry.tile, corner_of(entry.index), entry.layer)),
        )
    }
}

/// What a frame did, and what it asks for.
#[derive(Debug)]
pub struct Frame {
    /// The handle of the new cursor sprite, if a tile key went down.
    pub cursor: Option<u64>,
    /// Whether the world held the entity of the placement that was taken
    /// back, if the undo key went down.
    pub undone: Option<bool>,
    /// The handle of the entity that shows the placed tile, if one was
    /// placed.
    pub placed: Option<u64>,
    /// The text to write to the map file, if the save key went down.
    pub saved: Option<Vec<u8>>,
}

/// The editor and the scene after the first steps of a frame that started
/// with the editor `e0` and the scene `s0` and ended with the report
/// `frame`.
///
/// The cursor sprites follow the mouse, snapped to cells of the tile that
/// was selected when the frame began. Then the keys for mode, tile and layer
/// are dealt with. Then, if a tile key went down, the cursor sprites are
/// replaced by one for the tile now selected, at the pixel under the mouse.
pub open spec fn frame_selected(e0: EditorView, s0: Scene, input: Input, frame: Frame) -> (
    EditorView,
    Scene,
) {
    let moved = s0.cursors_moved(spec_snap(input.mouse, e0.cur_tile_type.spec_size()));
    let keyed = e0.after_keys(input);
    if input.selects() {
        (
            keyed,
            moved.without_cursors().with(
                frame.cursor->0,
                cursor_sprite(keyed.cur_tile_type, input.mouse),
            ),
        )
    } else {
        (keyed, moved)
    }
}

/// The editor and the scene after the next step of the frame: if the undo
/// key went down, the last placement is taken back.
pub open spec fn frame_undone(e0: EditorView, s0: Scene, input: Input, frame: Frame) -> (
    EditorView,
    Scene,
) {
    let (editor, scene) = frame_selected(e0, s0, input, frame);
    if input.undo {
        (editor.undone(), scene.without(editor.stack.last().entity, frame.undone->0))
    } else {
        (editor, scene)
    }
}

/// The editor and the scene at the end of the frame: if the input places a
/// tile, the selected tile is placed at the cell under the mouse.
pub open spec fn frame_end(e0: EditorView, s0: Scene, input: Input, frame: Frame) -> (
    EditorView,
    Scene,
) {
    let (editor, scene) = frame_undone(e0, s0, input, frame);
    match editor.target(input) {
        Some(index) => (
            editor.placed(index, frame.placed->0),
            scene.with(
                frame.placed->0,
                tile_sprite(editor.cur_tile_type, corner_of(index), editor.cur_layer),
            ),
        ),
        None => (editor, scene),
    }
}

/// Whether the report `frame` fits a frame that started with the editor
/// `e0` and the scene `s0`: it reports each step that the input asked for
/// and no other, each handle it names was free when its entity was made, and
/// the entity of a placement that was taken back is reported gone if it had
/// a sprite.
pub open spec fn frame_fits(e0: EditorView, s0: Scene, input: Input, frame: Frame) -> bool {
    let moved = s0.cursors_moved(spec_snap(input.mouse, e0.cur_tile_type.spec_size()));
    let selected = frame_selected(e0, s0, input, frame);
    let undone = frame_undone(e0, s0, input, frame);
    &&& frame.cursor is Some <==> input.selects()
    &&& frame.cursor matches Some(id) ==> !moved.without_cursors().sprites.contains_key(id)
    &&& frame.undone is Some <==> input.undo
    &&& frame.undone matches Some(gone) ==> (selected.1.sprites.contains_key(
        selected.0.stack.last().entity,
    ) ==> gone)
    &&& frame.placed is Some <==> undone.0.target(input) is Some
    &&& frame.placed matches Some(id) ==> !undone.1.sprites.contains_key(id)
    &&& frame.saved is Some <==> input.save
}

impl Input {
    /// Whether a key that selects a tile went down.
    pub open spec fn selects(self) -> bool {
        self.ground || self.wall || self.door
    }

    /// How many entities a frame on this input may add to the world: a
    /// cursor sprite if a tile is selected, and a tile if one may be placed.
    pub open spec fn spawns(self) -> nat {
        (if self.selects() {
            1nat
        } else {
            0nat
        }) + (if self.click || self.hold {
            1nat
        } else {
            0nat
        })
    }
}

impl EditorView {
    /// The tile that is selected once the tile keys of `input` are dealt
    /// with: the ground key wins over the wall key, and the door key acts on
    /// what those two left.
    pub open spec fn selected_tile(self, input: Input) -> TileType {
        let first = if input.ground {
            TileType::Ground
        } else if input.wall {
            next_wall(self.cur_tile_type)
        } else {
            self.cur_tile_type
        };
        if input.door {
            next_door(first)
        } else {
            first
        }
    }

    /// The state once the keys of `input` for mode, tile and layer are
    /// dealt with. The key for insert mode wins over that for delete mode,
    /// the key for the first layer over that for the second.
    pub open spec fn after_keys(self, input: Input) -> EditorView {
        EditorView {
            mode: if input.insert {
                EditorMode::Insert
            } else if input.delete {
                EditorMode::Delete
            } else {
                self.mode
            },
            cur_tile_type: self.selected_tile(input),
            cur_layer: if input.layer1 {
                0
            } else if input.layer2 {
                1
            } else {
                self.cur_layer
            },
            ..self
        }
    }

    /// Whether placing the selected tile at `index` would repeat the last
    /// placement: same layer, same cell, same kind.
    pub open spec fn repeats(self, index: TileIndex) -> bool {
        &&& self.stack.len() > 0
        &&& self.stack.last().layer == self.cur_layer
        &&& self.stack.last().index == index
        &&& self.stack.last().tile == self.cur_tile_type
    }

    /// The cell at which `input` places a tile, if it places one: the mouse
    /// button went down or the placing key is held, the editor is in insert
    /// mode, the cell under the mouse lies in the grid, and the placement
    /// would not repeat the last one.
    pub open spec fn target(self, input: Input) -> Option<TileIndex> {
        let cell = cell_of(spec_snap(input.mouse, self.cur_tile_type.spec_size()));
        if (input.click || input.hold) && self.mode == EditorMode::Insert && cell is Some
            && !self.repeats(cell->0) {
            cell
        } else {
            None
        }
    }

    /// The state after the selected tile was placed at `index` and is shown
    /// by the entity `entity`: the cell's record is replaced, and the
    /// placement is the last on the undo stack.
    pub open spec fn placed(self, index: TileIndex, entity: u64) -> EditorView {
        EditorView {
            maps: self.maps.update(
                self.cur_layer as int,
                self.maps[self.cur_layer as int].insert(
                    index,
                    Placement { tile: self.cur_tile_type, entity },
                ),
            ),
            stack: self.stack.push(
                PlaceCommand {
                    layer: self.cur_layer,
                    index,
                    tile: self.cur_tile_type,
                    entity,
                },
            ),
            ..self
        }
    }

    /// The state with an empty map and nothing to undo.
    pub open spec fn cleared(self) -> EditorView {
        EditorView {
            maps: Seq::new(LAYER_COUNT as nat, |layer: int| Map::empty()),
            stack: Seq::empty(),
            ..self
        }
    }

    /// The state after the tile `entry` was put on the map, shown by the
    /// entity `entity`, without a word on the undo stack.
    pub open spec fn recorded(self, entry: MapEntry, entity: u64) -> EditorView {
        EditorView {
            maps: self.maps.update(
                entry.layer as int,
                self.maps[entry.layer as int].insert(
                    entry.index,
                    Placement { tile: entry.tile, entity },
                ),
            ),
            ..self
        }
    }

    /// The state after the last placement was taken back: it is off the
    /// stack, and its cell is empty again unless a later placement has put
    /// another entity there.
    pub open spec fn undone(self) -> EditorView
        recommends
            self.stack.len() > 0,
    {
        let last = self.stack.last();
        let map = self.maps[last.layer as int];
        EditorView {
            maps: if map.contains_key(last.index) && map[last.index].entity == last.entity {
                self.maps.update(last.layer as int, map.remove(last.index))
            } else {
                self.maps
            },
            stack: self.stack.drop_last(),
            ..self
        }
    }
}

/// Computes the edge of the cell that holds the pixel `mouse`.
fn snap_coord(mouse: i32, size: u32) -> (edge: i32)
    requires
        size > 0,
    ensures
        edge == spec_snap_coord(mouse, size),
{
    if mouse >= 0 {
        let cells: u32 = mouse as u32 / size;
        assert(cells * size <= mouse) by (nonlinear_arith)
            requires
                cells == mouse as int / size as int,
                size > 0,
                mouse >= 0,
        ;
        (cells * size) as i32
    } else {
        let below: u64 = (-(mouse as i64)) as u64;
        let cells: u64 = (below + (size as u64 - 1)) / size as u64;
        let rest: u64 = (below + (size as u64 - 1)) % size as u64;
        assert(cells * size == below + size - 1 - rest && cells * size < 0x2_0000_0000 && mouse
            as int == (-cells) * size + (size - 1 - rest)) by (nonlinear_arith)
            requires
                cells == (below + size - 1) / size as int,
                rest == (below + size - 1) % size as int,
                size > 0,
                below == -mouse,
                0 < below <= 0x8000_0000,
                size <= 0xffff_ffff,
        ;
        proof {
            lemma_fundamental_div_mod_converse(
                mouse as int,
                size as int,
                -(cells as int),
                size - 1 - rest,
            );
        }
        let reach: u64 = cells * size as u64;
        if reach > 0x8000_0000 {
            i32::MIN
        } else {
            (-(reach as i64)) as i32
        }
    }
}

/// Computes the corner of the cell that holds the pixel `mouse`.
pub fn snap(mouse: (i32, i32), size: (u32, u32)) -> (corner: (i32, i32))
    requires
        size.0 > 0,
        size.1 > 0,
    ensures
        corner == spec_snap(mouse, size),
{
    (snap_coord(mouse.0, size.0), snap_coord(mouse.1, size.1))
}

impl Editor {
    /// Whether the editor's state is in order: the selected layer and the
    /// layers of the placements on the undo stack exist, and each layer of
    /// the map is in order.
    pub open spec fn wf(&self) -> bool {
        &&& self.cur_layer < LAYER_COUNT
        &&& forall|layer: int| 0 <= layer < LAYER_COUNT ==> (#[trigger] self.tile_map@[layer]).wf()
        &&& forall|i: int|
            0 <= i < self.undo_stack@.len() ==> (#[trigger] self.undo_stack@[i]).layer < LAYER_COUNT
    }

    /// An editor in insert mode, with the ground tile selected, on the first
    /// layer of an empty map, with nothing to undo.
    pub fn new() -> (editor: Editor)
        ensures
            editor.wf(),
            editor@ == (EditorView {
                mode: EditorMode::Insert,
                cur_tile_type: TileType::Ground,
                cur_layer: 0,
                maps: Seq::new(LAYER_COUNT as nat, |layer: int| Map::empty()),
                stack: Seq::empty(),
            }),
    {
        let editor = Editor {
            mode: EditorMode::Insert,
            cur_tile_type: TileType::Ground,
            cur_layer: 0,
            tile_map: [TileMap::new(), TileMap::new(), TileMap::new()],
            undo_stack: Vec::new(),
        };
        editor
    }

    /// Puts the sprite that follows the mouse into the world, at the pixel
    /// `mouse`, and hands out its handle.
    pub fn start(&self, world: &mut World, mouse: (i32, i32)) -> (id: u64)
        requires
            self.wf(),
            world_len(*old(world)) < WORLD_CAPACITY,
        ensures
            !scene(*old(world)).sprites.contains_key(id),
            scene(*final(world)) == scene(*old(world)).with(
                id,
                cursor_sprite(self.cur_tile_type, mouse),
            ),
    {
        self.spawn_cur_tile(world, mouse)
    }

    /// Moves every cursor sprite to the corner of the cell that holds the
    /// pixel `mouse`, for tiles of the selected kind.
    pub fn update_cur_tile_pos(&self, world: &mut World, mouse: (i32, i32))
        requires
            self.wf(),
        ensures
            scene(*final(world)) == scene(*old(world)).cursors_moved(
                spec_snap(mouse, self.cur_tile_type.spec_size()),
            ),
    {
        let corner = snap(mouse, self.cur_tile_type.size());
        change_sprites(world, &Change::MoveCursors(corner.0, corner.1));
    }

    /// Takes every cursor sprite out of the world.
    pub fn despawn_cur_tile(&self, world: &mut World)
        ensures
            scene(*final(world)) == scene(*old(world)).without_cursors(),
            scene(*final(world)).len <= scene(*old(world)).len,
    {
        despawn_sprites(world, true);
    }

    /// Deals with the keys of `input` for mode, tile and layer.
    pub fn handle_keys(&mut self, input: &Input)
        requires
            old(self).wf(),
        ensures
            final(self).wf(),
            final(self)@ == old(self)@.after_keys(*input),
    {
        if input.insert {
            self.mode = EditorMode::Insert;
        } else if input.delete {
            self.mode = EditorMode::Delete;
        }
        if input.ground {
            self.cur_tile_type = TileType::Ground;
        } else if input.wall {
            self.cur_tile_type =
            match self.cur_tile_type {
                TileType::Wall => TileType::SideWall,
                TileType::SideWall => TileType::GatewayWall,
                _ => TileType::Wall,
            };
        }
        if input.door {
            self.cur_tile_type =
            match self.cur_tile_type {
                TileType::Door => TileType::SideDoor,
                _ => TileType::Door,
            };
        }
        if input.layer1 {
            self.cur_layer = 0;
        } else if input.layer2 {
            self.cur_layer = 1;
        }
    }

    /// Places the selected tile at the cell under the mouse, if `input`
    /// asks for that, and hands out the handle of the entity that shows it.
    pub fn handle_mouse_click(&mut self, world: &mut World, input: &Input) -> (placed: Option<u64>)
        requires
            old(self).wf(),
            input.click || input.hold ==> world_len(*old(world)) < WORLD_CAPACITY,
        ensures
            final(self).wf(),
            match old(self)@.target(*input) {
                Some(index) => {
                    &&& placed matches Some(id)
                    &&& !scene(*old(world)).sprites.contains_key(id)
                    &&& final(self)@ == old(self)@.placed(index, id)
                    &&& scene(*final(world)) == scene(*old(world)).with(
                        id,
                        tile_sprite(
                            old(self).cur_tile_type,
                            (index.0.0 as i32, index.0.1 as i32),
                            old(self).cur_layer,
                        ),
                    )
                },
                None => {
                    &&& placed is None
                    &&& final(self)@ == old(self)@
                    &&& scene(*final(world)) == scene(*old(world))
                },
            },
    {
        if !(input.click || input.hold) {
            return None;
        }
        match self.mode {
            EditorMode::Insert => {},
            EditorMode::Delete => {
                return None;
            },
        }
        let corner = snap(input.mouse, self.cur_tile_type.size());
        let edge: i32 = GRID_MAX as i32;
        if corner.0 < 0 || corner.0 > edge || corner.1 < 0 || corner.1 > edge {
            return None;
        }
        let index = TileIndex((corner.0 as u32, corner.1 as u32));
        let depth: usize = self.undo_stack.len();
        if depth > 0 {
            let last = &self.undo_stack[depth - 1];
            if last.layer == self.cur_layer && last.index.0.0 == index.0.0 && last.index.0.1
                == index.0.1 && last.tile == self.cur_tile_type {
                return None;
            }
        }
        let sprite = Sprite {
            tile: self.cur_tile_type,
            render: self.cur_tile_type.get_render(),
            x: corner.0,
            y: corner.1,
            layer: self.cur_layer,
            cursor: None,
        };
        let id = spawn_sprite(world, sprite);
        let layer: usize = self.cur_layer;
        let placement = Placement { tile: self.cur_tile_type, entity: id };
        let _ = self.tile_map[layer].insert(index, placement);
        self.undo_stack.push(
            PlaceCommand { layer, index, tile: self.cur_tile_type, entity: id },
        );
        Some(id)
    }

    /// Takes back the last placement: its entity leaves the world, and its
    /// cell is empty again unless a later placement has put another entity
    /// there. Says whether the world held that entity.
    pub fn undo(&mut self, world: &mut World) -> (gone: bool)
        requires
            old(self).wf(),
            old(self).undo_stack@.len() > 0,
        ensures
            final(self).wf(),
            final(self)@ == old(self)@.undone(),
            scene(*old(world)).sprites.contains_key(old(self).undo_stack@.last().entity) ==> gone,
            scene(*final(world)) == scene(*old(world)).without(
                old(self).undo_stack@.last().entity,
                gone,
            ),
    {
        let last = self.undo_stack.pop().unwrap();
        let layer: usize = last.layer;
        match self.tile_map[layer].get(last.index) {
            Some(placement) => {
                if placement.entity == last.entity {
                    let _ = self.tile_map[layer].remove(last.index);
                }
            },
            None => {},
        }
        let gone = despawn_entity(world, last.entity);
        gone
    }

    /// The tiles of layer `layer`, in the order in which the layer yields
    /// them.
    fn layer_entries(&self, layer: usize) -> (found: Vec<MapEntry>)
        requires
            self.wf(),
            layer < LAYER_COUNT,
        ensures
            lists_layer(found@, self@.maps, layer as int),
    {
        let tiles = self.tile_map[layer].entries();
        let mut found: Vec<MapEntry> = Vec::new();
        let mut i: usize = 0;
        proof {
            self.tile_map@[layer as int].lemma_tiles_valid();
        }
        while i < tiles.len()
            invariant
                i <= tiles@.len(),
                layer < LAYER_COUNT,
                found@.len() == i,
                lists_tiles(tiles@, self.tile_map@[layer as int]@),
                forall|index: TileIndex| #[trigger]
                    self.tile_map@[layer as int]@.contains_key(index) ==> index.spec_in_grid(),
                forall|k: int|
                    0 <= k < i ==> (#[trigger] found@[k]) == (MapEntry {
                        layer,
                        tile: tiles@[k].1.tile,
                        index: tiles@[k].0,
                    }),
            decreases tiles@.len() - i,
        {
            let (index, placement) = tiles[i];
            found.push(MapEntry { layer, tile: placement.tile, index });
            i = i + 1;
        }
        assert forall|index: TileIndex| #[trigger]
            self@.maps[layer as int].contains_key(index) implies exists|i: int|
            0 <= i < found@.len() && found@[i].index == index by {
            let k = choose|k: int| 0 <= k < tiles@.len() && tiles@[k].0 == index;
            assert(found@[k].index == index);
        }
        assert forall|i: int|
            0 <= i < found@.len() implies (#[trigger] found@[i]).valid() && found@[i].layer == layer
            && self@.maps[layer as int].contains_key(found@[i].index)
            && self@.maps[layer as int][found@[i].index].tile == found@[i].tile by {
            assert(self.tile_map@[layer as int]@.contains_key(tiles@[i].0));
        }
        found
    }

    /// The tiles of the map with their layers, the first layer first; inside
    /// a layer they come in the order in which the layer yields them.
    pub fn entries(&self) -> (found: Vec<MapEntry>)
        requires
            self.wf(),
        ensures
            lists_maps(found@, self@.maps),
            in_file_order(found@),
    {
        let mut found = self.layer_entries(0);
        let mut second = self.layer_entries(1);
        let mut third = self.layer_entries(2);
        proof {
            lemma_by_layer_of_layers(found@, second@, third@);
            lemma_lists_layers(found@, second@, third@, self@.maps);
        }
        found.append(&mut second);
        found.append(&mut third);
        found
    }

    /// The text of the map file that holds the map: the tiles of each layer
    /// on the layer's line, in the order in which the layer yields them.
    /// Reading the text gives the tiles of the map, and the text is the one
    /// that is written for those tiles.
    pub fn save(&self) -> (text: Vec<u8>)
        requires
            self.wf(),
        ensures
            saves(text@, self@.maps),
    {
        let entries = self.entries();
        let text = encode_map(&entries);
        proof {
            lemma_saves(entries@, self@.maps);
        }
        text
    }

    /// Replaces the map by the tiles `entries`, as read from a map file:
    /// every sprite but the cursor sprites leaves the world, the map and the
    /// undo stack are emptied, and the tiles are put on the map one after the
    /// other, each shown by a new entity. Hands out the handles of those
    /// entities, in the order of `entries`.
    pub fn load(&mut self, world: &mut World, entries: &Vec<MapEntry>) -> (ids: Vec<u64>)
        requires
            old(self).wf(),
            forall|i: int| 0 <= i < entries@.len() ==> (#[trigger] entries@[i]).valid(),
            world_len(*old(world)) + entries@.len() <= WORLD_CAPACITY,
        ensures
            final(self).wf(),
            ids@.len() == entries@.len(),
            ids@.no_duplicates(),
            forall|i: int|
                0 <= i < ids@.len() ==> !scene(*old(world)).only_cursors().sprites.contains_key(
                    #[trigger] ids@[i],
                ),
            (final(self)@, scene(*final(world))) == loaded(
                old(self)@.cleared(),
                scene(*old(world)).only_cursors(),
                entries@,
                ids@,
            ),
            scene(*final(world)).len <= scene(*old(world)).len + entries@.len(),
    {
        despawn_sprites(world, false);
        self.tile_map[0].clear();
        self.tile_map[1].clear();
        self.tile_map[2].clear();
        self.undo_stack.clear();
        assert(self@ =~= old(self)@.cleared());
        let ghost start = (self@, scene(*world));
        let mut ids: Vec<u64> = Vec::new();
        let mut i: usize = 0;
        while i < entries.len()
            invariant
                i <= entries@.len(),
                ids@.len() == i,
                self.wf(),
                forall|k: int| 0 <= k < entries@.len() ==> (#[trigger] entries@[k]).valid(),
                world_len(*world) + (entries@.len() - i) <= WORLD_CAPACITY,
                world_len(*world) <= world_len(*old(world)) + i,
                ids@.no_duplicates(),
                forall|k: int| 0 <= k < i ==> !start.1.sprites.contains_key(#[trigger] ids@[k]),
                forall|k: int|
                    0 <= k < i ==> scene(*world).sprites.contains_key(#[trigger] ids@[k]),
                (self@, scene(*world)) == loaded(start.0, start.1, entries@.take(i as int), ids@),
            decreases entries@.len() - i,
        {
            let entry = &entries[i];
            let sprite = Sprite {
                tile: entry.tile,
                render: entry.tile.get_render(),
                x: entry.index.0.0 as i32,
                y: entry.index.0.1 as i32,
                layer: entry.layer,
                cursor: None,
            };
            let ghost so_far = (self@, scene(*world));
            let ghost handles = ids@;
            let id = spawn_sprite(world, sprite);
            let layer: usize = entry.layer;
            let _ = self.tile_map[layer].insert(
                entry.index,
                Placement { tile: entry.tile, entity: id },
            );
            ids.push(id);
            proof {
                let taken = entries@.take(i + 1);
                assert(taken.drop_last() =~= entries@.take(i as int));
                assert(ids@.drop_last() =~= handles);
                assert forall|k: int| 0 <= k < i + 1 implies !start.1.sprites.contains_key(
                    #[trigger] ids@[k],
                ) by {
                    if k == i && start.1.sprites.contains_key(id) {
                        lemma_loaded_keeps(start.0, start.1, entries@.take(i as int), handles, id);
                    }
                }
            }
            i = i + 1;
        }
        assert(entries@.take(i as int) =~= entries@);
        ids
    }

    /// Runs one frame on the input `input`: the cursor sprites follow the
    /// mouse, the keys are dealt with, a placement is taken back if the undo
    /// key went down, a tile is placed if the input asks for one, and the
    /// map is written out if the save key went down.
    ///
    /// There has to be a placement to take back when the undo key goes down.
    pub fn update(&mut self, world: &mut World, input: &Input) -> (frame: Frame)
        requires
            old(self).wf(),
            input.undo ==> old(self).undo_stack@.len() > 0,
            world_len(*old(world)) + input.spawns() <= WORLD_CAPACITY,
        ensures
            final(self).wf(),
            frame_fits(old(self)@, scene(*old(world)), *input, frame),
            (final(self)@, scene(*final(world))) == frame_end(
                old(self)@,
                scene(*old(world)),
                *input,
                frame,
            ),
            frame.saved matches Some(text) ==> saves(text@, final(self)@.maps),
            scene(*final(world)).len <= scene(*old(world)).len + input.spawns(),
    {
        self.update_cur_tile_pos(world, input.mouse);
        self.handle_keys(input);
        let cursor = if input.ground || input.wall || input.door {
            self.despawn_cur_tile(world);
            Some(self.spawn_cur_tile(world, input.mouse))
        } else {
            None
        };
        let undone = if input.undo {
            Some(self.undo(world))
        } else {
            None
        };
        let placed = self.handle_mouse_click(world, input);
        let saved = if input.save {
            Some(self.save())
        } else {
            None
        };
        Frame { cursor, undone, placed, saved }
    }

    /// Spawns a cursor sprite for the selected tile at the pixel `mouse`.
    fn spawn_cur_tile(&self, world: &mut World, mouse: (i32, i32)) -> (id: u64)
        requires
            world_len(*old(world)) < WORLD_CAPACITY,
        ensures
            !scene(*old(world)).sprites.contains_key(id),
            scene(*final(world)) == scene(*old(world)).with(
                id,
                cursor_sprite(self.cur_tile_type, mouse),
            ),
    {
        let sprite = Sprite {
            tile: self.cur_tile_type,
            render: self.cur_tile_type.get_render(),
            x: mouse.0,
            y: mouse.1,
            layer: CURSOR_LAYER,
            cursor: Some(CurTile),
        };
        spawn_sprite(world, sprite)
    }
}

/// Whether `found` lists the tiles of layer `layer` of `maps`, as tiles of
/// that layer.
spec fn lists_layer(
    found: Seq<MapEntry>,
    maps: Seq<Map<TileIndex, Placement>>,
    layer: int,
) -> bool {
    &&& forall|i: int|
        0 <= i < found.len() ==> (#[trigger] found[i]).valid() && found[i].layer == layer
            && maps[layer].contains_key(found[i].index) && maps[layer][found[i].index].tile
            == found[i].tile
    &&& forall|i: int, j: int|
        0 <= i < j < found.len() ==> (#[trigger] found[i]).index != (#[trigger] found[j]).index
    &&& forall|index: TileIndex| #[trigger]
        maps[layer].contains_key(index) ==> exists|i: int|
            0 <= i < found.len() && found[i].index == index
}

/// Lists of the three layers, one after the other, list the map.
proof fn lemma_lists_layers(
    a: Seq<MapEntry>,
    b: Seq<MapEntry>,
    c: Seq<MapEntry>,
    maps: Seq<Map<TileIndex, Placement>>,
)
    requires
        lists_layer(a, maps, 0),
        lists_layer(b, maps, 1),
        lists_layer(c, maps, 2),
    ensures
        lists_maps(a + b + c, maps),
{
    let found = a + b + c;
    assert forall|layer: int, index: TileIndex|
        0 <= layer < LAYER_COUNT && #[trigger] maps[layer].contains_key(index) implies exists|
        i: int,
    | 0 <= i < found.len() && found[i].layer == layer && found[i].index == index by {
        if layer == 0 {
            let k = choose|k: int| 0 <= k < a.len() && a[k].index == index;
            assert(found[k] == a[k]);
        } else if layer == 1 {
            let k = choose|k: int| 0 <= k < b.len() && b[k].index == index;
            assert(found[a.len() + k] == b[k]);
        } else {
            let k = choose|k: int| 0 <= k < c.len() && c[k].index == index;
            assert(found[a.len() + b.len() + k] == c[k]);
        }
    }
    assert forall|i: int| 0 <= i < found.len() implies (#[trigger] found[i]).valid()
        && maps[found[i].layer as int].contains_key(found[i].index)
        && maps[found[i].layer as int][found[i].index].tile == found[i].tile && found[i].layer
        == (if i < a.len() {
        0int
    } else if i < a.len() + b.len() {
        1int
    } else {
        2int
    }) by {
        if i < a.len() {
            assert(found[i] == a[i]);
        } else if i < a.len() + b.len() {
            assert(found[i] == b[i - a.len()]);
        } else {
            assert(found[i] == c[i - a.len() - b.len()]);
        }
    }
    assert forall|i: int, j: int| 0 <= i < j < found.len() implies !((#[trigger] found[i]).layer
        == (#[trigger] found[j]).layer && found[i].index == found[j].index) by {
        if found[i].layer == found[j].layer {
            if i < a.len() {
                assert(found[i] == a[i] && found[j] == a[j]);
            } else if i < a.len() + b.len() {
                assert(found[i] == b[i - a.len()] && found[j] == b[j - a.len()]);
            } else {
                assert(found[i] == c[i - a.len() - b.len()] && found[j] == c[j - a.len()
                    - b.len()]);
            }
        }
    }
}

/// The text written for a list of the tiles of a map, layer by layer, is a
/// map file of that map.
proof fn lemma_saves(entries: Seq<MapEntry>, maps: Seq<Map<TileIndex, Placement>>)
    requires
        lists_maps(entries, maps),
        in_file_order(entries),
    ensures
        saves(file_text(entries), maps),
{
    lemma_read_written_in_order(entries);
    assert(file_entries(file_text(entries))->0 == entries);
}

/// Whether tile `i` of `entries` lies on layer `layer` at cell `index`.
spec fn lies_at(entries: Seq<MapEntry>, i: int, layer: int, index: TileIndex) -> bool {
    0 <= i < entries.len() && entries[i].layer == layer && entries[i].index == index
}

/// What the map holds once tiles with cells of their own were loaded: those
/// tiles, at their cells.
proof fn lemma_loaded_maps(editor: EditorView, scene: Scene, entries: Seq<MapEntry>, ids: Seq<u64>)
    requires
        entries.len() == ids.len(),
        forall|i: int| 0 <= i < entries.len() ==> (#[trigger] entries[i]).layer < LAYER_COUNT,
        forall|i: int, j: int|
            0 <= i < j < entries.len() ==> !((#[trigger] entries[i]).layer == (
            #[trigger] entries[j]).layer && entries[i].index == entries[j].index),
    ensures
        loaded(editor.cleared(), scene, entries, ids).0.maps.len() == LAYER_COUNT,
        forall|layer: int, index: TileIndex|
            0 <= layer < LAYER_COUNT ==> (#[trigger] loaded(
                editor.cleared(),
                scene,
                entries,
                ids,
            ).0.maps[layer].contains_key(index) <==> exists|i: int|
                lies_at(entries, i, layer, index)),
        forall|i: int|
            0 <= i < entries.len() ==> loaded(
                editor.cleared(),
                scene,
                entries,
                ids,
            ).0.maps[(#[trigger] entries[i]).layer as int][entries[i].index].tile
                == entries[i].tile,
    decreases entries.len(),
{
    let after = loaded(editor.cleared(), scene, entries, ids).0.maps;
    if entries.len() > 0 {
        let shorter = entries.drop_last();
        let last = entries.last();
        let n = entries.len() - 1;
        lemma_loaded_maps(editor, scene, shorter, ids.drop_last());
        let so_far = loaded(editor.cleared(), scene, shorter, ids.drop_last()).0.maps;
        assert forall|layer: int, index: TileIndex| 0 <= layer < LAYER_COUNT implies (
        #[trigger] after[layer].contains_key(index) <==> exists|i: int|
            lies_at(entries, i, layer, index)) by {
            if after[layer].contains_key(index) {
                if so_far[layer].contains_key(index) {
                    let i = choose|i: int| lies_at(shorter, i, layer, index);
                    assert(lies_at(entries, i, layer, index));
                } else {
                    assert(lies_at(entries, n, layer, index));
                }
            }
            if exists|i: int| lies_at(entries, i, layer, index) {
                let i = choose|i: int| lies_at(entries, i, layer, index);
                if i < n {
                    assert(lies_at(shorter, i, layer, index));
                }
            }
        }
        assert forall|i: int| 0 <= i < entries.len() implies after[(
        #[trigger] entries[i]).layer as int][entries[i].index].tile == entries[i].tile by {
            if i < n {
                assert(shorter[i] == entries[i]);
                assert(!(entries[i].layer == entries[n].layer && entries[i].index
                    == entries[n].index));
            }
        }
    } else {
        assert forall|layer: int, index: TileIndex| 0 <= layer < LAYER_COUNT implies (
        #[trigger] after[layer].contains_key(index) <==> exists|i: int|
            lies_at(entries, i, layer, index)) by {
            assert(!after[layer].contains_key(index));
        }
    }
}

/// Taking back a placement at a cell that was empty gives back the editor
/// and the scene as they were before the placement.
pub proof fn lemma_undo_reverts_place(
    editor: EditorView,
    scene: Scene,
    index: TileIndex,
    entity: u64,
    sprite: SpriteView,
)
    requires
        editor.maps.len() == LAYER_COUNT,
        editor.cur_layer < LAYER_COUNT,
        !editor.maps[editor.cur_layer as int].contains_key(index),
        !scene.sprites.contains_key(entity),
    ensures
        editor.placed(index, entity).undone() == editor,
        scene.with(entity, sprite).without(entity, true) == scene,
{
    let placed = editor.placed(index, entity);
    let layer = editor.cur_layer as int;
    assert(placed.stack.drop_last() =~= editor.stack);
    assert(placed.maps[layer].remove(index) =~= editor.maps[layer]);
    assert(scene.with(entity, sprite).without(entity, true).sprites =~= scene.sprites);
}

/// The cell that a pixel is snapped to holds the pixel: its edge is a
/// multiple of the tile size, not above the pixel and less than the tile
/// size below it, as long as that edge is an `i32`.
pub proof fn lemma_snap_holds_pixel(mouse: i32, size: u32)
    requires
        size > 0,
        mouse - size >= i32::MIN,
    ensures
        (spec_snap_coord(mouse, size) as int) % (size as int) == 0,
        spec_snap_coord(mouse, size) <= mouse < spec_snap_coord(mouse, size) + size,
        spec_snap_coord(spec_snap_coord(mouse, size), size) == spec_snap_coord(mouse, size),
{
    let cells = mouse as int / size as int;
    let edge = cells * size;
    vstd::arithmetic::div_mod::lemma_fundamental_div_mod(mouse as int, size as int);
    vstd::arithmetic::div_mod::lemma_mod_bound(mouse as int, size as int);
    assert(size * cells == cells * size) by (nonlinear_arith);
    lemma_fundamental_div_mod_converse(edge, size as int, cells, 0);
}

/// Loading a list of the tiles of a map, as reading its map file gives it,
/// builds a map with the same tiles at the same cells.
pub proof fn lemma_load_restores(
    editor: EditorView,
    scene: Scene,
    entries: Seq<MapEntry>,
    ids: Seq<u64>,
    maps: Seq<Map<TileIndex, Placement>>,
)
    requires
        entries.len() == ids.len(),
        lists_maps(entries, maps),
    ensures
        same_tiles(loaded(editor.cleared(), scene, entries, ids).0.maps, maps),
{
    let after = loaded(editor.cleared(), scene, entries, ids).0.maps;
    lemma_loaded_maps(editor, scene, entries, ids);
    assert forall|layer: int, index: TileIndex| 0 <= layer < LAYER_COUNT implies (
    after[layer].contains_key(index) <==> maps[layer].contains_key(index)) && (
    maps[layer].contains_key(index) ==> after[layer][index].tile == maps[layer][index].tile) by {
        if after[layer].contains_key(index) {
            let i = choose|i: int| lies_at(entries, i, layer, index);
            assert(entries[i].valid());
        }
        if maps[layer].contains_key(index) {
            let i = choose|i: int|
                0 <= i < entries.len() && entries[i].layer == layer && entries[i].index
                    == index;
            assert(lies_at(entries, i, layer, index));
            assert(entries[i].valid());
        }
    }
}

/// Loading tiles takes no sprite away.
proof fn lemma_loaded_keeps(
    editor: EditorView,
    scene: Scene,
    entries: Seq<MapEntry>,
    ids: Seq<u64>,
    id: u64,
)
    requires
        entries.len() == ids.len(),
        scene.sprites.contains_key(id),
    ensures
        loaded(editor, scene, entries, ids).1.sprites.contains_key(id),
    decreases entries.len(),
{
    if entries.len() > 0 {
        lemma_loaded_keeps(editor, scene, entries.drop_last(), ids.drop_last(), id);
    }
}

} // verus!
