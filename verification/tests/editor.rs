use hecs::{Entity, World};
use tile_editor::editor::{
    snap, CurTile, Editor, EditorMode, Input, PlaceCommand, CURSOR_LAYER, LAYER_COUNT,
};
use tile_editor::map_file::{parse_map, MapEntry};
use tile_editor::rendering::Render;
use tile_editor::tile::TileType;
use tile_editor::tile_map::{Placement, TileIndex, TileMap, GRID_MAX};
use tile_editor::world::Sprite;

fn idle(mouse: (i32, i32)) -> Input {
    Input {
        mouse,
        click: false,
        hold: false,
        insert: false,
        delete: false,
        ground: false,
        wall: false,
        door: false,
        layer1: false,
        layer2: false,
        undo: false,
        save: false,
    }
}

fn click(mouse: (i32, i32)) -> Input {
    Input { click: true, ..idle(mouse) }
}

fn entity(id: u64) -> Entity {
    Entity::from_bits(id).unwrap()
}

fn summary(world: &World, id: u64) -> (TileType, i32, i32, usize, bool) {
    let sprite = world.get::<&Sprite>(entity(id)).unwrap();
    (sprite.tile, sprite.x, sprite.y, sprite.layer, sprite.cursor.is_some())
}

fn cursors(world: &World) -> Vec<(TileType, i32, i32, usize)> {
    let mut found = Vec::new();
    for sprite in world.query::<&Sprite>().iter() {
        if sprite.cursor.is_some() {
            found.push((sprite.tile, sprite.x, sprite.y, sprite.layer));
        }
    }
    found
}

fn tiles(world: &World) -> Vec<(TileType, i32, i32, usize)> {
    let mut found = Vec::new();
    for sprite in world.query::<&Sprite>().iter() {
        if sprite.cursor.is_none() {
            found.push((sprite.tile, sprite.x, sprite.y, sprite.layer));
        }
    }
    found.sort_by_key(|t| (t.3, t.1, t.2, t.0.id()));
    found
}

#[test]
fn snap_rounds_down_to_the_cell() {
    assert_eq!(snap((0, 0), (40, 40)), (0, 0));
    assert_eq!(snap((39, 40), (40, 40)), (0, 40));
    assert_eq!(snap((45, 85), (40, 40)), (40, 80));
    assert_eq!(snap((45, 85), (20, 40)), (40, 80));
    assert_eq!(snap((13, 13), (5, 5)), (10, 10));
    assert_eq!(snap((13, 13), (1, 5)), (13, 10));
    assert_eq!(snap((i32::MAX, i32::MAX), (40, 1)), (2147483640, i32::MAX));
}

#[test]
fn snap_rounds_negative_pixels_down() {
    assert_eq!(snap((-1, -40), (40, 40)), (-40, -40));
    assert_eq!(snap((-41, -39), (40, 40)), (-80, -40));
    assert_eq!(snap((-3, -5), (1, 5)), (-3, -5));
    assert_eq!(snap((i32::MIN, i32::MIN), (1, 40)), (i32::MIN, i32::MIN));
    assert_eq!(snap((i32::MIN + 8, 0), (40, 40)), (-2147483640, 0));
    assert_eq!(snap((-5, 5), (u32::MAX, u32::MAX)), (i32::MIN, 0));
}

#[test]
fn new_editor_is_empty() {
    let editor = Editor::new();
    assert_eq!(editor.mode, EditorMode::Insert);
    assert_eq!(editor.cur_tile_type, TileType::Ground);
    assert_eq!(editor.cur_layer, 0);
    assert_eq!(editor.tile_map.len(), LAYER_COUNT);
    for map in editor.tile_map.iter() {
        assert_eq!(map.entries(), vec![]);
    }
    assert_eq!(editor.undo_stack, vec![]);
    assert_eq!(editor.entries(), vec![]);
    assert_eq!(editor.save(), b"\n\n\n".to_vec());
}

#[test]
fn start_spawns_the_cursor_sprite() {
    let mut world = World::new();
    let editor = Editor::new();
    let id = editor.start(&mut world, (123, -4));
    assert_eq!(world.len(), 1);
    assert_eq!(summary(&world, id), (TileType::Ground, 123, -4, CURSOR_LAYER, true));
    assert_eq!(world.get::<&Sprite>(entity(id)).unwrap().cursor, Some(CurTile));
    assert!(matches!(world.get::<&Sprite>(entity(id)).unwrap().render, Render::Texture(0)));
}

#[test]
fn cursor_follows_the_mouse() {
    let mut world = World::new();
    let mut editor = Editor::new();
    let id = editor.start(&mut world, (0, 0));
    let tile = world.spawn((Sprite {
        tile: TileType::Wall,
        render: TileType::Wall.get_render(),
        x: 7,
        y: 9,
        layer: 0,
        cursor: None,
    },));
    editor.update_cur_tile_pos(&mut world, (45, 85));
    assert_eq!(summary(&world, id), (TileType::Ground, 40, 80, CURSOR_LAYER, true));
    assert_eq!(
        summary(&world, tile.to_bits().get()),
        (TileType::Wall, 7, 9, 0, false)
    );
    let frame = editor.update(&mut world, &idle((-1, 3)));
    assert_eq!(summary(&world, id), (TileType::Ground, -40, 0, CURSOR_LAYER, true));
    assert_eq!(frame.cursor, None);
    assert_eq!(frame.placed, None);
    assert_eq!(frame.undone, None);
    assert_eq!(frame.saved, None);
    assert_eq!(world.len(), 2);
}

#[test]
fn mode_keys_switch_the_mode() {
    let mut world = World::new();
    let mut editor = Editor::new();
    editor.update(&mut world, &Input { delete: true, ..idle((0, 0)) });
    assert_eq!(editor.mode, EditorMode::Delete);
    editor.update(&mut world, &idle((0, 0)));
    assert_eq!(editor.mode, EditorMode::Delete);
    editor.update(&mut world, &Input { insert: true, delete: true, ..idle((0, 0)) });
    assert_eq!(editor.mode, EditorMode::Insert);
    editor.handle_keys(&Input { delete: true, ..idle((0, 0)) });
    assert_eq!(editor.mode, EditorMode::Delete);
}

#[test]
fn layer_keys_switch_the_layer() {
    let mut world = World::new();
    let mut editor = Editor::new();
    editor.update(&mut world, &Input { layer2: true, ..idle((0, 0)) });
    assert_eq!(editor.cur_layer, 1);
    editor.update(&mut world, &idle((0, 0)));
    assert_eq!(editor.cur_layer, 1);
    editor.update(&mut world, &Input { layer1: true, layer2: true, ..idle((0, 0)) });
    assert_eq!(editor.cur_layer, 0);
}

#[test]
fn wall_key_steps_through_the_walls() {
    let mut world = World::new();
    let mut editor = Editor::new();
    let wall = Input { wall: true, ..idle((0, 0)) };
    editor.update(&mut world, &wall);
    assert_eq!(editor.cur_tile_type, TileType::Wall);
    editor.update(&mut world, &wall);
    assert_eq!(editor.cur_tile_type, TileType::SideWall);
    editor.update(&mut world, &wall);
    assert_eq!(editor.cur_tile_type, TileType::GatewayWall);
    editor.update(&mut world, &wall);
    assert_eq!(editor.cur_tile_type, TileType::Wall);
    editor.update(&mut world, &Input { ground: true, wall: true, ..idle((0, 0)) });
    assert_eq!(editor.cur_tile_type, TileType::Ground);
}

#[test]
fn door_key_steps_through_the_doors() {
    let mut world = World::new();
    let mut editor = Editor::new();
    let door = Input { door: true, ..idle((0, 0)) };
    editor.update(&mut world, &door);
    assert_eq!(editor.cur_tile_type, TileType::Door);
    editor.update(&mut world, &door);
    assert_eq!(editor.cur_tile_type, TileType::SideDoor);
    editor.update(&mut world, &door);
    assert_eq!(editor.cur_tile_type, TileType::Door);
    editor.update(&mut world, &Input { wall: true, door: true, ..idle((0, 0)) });
    assert_eq!(editor.cur_tile_type, TileType::Door);
    editor.update(&mut world, &Input { ground: true, ..idle((0, 0)) });
    assert_eq!(editor.cur_tile_type, TileType::Ground);
}

#[test]
fn selecting_a_tile_replaces_the_cursor_sprite() {
    let mut world = World::new();
    let mut editor = Editor::new();
    let first = editor.start(&mut world, (0, 0));
    let frame = editor.update(&mut world, &Input { door: true, ..idle((45, 85)) });
    let id = frame.cursor.unwrap();
    assert!(!world.contains(entity(first)));
    assert_eq!(cursors(&world), vec![(TileType::Door, 45, 85, CURSOR_LAYER)]);
    assert_eq!(summary(&world, id), (TileType::Door, 45, 85, CURSOR_LAYER, true));
    assert!(matches!(
        world.get::<&Sprite>(entity(id)).unwrap().render,
        Render::Animation(..)
    ));
    assert_eq!(world.len(), 1);
}

#[test]
fn despawn_cur_tile_takes_only_cursors() {
    let mut world = World::new();
    let mut editor = Editor::new();
    editor.start(&mut world, (0, 0));
    editor.start(&mut world, (5, 5));
    let placed = editor.handle_mouse_click(&mut world, &click((0, 0))).unwrap();
    let other = world.spawn((1u8,));
    editor.despawn_cur_tile(&mut world);
    assert_eq!(cursors(&world), vec![]);
    assert!(world.contains(entity(placed)));
    assert!(world.contains(other));
    assert_eq!(world.len(), 2);
}

#[test]
fn click_places_the_selected_tile() {
    let mut world = World::new();
    let mut editor = Editor::new();
    let frame = editor.update(&mut world, &click((45, 85)));
    let id = frame.placed.unwrap();
    assert_eq!(summary(&world, id), (TileType::Ground, 40, 80, 0, false));
    assert_eq!(
        editor.tile_map[0].get(TileIndex((40, 80))),
        Some(Placement { tile: TileType::Ground, entity: id })
    );
    assert_eq!(
        editor.undo_stack,
        vec![PlaceCommand {
            layer: 0,
            index: TileIndex((40, 80)),
            tile: TileType::Ground,
            entity: id
        }]
    );
    assert_eq!(editor.tile_map[1].entries(), vec![]);
    assert_eq!(world.len(), 1);
}

#[test]
fn tile_is_placed_on_the_selected_layer_with_the_selected_size() {
    let mut world = World::new();
    let mut editor = Editor::new();
    let input = Input { wall: true, layer2: true, ..click((45, 85)) };
    let frame = editor.update(&mut world, &input);
    let id = frame.placed.unwrap();
    assert_eq!(summary(&world, id), (TileType::Wall, 40, 80, 1, false));
    assert_eq!(
        editor.tile_map[1].get(TileIndex((40, 80))),
        Some(Placement { tile: TileType::Wall, entity: id })
    );
    assert_eq!(editor.tile_map[0].get(TileIndex((40, 80))), None);
    let frame = editor.update(&mut world, &click((65, 85)));
    assert_eq!(
        summary(&world, frame.placed.unwrap()),
        (TileType::Wall, 60, 80, 1, false)
    );
}

#[test]
fn held_key_places_once_per_cell() {
    let mut world = World::new();
    let mut editor = Editor::new();
    let hold = |mouse| Input { hold: true, ..idle(mouse) };
    assert!(editor.update(&mut world, &hold((5, 5))).placed.is_some());
    assert!(editor.update(&mut world, &hold((6, 7))).placed.is_none());
    assert!(editor.update(&mut world, &hold((39, 39))).placed.is_none());
    assert!(editor.update(&mut world, &hold((40, 39))).placed.is_some());
    assert!(editor.update(&mut world, &hold((41, 0))).placed.is_none());
    assert_eq!(editor.undo_stack.len(), 2);
    assert_eq!(
        tiles(&world),
        vec![(TileType::Ground, 0, 0, 0), (TileType::Ground, 40, 0, 0)]
    );
}

#[test]
fn repeat_is_judged_by_layer_cell_and_kind() {
    let mut world = World::new();
    let mut editor = Editor::new();
    assert!(editor.update(&mut world, &click((0, 0))).placed.is_some());
    assert!(editor.update(&mut world, &click((0, 0))).placed.is_none());
    assert!(editor
        .update(&mut world, &Input { layer2: true, ..click((0, 0)) })
        .placed
        .is_some());
    assert!(editor
        .update(&mut world, &Input { door: true, ..click((0, 0)) })
        .placed
        .is_some());
    assert!(editor.update(&mut world, &click((0, 0))).placed.is_none());
    assert!(editor.update(&mut world, &click((40, 0))).placed.is_some());
    assert!(editor.update(&mut world, &click((0, 0))).placed.is_some());
    assert_eq!(editor.undo_stack.len(), 5);
}

#[test]
fn placing_again_keeps_the_old_sprite_and_replaces_the_record() {
    let mut world = World::new();
    let mut editor = Editor::new();
    let first = editor.update(&mut world, &click((0, 0))).placed.unwrap();
    editor.update(&mut world, &click((40, 0)));
    let second = editor.update(&mut world, &click((0, 0))).placed.unwrap();
    assert_ne!(first, second);
    assert!(world.contains(entity(first)));
    assert_eq!(
        editor.tile_map[0].get(TileIndex((0, 0))),
        Some(Placement { tile: TileType::Ground, entity: second })
    );
    assert_eq!(world.len(), 3);
}

#[test]
fn delete_mode_places_nothing() {
    let mut world = World::new();
    let mut editor = Editor::new();
    let frame = editor.update(&mut world, &Input { delete: true, ..click((0, 0)) });
    assert_eq!(frame.placed, None);
    assert_eq!(editor.update(&mut world, &click((0, 0))).placed, None);
    assert_eq!(world.len(), 0);
    assert_eq!(editor.undo_stack, vec![]);
    assert_eq!(editor.entries(), vec![]);
}

#[test]
fn clicks_outside_the_grid_place_nothing() {
    let mut world = World::new();
    let mut editor = Editor::new();
    assert_eq!(editor.update(&mut world, &click((-1, 0))).placed, None);
    assert_eq!(editor.update(&mut world, &click((0, -1))).placed, None);
    assert_eq!(editor.update(&mut world, &click((10_000, 0))).placed, None);
    assert_eq!(editor.update(&mut world, &click((0, 10_000))).placed, None);
    assert_eq!(editor.update(&mut world, &click((i32::MIN, i32::MAX))).placed, None);
    assert_eq!(world.len(), 0);
    let frame = editor.update(&mut world, &click((9_999, 9_999)));
    assert_eq!(
        summary(&world, frame.placed.unwrap()),
        (TileType::Ground, 9_960, 9_960, 0, false)
    );
    editor.update(&mut world, &Input { door: true, ..idle((0, 0)) });
    let frame = editor.update(&mut world, &Input { door: true, ..click((9_999, 9_999)) });
    assert_eq!(editor.cur_tile_type, TileType::SideDoor);
    assert_eq!(GRID_MAX, 9_999);
    assert_eq!(
        editor.tile_map[0].get(TileIndex((9_999, 9_995))),
        Some(Placement { tile: TileType::SideDoor, entity: frame.placed.unwrap() })
    );
}

#[test]
fn undo_takes_back_the_last_placement() {
    let mut world = World::new();
    let mut editor = Editor::new();
    let first = editor.update(&mut world, &click((0, 0))).placed.unwrap();
    let second = editor.update(&mut world, &click((40, 0))).placed.unwrap();
    let frame = editor.update(&mut world, &Input { undo: true, ..idle((0, 0)) });
    assert_eq!(frame.undone, Some(true));
    assert!(!world.contains(entity(second)));
    assert!(world.contains(entity(first)));
    assert_eq!(editor.tile_map[0].get(TileIndex((40, 0))), None);
    assert_eq!(editor.undo_stack.len(), 1);
    assert!(editor.undo(&mut world));
    assert!(!world.contains(entity(first)));
    assert_eq!(editor.entries(), vec![]);
    assert_eq!(editor.undo_stack, vec![]);
    assert_eq!(world.len(), 0);
}

#[test]
fn undo_leaves_a_later_record_of_the_cell() {
    let mut world = World::new();
    let mut editor = Editor::new();
    let first = editor.update(&mut world, &click((0, 0))).placed.unwrap();
    editor.update(&mut world, &click((40, 0)));
    let third = editor.update(&mut world, &click((0, 0))).placed.unwrap();
    editor.undo_stack.swap(0, 2);
    assert!(editor.undo(&mut world));
    assert!(!world.contains(entity(first)));
    assert_eq!(
        editor.tile_map[0].get(TileIndex((0, 0))),
        Some(Placement { tile: TileType::Ground, entity: third })
    );
}

#[test]
fn undo_of_a_vanished_entity_reports_it() {
    let mut world = World::new();
    let mut editor = Editor::new();
    let id = editor.update(&mut world, &click((0, 0))).placed.unwrap();
    world.despawn(entity(id)).unwrap();
    assert!(!editor.undo(&mut world));
    assert_eq!(editor.tile_map[0].get(TileIndex((0, 0))), None);
    editor.undo_stack.push(PlaceCommand {
        layer: 2,
        index: TileIndex((1, 1)),
        tile: TileType::Wall,
        entity: 3,
    });
    assert!(!editor.undo(&mut world));
    assert_eq!(world.len(), 0);
}

#[test]
fn undo_comes_before_the_click_of_the_same_frame() {
    let mut world = World::new();
    let mut editor = Editor::new();
    let first = editor.update(&mut world, &click((0, 0))).placed.unwrap();
    let frame = editor.update(&mut world, &Input { undo: true, ..click((0, 0)) });
    assert_eq!(frame.undone, Some(true));
    let second = frame.placed.unwrap();
    assert!(!world.contains(entity(first)));
    assert_eq!(
        editor.tile_map[0].get(TileIndex((0, 0))),
        Some(Placement { tile: TileType::Ground, entity: second })
    );
    assert_eq!(editor.undo_stack.len(), 1);
    assert_eq!(world.len(), 1);
}

#[test]
fn save_writes_every_layer() {
    let mut world = World::new();
    let mut editor = Editor::new();
    editor.update(&mut world, &click((45, 85)));
    editor.update(&mut world, &Input { wall: true, layer2: true, ..click((25, 0)) });
    let frame = editor.update(&mut world, &Input { save: true, ..idle((0, 0)) });
    assert_eq!(frame.saved, Some(b"0:00400080\n1:00200000\n\n".to_vec()));
    assert_eq!(editor.save(), b"0:00400080\n1:00200000\n\n".to_vec());
}

#[test]
fn saved_map_reads_back_as_the_tiles_of_the_map() {
    let mut world = World::new();
    let mut editor = Editor::new();
    let spots = [(0, 0), (40, 0), (80, 120), (0, 40), (4000, 9000)];
    for spot in spots.iter() {
        editor.update(&mut world, &click(*spot));
    }
    editor.update(&mut world, &Input { door: true, layer2: true, ..click((40, 0)) });
    let mut read = parse_map(&editor.save()).unwrap();
    let mut listed = editor.entries();
    let key = |e: &MapEntry| (e.layer, e.index.0 .0, e.index.0 .1);
    read.sort_by_key(key);
    listed.sort_by_key(key);
    assert_eq!(read, listed);
    assert_eq!(
        read,
        vec![
            MapEntry { layer: 0, tile: TileType::Ground, index: TileIndex((0, 0)) },
            MapEntry { layer: 0, tile: TileType::Ground, index: TileIndex((0, 40)) },
            MapEntry { layer: 0, tile: TileType::Ground, index: TileIndex((40, 0)) },
            MapEntry { layer: 0, tile: TileType::Ground, index: TileIndex((80, 120)) },
            MapEntry { layer: 0, tile: TileType::Ground, index: TileIndex((4000, 9000)) },
            MapEntry { layer: 1, tile: TileType::Door, index: TileIndex((40, 0)) },
        ]
    );
}

#[test]
fn load_replaces_the_map() {
    let mut world = World::new();
    let mut editor = Editor::new();
    let cursor = editor.start(&mut world, (3, 4));
    let old = editor.update(&mut world, &click((0, 0))).placed.unwrap();
    let other = world.spawn((1u8,));
    let entries = parse_map(b"0:00400080 1:00200040\n\n4:00000000\n").unwrap();
    let ids = editor.load(&mut world, &entries);
    assert_eq!(ids.len(), 3);
    assert!(!world.contains(entity(old)));
    assert!(world.contains(other));
    assert_eq!(summary(&world, cursor), (TileType::Ground, 0, 0, CURSOR_LAYER, true));
    assert_eq!(summary(&world, ids[0]), (TileType::Ground, 40, 80, 0, false));
    assert_eq!(summary(&world, ids[1]), (TileType::Wall, 20, 40, 0, false));
    assert_eq!(summary(&world, ids[2]), (TileType::Door, 0, 0, 2, false));
    assert_eq!(world.len(), 5);
    assert_eq!(editor.undo_stack, vec![]);
    assert_eq!(editor.tile_map[0].get(TileIndex((0, 0))), None);
    assert_eq!(
        editor.tile_map[0].get(TileIndex((40, 80))),
        Some(Placement { tile: TileType::Ground, entity: ids[0] })
    );
    assert_eq!(
        editor.tile_map[0].get(TileIndex((20, 40))),
        Some(Placement { tile: TileType::Wall, entity: ids[1] })
    );
    assert_eq!(
        editor.tile_map[2].get(TileIndex((0, 0))),
        Some(Placement { tile: TileType::Door, entity: ids[2] })
    );
    assert_eq!(editor.tile_map[1].entries(), vec![]);
    assert_eq!(editor.mode, EditorMode::Insert);
    assert_eq!(editor.cur_tile_type, TileType::Ground);
}

#[test]
fn load_keeps_the_last_of_two_tiles_at_one_cell() {
    let mut world = World::new();
    let mut editor = Editor::new();
    let entries = parse_map(b"0:00000000 1:00000000").unwrap();
    let ids = editor.load(&mut world, &entries);
    assert_eq!(
        editor.tile_map[0].get(TileIndex((0, 0))),
        Some(Placement { tile: TileType::Wall, entity: ids[1] })
    );
    assert_eq!(
        tiles(&world),
        vec![(TileType::Ground, 0, 0, 0), (TileType::Wall, 0, 0, 0)]
    );
}

#[test]
fn saved_map_loads_into_the_same_tiles() {
    let mut world = World::new();
    let mut editor = Editor::new();
    for spot in [(0, 0), (40, 0), (80, 120)].iter() {
        editor.update(&mut world, &click(*spot));
    }
    editor.update(&mut world, &Input { door: true, layer2: true, ..click((40, 0)) });
    let before = tiles(&world);
    let text = editor.save();
    let mut second_world = World::new();
    let mut second = Editor::new();
    second.load(&mut second_world, &parse_map(&text).unwrap());
    assert_eq!(tiles(&second_world), before);
    let key = |e: &MapEntry| (e.layer, e.index.0 .0, e.index.0 .1);
    let mut a = editor.entries();
    let mut b = second.entries();
    a.sort_by_key(key);
    b.sort_by_key(key);
    assert_eq!(a, b);
}

#[test]
fn tile_map_keeps_tiles_by_cell() {
    let mut map = TileMap::new();
    let ground = Placement { tile: TileType::Ground, entity: 7 };
    let wall = Placement { tile: TileType::Wall, entity: 8 };
    assert_eq!(map.get(TileIndex((0, 0))), None);
    assert!(map.insert(TileIndex((0, 0)), ground));
    assert!(map.insert(TileIndex((9_999, 9_999)), wall));
    assert!(map.insert(TileIndex((1, 0)), wall));
    assert!(map.insert(TileIndex((0, 10_000 - 1)), ground));
    assert_eq!(map.get(TileIndex((0, 0))), Some(ground));
    assert_eq!(map.get(TileIndex((9_999, 9_999))), Some(wall));
    assert_eq!(map.get(TileIndex((1, 0))), Some(wall));
    assert_eq!(map.get(TileIndex((0, 9_999))), Some(ground));
    assert_eq!(map.get(TileIndex((0, 1))), None);
    assert!(map.insert(TileIndex((0, 0)), wall));
    assert_eq!(map.get(TileIndex((0, 0))), Some(wall));
    let mut listed = map.entries();
    listed.sort_by_key(|e| (e.0 .0 .0, e.0 .0 .1));
    assert_eq!(
        listed,
        vec![
            (TileIndex((0, 0)), wall),
            (TileIndex((0, 9_999)), ground),
            (TileIndex((1, 0)), wall),
            (TileIndex((9_999, 9_999)), wall),
        ]
    );
    assert_eq!(map.remove(TileIndex((1, 0))), Some(wall));
    assert_eq!(map.remove(TileIndex((1, 0))), None);
    assert_eq!(map.get(TileIndex((1, 0))), None);
    map.clear();
    assert_eq!(map.entries(), vec![]);
}

#[test]
fn tile_map_keeps_every_kind() {
    let mut map = TileMap::new();
    let shadow = Placement { tile: TileType::Shadow, entity: 7 };
    assert!(map.insert(TileIndex((0, 0)), shadow));
    assert_eq!(map.get(TileIndex((0, 0))), Some(shadow));
    assert_eq!(map.entries(), vec![(TileIndex((0, 0)), shadow)]);
}

#[test]
fn shadow_tiles_are_placed_saved_and_loaded() {
    let mut world = World::new();
    let mut editor = Editor::new();
    editor.cur_tile_type = TileType::Shadow;
    let cursor = editor.start(&mut world, (7, 9));
    assert_eq!(summary(&world, cursor), (TileType::Shadow, 7, 9, CURSOR_LAYER, true));
    let placed = editor.update(&mut world, &click((45, 85))).placed.unwrap();
    assert_eq!(summary(&world, placed), (TileType::Shadow, 40, 80, 0, false));
    assert!(matches!(world.get::<&Sprite>(entity(placed)).unwrap().render, Render::Texture(6)));
    assert_eq!(summary(&world, cursor), (TileType::Shadow, 40, 80, CURSOR_LAYER, true));
    let text = editor.save();
    assert_eq!(text, b"6:00400080\n\n\n".to_vec());
    let mut second_world = World::new();
    let mut second = Editor::new();
    let ids = second.load(&mut second_world, &parse_map(&text).unwrap());
    assert_eq!(summary(&second_world, ids[0]), (TileType::Shadow, 40, 80, 0, false));
    assert_eq!(
        second.tile_map[0].get(TileIndex((40, 80))),
        Some(Placement { tile: TileType::Shadow, entity: ids[0] })
    );
}

#[test]
fn tile_map_refuses_what_a_map_file_cannot_hold() {
    let mut map = TileMap::new();
    let ground = Placement { tile: TileType::Ground, entity: 7 };
    assert!(!map.insert(TileIndex((10_000, 0)), ground));
    assert!(!map.insert(TileIndex((0, 10_000)), ground));
    assert!(!map.insert(TileIndex((u32::MAX, u32::MAX)), ground));
    assert_eq!(map.entries(), vec![]);
    assert_eq!(map.get(TileIndex((10_000, 0))), None);
    assert_eq!(map.remove(TileIndex((0, 10_000))), None);
    assert!(TileIndex((9_999, 0)).in_grid());
    assert!(!TileIndex((0, 10_000)).in_grid());
}
