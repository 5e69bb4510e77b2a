use tile_editor::animation::{Animation, Rect};
use tile_editor::assets::TextureId;
use tile_editor::rendering::Render;
use tile_editor::tile::{
    build_door_animation, build_sidedoor_animation, TileType, DOOR_DURATION, DOOR_FRAMES,
    TILE_TYPE_COUNT,
};

const ALL: [TileType; 7] = [
    TileType::Ground,
    TileType::Wall,
    TileType::SideWall,
    TileType::GatewayWall,
    TileType::Door,
    TileType::SideDoor,
    TileType::Shadow,
];

#[test]
fn from_u32_gives_each_kind() {
    assert_eq!(TileType::from_u32(0), TileType::Ground);
    assert_eq!(TileType::from_u32(1), TileType::Wall);
    assert_eq!(TileType::from_u32(2), TileType::SideWall);
    assert_eq!(TileType::from_u32(3), TileType::GatewayWall);
    assert_eq!(TileType::from_u32(4), TileType::Door);
    assert_eq!(TileType::from_u32(5), TileType::SideDoor);
    assert_eq!(TileType::from_u32(6), TileType::Shadow);
}

#[test]
fn id_and_from_u32_are_inverse() {
    assert_eq!(TILE_TYPE_COUNT, 7);
    for (n, tile) in ALL.iter().enumerate() {
        assert_eq!(tile.id(), n as u32);
        assert_eq!(TileType::from_u32(tile.id()), *tile);
    }
}

#[test]
fn every_kind_has_a_size_and_a_render() {
    for tile in ALL.iter() {
        let (w, h) = tile.size();
        assert!(w > 0 && h > 0);
        match tile.get_render() {
            Render::Texture(id) => assert_eq!(id, tile.id()),
            Render::Animation(_, anim_src) => assert_eq!(anim_src.texture_id, tile.id()),
        }
    }
}

#[test]
fn sizes_are_fixed() {
    assert_eq!(TileType::Ground.size(), (40, 40));
    assert_eq!(TileType::Wall.size(), (20, 40));
    assert_eq!(TileType::SideWall.size(), (5, 5));
    assert_eq!(TileType::GatewayWall.size(), (5, 5));
    assert_eq!(TileType::Door.size(), (40, 40));
    assert_eq!(TileType::SideDoor.size(), (1, 5));
    assert_eq!(TileType::Shadow.size(), (40, 40));
}

#[test]
fn static_tiles_render_their_texture() {
    let cases = [
        (TileType::Ground, TextureId::Ground),
        (TileType::Wall, TextureId::Wall),
        (TileType::SideWall, TextureId::SideWall),
        (TileType::GatewayWall, TextureId::GatewayWall),
        (TileType::Shadow, TextureId::Shadow),
    ];
    for (tile, texture) in cases.iter() {
        match tile.get_render() {
            Render::Texture(id) => assert_eq!(id, texture.id()),
            Render::Animation(..) => panic!("expected a texture"),
        }
    }
}

#[test]
fn shadow_renders_its_texture() {
    assert!(matches!(TileType::Shadow.get_render(), Render::Texture(6)));
}

#[test]
fn door_renders_its_animation() {
    match TileType::Door.get_render() {
        Render::Animation(anim, anim_src) => {
            assert_eq!(anim, Animation::new(800_000, 4));
            assert_eq!(anim_src.texture_id, 4);
            assert_eq!(anim_src.frames.len(), 4);
            for i in 0..4u32 {
                assert_eq!(
                    anim_src.get_frame(&i),
                    Some(&Rect { x: i * 40, y: 0, w: 40, h: 40 })
                );
            }
            assert_eq!(anim_src.get_frame(&4), None);
        }
        Render::Texture(_) => panic!("expected an animation"),
    }
}

#[test]
fn side_door_renders_its_animation() {
    match TileType::SideDoor.get_render() {
        Render::Animation(anim, anim_src) => {
            assert_eq!(anim, Animation::new(800_000, 4));
            assert_eq!(anim_src.texture_id, 5);
            assert_eq!(anim_src.frames.len(), 4);
            for i in 0..4u32 {
                assert_eq!(
                    anim_src.get_frame(&i),
                    Some(&Rect { x: i * 40, y: 0, w: 40, h: 59 })
                );
            }
        }
        Render::Texture(_) => panic!("expected an animation"),
    }
}

#[test]
fn door_animations_are_stopped_at_the_start() {
    assert_eq!(DOOR_FRAMES, 4);
    assert_eq!(DOOR_DURATION, 800_000);
    let (door_src, door) = build_door_animation();
    let (side_src, side) = build_sidedoor_animation();
    for anim in [door, side].iter() {
        assert_eq!(anim.duration, 800_000);
        assert_eq!(anim.frames, 4);
        assert_eq!(anim.time_elapsed, 0);
        assert!(!anim.is_playing);
        assert!(!anim.run_forever);
    }
    assert_eq!(door_src.texture_id, TextureId::Door.id());
    assert_eq!(side_src.texture_id, TextureId::SideDoor.id());
    assert_eq!(door_src.get_frame(&3), Some(&Rect { x: 120, y: 0, w: 40, h: 40 }));
    assert_eq!(side_src.get_frame(&3), Some(&Rect { x: 120, y: 0, w: 40, h: 59 }));
}

#[test]
fn texture_entries_name_id_and_path() {
    assert_eq!(TextureId::Ground.entry(), (0, "assets/textures/tiles/ground.png"));
    assert_eq!(TextureId::Wall.entry(), (1, "assets/textures/tiles/wall.png"));
    assert_eq!(TextureId::SideWall.entry(), (2, "assets/textures/tiles/side_wall.png"));
    assert_eq!(
        TextureId::GatewayWall.entry(),
        (3, "assets/textures/tiles/gateway_wall.png")
    );
    assert_eq!(TextureId::Door.entry(), (4, "assets/textures/tiles/door.png"));
    assert_eq!(TextureId::SideDoor.entry(), (5, "assets/textures/tiles/side_door.png"));
    assert_eq!(TextureId::Shadow.entry(), (6, "assets/textures/tiles/shadow.png"));
}

#[test]
fn texture_ids_match_tile_ids() {
    assert_eq!(TextureId::Ground.id(), TileType::Ground.id());
    assert_eq!(TextureId::Door.id(), TileType::Door.id());
    assert_eq!(TextureId::Shadow.id(), TileType::Shadow.id());
}
