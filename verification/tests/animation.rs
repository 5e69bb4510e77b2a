use tile_editor::animation::{Animation, AnimationSource, Rect};
use tile_editor::rendering::{DrawCommand, Render};

fn playing(duration: u64, frames: u32, time_elapsed: u64, run_forever: bool) -> Animation {
    Animation { duration, frames, time_elapsed, is_playing: true, run_forever }
}

#[test]
fn new_animation_is_stopped_at_zero() {
    let anim = Animation::new(800_000, 4);
    assert_eq!(
        anim,
        Animation {
            duration: 800_000,
            frames: 4,
            time_elapsed: 0,
            is_playing: false,
            run_forever: false
        }
    );
}

#[test]
fn stopped_animation_does_not_move() {
    let mut anim = Animation::new(800_000, 4);
    anim.update(100_000);
    assert_eq!(anim, Animation::new(800_000, 4));
}

#[test]
fn playing_animation_moves_on() {
    let mut anim = Animation::new(800_000, 4);
    anim.play();
    assert!(anim.is_playing);
    anim.update(100_000);
    assert_eq!(anim.time_elapsed, 100_000);
    anim.update(250_000);
    assert_eq!(anim.time_elapsed, 350_000);
    assert!(anim.is_playing);
}

#[test]
fn animation_stops_at_its_end() {
    let mut anim = playing(800_000, 4, 700_000, false);
    anim.update(150_000);
    assert_eq!(anim.time_elapsed, 850_000);
    assert!(!anim.is_playing);
    anim.update(150_000);
    assert_eq!(anim.time_elapsed, 850_000);
}

#[test]
fn animation_stops_exactly_at_duration() {
    let mut anim = playing(800_000, 4, 700_000, false);
    anim.update(100_000);
    assert_eq!(anim.time_elapsed, 800_000);
    assert!(!anim.is_playing);
}

#[test]
fn looping_animation_wraps_round() {
    let mut anim = playing(800_000, 4, 700_000, true);
    anim.update(300_000);
    assert_eq!(anim.time_elapsed, 200_000);
    assert!(anim.is_playing);
    assert!(anim.run_forever);
}

#[test]
fn looping_animation_wraps_modulo_duration() {
    let mut anim = playing(800_000, 4, 700_000, true);
    anim.update(2_000_000);
    assert_eq!(anim.time_elapsed, 300_000);
    let mut at_end = playing(800_000, 4, 0, true);
    at_end.update(800_000);
    assert_eq!(at_end.time_elapsed, 0);
}

#[test]
fn position_saturates() {
    let mut anim = playing(u64::MAX, 4, u64::MAX - 5, false);
    anim.update(10);
    assert_eq!(anim.time_elapsed, u64::MAX);
    assert!(!anim.is_playing);
    let mut looping = playing(u64::MAX, 4, u64::MAX - 5, true);
    looping.update(10);
    assert_eq!(looping.time_elapsed, 5);
    assert!(looping.is_playing);
}

#[test]
fn zero_duration_animation() {
    let mut once = playing(0, 4, 0, false);
    once.update(7);
    assert_eq!(once.time_elapsed, 7);
    assert!(!once.is_playing);
    let mut looping = playing(0, 4, 3, true);
    looping.update(7);
    assert_eq!(looping.time_elapsed, 10);
    assert!(looping.is_playing);
    assert_eq!(playing(0, 4, 0, false).current_frame(), 0);
    assert_eq!(playing(0, 4, 1, false).current_frame(), u32::MAX);
    assert_eq!(playing(0, 0, 1, false).current_frame(), 0);
}

#[test]
fn current_frame_scales_position() {
    assert_eq!(playing(800_000, 4, 0, false).current_frame(), 0);
    assert_eq!(playing(800_000, 4, 199_999, false).current_frame(), 0);
    assert_eq!(playing(800_000, 4, 200_000, false).current_frame(), 1);
    assert_eq!(playing(800_000, 4, 450_000, false).current_frame(), 2);
    assert_eq!(playing(800_000, 4, 799_999, false).current_frame(), 3);
    assert_eq!(playing(800_000, 4, 800_000, false).current_frame(), 4);
    assert_eq!(playing(3, 2, 2, false).current_frame(), 1);
    assert_eq!(playing(800_000, 0, 450_000, false).current_frame(), 0);
    assert_eq!(playing(1, u32::MAX, u64::MAX, false).current_frame(), u32::MAX);
}

#[test]
fn play_stop_reset_toggle() {
    let mut anim = playing(800_000, 4, 123, false);
    anim.stop();
    assert_eq!(anim, Animation { is_playing: false, ..playing(800_000, 4, 123, false) });
    anim.play();
    assert_eq!(anim, playing(800_000, 4, 123, false));
    anim.toggle_run_forever();
    assert_eq!(anim, playing(800_000, 4, 123, true));
    anim.toggle_run_forever();
    assert_eq!(anim, playing(800_000, 4, 123, false));
    anim.reset();
    assert_eq!(anim, playing(800_000, 4, 0, false));
}

#[test]
fn animation_source_keeps_frames() {
    let mut anim_src = AnimationSource::new(9);
    assert_eq!(anim_src.texture_id, 9);
    assert_eq!(anim_src.get_frame(&0), None);
    anim_src.set_frame(0, Rect { x: 1, y: 2, w: 3, h: 4 });
    anim_src.set_frame(7, Rect { x: 5, y: 6, w: 7, h: 8 });
    assert_eq!(anim_src.get_frame(&0), Some(&Rect { x: 1, y: 2, w: 3, h: 4 }));
    assert_eq!(anim_src.get_frame(&7), Some(&Rect { x: 5, y: 6, w: 7, h: 8 }));
    assert_eq!(anim_src.get_frame(&1), None);
    anim_src.set_frame(0, Rect { x: 9, y: 9, w: 9, h: 9 });
    assert_eq!(anim_src.get_frame(&0), Some(&Rect { x: 9, y: 9, w: 9, h: 9 }));
    assert_eq!(anim_src.texture_id, 9);
}

#[test]
fn animation_draws_its_current_frame() {
    let mut anim_src = AnimationSource::new(4);
    for i in 0..4u32 {
        anim_src.set_frame(i, Rect { x: i * 40, y: 0, w: 40, h: 40 });
    }
    let anim = playing(800_000, 4, 450_000, false);
    assert_eq!(
        anim.draw((10, -20), &anim_src),
        Some(DrawCommand {
            texture_id: 4,
            x: 10,
            y: -20,
            source: Some(Rect { x: 80, y: 0, w: 40, h: 40 })
        })
    );
}

#[test]
fn animation_past_its_frames_draws_nothing() {
    let mut anim_src = AnimationSource::new(4);
    for i in 0..4u32 {
        anim_src.set_frame(i, Rect { x: i * 40, y: 0, w: 40, h: 40 });
    }
    let anim = playing(800_000, 4, 850_000, false);
    assert_eq!(anim.draw((0, 0), &anim_src), None);
    assert_eq!(Animation::new(800_000, 4).draw((0, 0), &AnimationSource::new(4)), None);
}

#[test]
fn texture_render_draws_whole_texture() {
    let render = Render::Texture(3);
    assert_eq!(
        render.draw((40, 80)),
        Some(DrawCommand { texture_id: 3, x: 40, y: 80, source: None })
    );
}

#[test]
fn render_update_moves_only_animations() {
    let mut texture = Render::Texture(3);
    texture.update(1000);
    texture.play();
    assert!(matches!(texture, Render::Texture(3)));

    let mut anim_src = AnimationSource::new(4);
    anim_src.set_frame(1, Rect { x: 40, y: 0, w: 40, h: 40 });
    let mut render = Render::Animation(Animation::new(800_000, 4), anim_src);
    render.update(250_000);
    match &render {
        Render::Animation(anim, _) => assert_eq!(anim.time_elapsed, 0),
        Render::Texture(_) => panic!("expected an animation"),
    }
    assert_eq!(render.draw((0, 0)), None);
    render.play();
    render.update(250_000);
    match &render {
        Render::Animation(anim, anim_src) => {
            assert_eq!(anim.time_elapsed, 250_000);
            assert!(anim.is_playing);
            assert_eq!(anim_src.get_frame(&1), Some(&Rect { x: 40, y: 0, w: 40, h: 40 }));
        }
        Render::Texture(_) => panic!("expected an animation"),
    }
    assert_eq!(
        render.draw((5, 6)),
        Some(DrawCommand {
            texture_id: 4,
            x: 5,
            y: 6,
            source: Some(Rect { x: 40, y: 0, w: 40, h: 40 })
        })
    );
}
