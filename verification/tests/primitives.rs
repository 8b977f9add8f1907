use snek_core::common::Error;
use snek_core::entity::{cell_coord, cell_of, Direction, Input, Position, Vec2i};
use snek_core::palette::{crt, dark_pastel, PaletteKey, Rgb};
use snek_core::render::{
    Fireball, FireballManager, Instance, InstancedShapeManager, Swoop, SwoopManager, SwoopVertex,
    VaoHelper,
};
use snek_core::scene::{Scene, Tile};
use snek_core::sound::{SoundManager, Sounds, NUM_SOUNDS};
use snek_core::text::{TextNames, NUM_TEXTS};
use snek_core::time::{Cooldown, Threshold};

#[test]
fn timer_fires_once_every_period() {
    // threshold 10, fixed step 5: fires on ticks 3, 5, 7, ... — once every
    // threshold / step ticks once running, never twice in a row
    let mut t = Threshold::new(10);
    let mut fired: Vec<bool> = Vec::new();
    for _ in 0..8 {
        fired.push(t.tick(5));
    }
    assert_eq!(
        fired,
        vec![false, false, true, false, true, false, true, false]
    );
}

#[test]
fn timer_carries_overflow_instead_of_double_firing() {
    let mut t = Threshold::new(10);
    // a step that skips two periods fires once and keeps the rest
    assert!(t.tick(25));
    assert_eq!(t.progress(), (15, 10));
    assert!(t.tick(0));
    assert_eq!(t.progress(), (5, 10));
    t.reset();
    assert_eq!(t.progress(), (0, 10));
}

#[test]
fn timer_threshold_can_change_live() {
    let mut t = Threshold::new(10);
    assert!(!t.tick(7));
    t.set_threshold(u64::MAX);
    assert!(!t.tick(1000));
    assert_eq!(t.progress(), (1007, u64::MAX));
}

#[test]
fn cooldown_opens_after_its_duration() {
    let mut c = Cooldown::new(100);
    assert!(!c.is_cooling_down());
    c.cool_down();
    assert!(c.is_cooling_down());
    for _ in 0..4 {
        c.tick(30);
    }
    assert!(!c.is_cooling_down());
    assert_eq!(c.progress(), (100, 100));
}

#[test]
fn cooldown_progress_is_elapsed_over_duration() {
    let mut c = Cooldown::new(200);
    c.cool_down();
    c.tick(50);
    assert_eq!(c.progress(), (50, 200));
    c.reset();
    assert!(!c.is_cooling_down());
    assert_eq!(c.progress(), (200, 200));
}

#[test]
fn cell_coordinates_floor_toward_negative_infinity() {
    assert_eq!(cell_coord(0), 0);
    assert_eq!(cell_coord(999), 0);
    assert_eq!(cell_coord(1000), 1);
    assert_eq!(cell_coord(-1), -1);
    assert_eq!(cell_coord(-1000), -1);
    assert_eq!(cell_coord(-1001), -2);
    assert_eq!(cell_of(Position::new(5999, -2500, 7)), (5, -3));
}

#[test]
fn direction_reverse_and_right() {
    assert_eq!(Direction::Up.reverse(), Direction::Down);
    assert_eq!(Direction::Left.reverse(), Direction::Right);
    assert_eq!(Direction::Still.reverse(), Direction::Still);
    assert_eq!(
        Direction::Raw(Vec2i::new(3, -4)).reverse(),
        Direction::Raw(Vec2i::new(-3, 4))
    );
    assert_eq!(Direction::Up.right(), Direction::Right);
    assert_eq!(Direction::Right.right(), Direction::Down);
    assert_eq!(Direction::Down.right(), Direction::Left);
    assert_eq!(Direction::Left.right(), Direction::Up);
}

#[test]
fn direction_offsets_round_trip() {
    for d in [
        Direction::Still,
        Direction::Up,
        Direction::Down,
        Direction::Left,
        Direction::Right,
    ] {
        let (x, y) = d.grid_offset();
        assert_eq!(Direction::from_offset(Vec2i::new(x, y)), Ok(d));
    }
    assert_eq!(
        Direction::from_offset(Vec2i::new(2, 0)),
        Err(Error::BadDirection)
    );
    assert_eq!(
        Direction::from_offset(Vec2i::new(1, 1)),
        Err(Error::BadDirection)
    );
}

#[test]
fn cooldown_duration_can_be_rearmed() {
    let mut c = Cooldown::new(100);
    c.set_cooldown(40);
    c.cool_down();
    c.tick(39);
    assert!(c.is_cooling_down());
    assert_eq!(c.progress(), (39, 40));
    c.tick(1);
    assert!(!c.is_cooling_down());
}

#[test]
fn random_direction_is_grid_aligned() {
    for _ in 0..32 {
        let d = Direction::random();
        assert!(matches!(
            d,
            Direction::Up | Direction::Down | Direction::Left | Direction::Right
        ));
    }
}

#[test]
fn input_queue_is_first_in_first_out() {
    let mut input = Input::new();
    assert_eq!(input.get_key(), None);
    input.press(1);
    input.press(2);
    input.mouse_move(Vec2i::new(7, 8));
    assert_eq!(input.get_key(), Some(1));
    assert_eq!(input.get_key(), Some(2));
    assert_eq!(input.get_key(), None);
    assert_eq!(input.get_mouse(), Vec2i::new(7, 8));
}

#[test]
fn hexcode_parses_exact_colors() {
    assert_eq!(Rgb::hexcode("102542"), Ok(Rgb::new(0x10, 0x25, 0x42)));
    assert_eq!(Rgb::hexcode("FFD166"), Ok(Rgb::new(0xFF, 0xD1, 0x66)));
    assert_eq!(Rgb::hexcode("5efc8d"), Ok(Rgb::new(0x5E, 0xFC, 0x8D)));
    assert_eq!(Rgb::hexcode("12345"), Err(Error::ParseError));
    assert_eq!(Rgb::hexcode("12345G"), Err(Error::ParseError));
}

#[test]
fn palettes_assign_roles() {
    let p = crt();
    assert_eq!(p.get(PaletteKey::Snake), Rgb::new(0, 255, 0));
    assert_eq!(p.get(PaletteKey::Fruit), Rgb::new(255, 0, 0));
    assert_eq!(p.get(PaletteKey::Blank), Rgb::new(0, 0, 0));
    let d = dark_pastel().unwrap();
    assert_eq!(d.background, Rgb::new(0x10, 0x25, 0x42));
    assert_eq!(d.fruit, Rgb::new(0xFF, 0xD1, 0x66));
}

#[test]
fn sound_ids_round_trip() {
    for id in 0..NUM_SOUNDS {
        let s = Sounds::try_from_id(id).unwrap();
        let _ = s;
    }
    assert_eq!(Sounds::try_from_id(0), Ok(Sounds::Die));
    assert_eq!(Sounds::try_from_id(7), Ok(Sounds::Swoop));
    assert_eq!(Sounds::try_from_id(16), Ok(Sounds::Glitch5));
    assert_eq!(Sounds::try_from_id(17), Err(Error::InvalidSoundId));
}

#[test]
fn glitch_draws_a_glitch_stinger() {
    for _ in 0..32 {
        let s = Sounds::glitch();
        assert!(matches!(
            s,
            Sounds::Glitch0
                | Sounds::Glitch1
                | Sounds::Glitch2
                | Sounds::Glitch3
                | Sounds::Glitch4
                | Sounds::Glitch5
        ));
    }
}

#[test]
fn sound_manager_buffers_requests() {
    let mut sm = SoundManager::new();
    sm.play(Sounds::CrtOn);
    sm.play(Sounds::CrtBuzz);
    assert_eq!(sm.take_pending(), vec![Sounds::CrtOn, Sounds::CrtBuzz]);
    assert!(sm.take_pending().is_empty());
    let mut player = sm.player();
    player.play(Sounds::Move);
    assert_eq!(player.take_pending(), vec![Sounds::Move]);
}

#[test]
fn text_names_have_dimensions_and_frames() {
    for id in 0..NUM_TEXTS {
        let t = TextNames::try_from_id(id).unwrap();
        assert!(t.frames() >= 1);
    }
    assert_eq!(TextNames::try_from_id(5), Err(Error::InvalidTextNameId));
    assert_eq!(TextNames::Snek.dimension(), (62, 14));
    assert_eq!(TextNames::SnekGlitch.frames(), 4);
    assert_eq!(TextNames::FruitGlitch.frames(), 8);
    assert_eq!(TextNames::Controls.frames(), 1);
}

#[test]
fn instanced_shapes_enforce_their_budget() {
    let mut ism = InstancedShapeManager::new(2);
    let tile = Instance {
        pos: Position::new(0, 0, 0),
        scale: Vec2i::new(1000, 1000),
        col: Rgb::new(1, 2, 3),
    };
    assert_eq!(ism.push_instance(tile), Ok(()));
    assert_eq!(ism.push_instance(tile), Ok(()));
    assert_eq!(ism.push_instance(tile), Err(Error::CapacityExceeded));
    let batch = ism.draw();
    assert_eq!(batch.len(), 2);
    assert_eq!(batch[0], tile);
    // the batch restarts empty
    assert_eq!(ism.push_instance(tile), Ok(()));
}

#[test]
fn fireballs_drain_in_push_order() {
    let mut fm = FireballManager::new(8);
    let a = Fireball { pos: Vec2i::new(1, 2), col: Rgb::new(9, 9, 9), radius: 450 };
    let b = Fireball { pos: Vec2i::new(3, 4), col: Rgb::new(8, 8, 8), radius: 787 };
    fm.push(a).unwrap();
    fm.push(b).unwrap();
    assert_eq!(fm.draw(), vec![a, b]);
    assert!(fm.draw().is_empty());
}

#[test]
fn swoops_take_six_vertex_slots() {
    let mut sm = SwoopManager::new(1);
    let v = SwoopVertex { pos: Vec2i::new(0, 0), uv: Vec2i::new(0, 0), alpha: 1000 };
    let swoop = Swoop { vertices: [v; 6] };
    assert_eq!(sm.push(swoop), Ok(()));
    assert_eq!(sm.push(swoop), Err(Error::CapacityExceeded));
    assert_eq!(sm.draw().len(), 6);
}

#[test]
fn vao_helper_hands_out_consecutive_slots() {
    let layout = VaoHelper::new()
        .bind_buffer(11)
        .push_attrib(2, 0x1406, false, 16, 0)
        .push_attrib(2, 0x1406, false, 16, 8)
        .bind_buffer(12)
        .push_int_attrib(1, 0x1404, 4, 0)
        .build();
    assert_eq!(layout.len(), 3);
    assert_eq!(layout[0].index, 0);
    assert_eq!(layout[1].index, 1);
    assert_eq!(layout[2].index, 2);
    assert_eq!(layout[0].buffer, 11);
    assert_eq!(layout[2].buffer, 12);
    assert!(layout[2].integer);
    assert!(!layout[0].integer);
}

#[test]
fn scene_builds_a_walled_border() {
    let scene = Scene::new(5, 4);
    for y in 0..4 {
        for x in 0..5 {
            let expect = if x == 0 || x == 4 || y == 0 || y == 3 {
                Tile::Wall
            } else {
                Tile::Background
            };
            assert_eq!(scene.get_tile(x, y), expect);
        }
    }
}

#[test]
fn scene_set_tile_changes_one_cell() {
    let mut scene = Scene::new(5, 4);
    scene.set_tile(2, 2, Tile::Wall);
    assert_eq!(scene.get_tile(2, 2), Tile::Wall);
    assert_eq!(scene.get_tile(1, 2), Tile::Background);
    assert_eq!(scene.get_tile(2, 1), Tile::Background);
    let palette = crt();
    assert_eq!(scene.get_tile(2, 2).color(palette), palette.wall);
    assert_eq!(scene.get_tile(1, 1).color(palette), Rgb::new(0, 0, 0));
}
