use snek_core::entity::{cell_of, Components, Direction, Entities, Fault, Position, Vec2i};
use snek_core::manager::{EntityManager, Init, SpawnRequest};
use snek_core::props::{PropKind, PropValue};
use snek_core::sound::Sounds;
use snek_core::time::Threshold;

fn wall_components() -> Vec<Components> {
    vec![Components::Position, Components::Collider]
}

#[test]
fn spawn_ids_strictly_increase_and_never_reuse() {
    let mut man = EntityManager::new();
    let a = man.spawn(Entities::Wall, &wall_components());
    let b = man.spawn(Entities::Fruit, &vec![Components::Position]);
    assert!(a < b);
    man.kill(a);
    let c = man.spawn(Entities::Wall, &wall_components());
    assert!(b < c);
    assert_ne!(c, a);
    let d = man.spawn(Entities::Basic, &vec![]);
    assert!(c < d);
}

#[test]
fn getters_return_defaults_right_after_spawn() {
    let mut man = EntityManager::new();
    let id = man.spawn(
        Entities::SnakeHead,
        &vec![
            Components::Position,
            Components::Direction,
            Components::BodyLength,
            Components::SelfDestruct,
            Components::Scale,
            Components::Speed,
            Components::Color,
            Components::Animation,
            Components::Timer,
            Components::Input,
        ],
    );
    let v = man.view(id).unwrap();
    assert_eq!(v.get_position(&man), Ok(Position::new(0, 0, 0)));
    assert_eq!(v.get_direction(&man), Ok(Direction::Still));
    assert_eq!(v.get_body_length(&man), Ok(0));
    assert_eq!(v.get_self_destruct(&man), Ok(0));
    assert_eq!(v.get_scale(&man), Ok(Vec2i::new(1000, 1000)));
    assert_eq!(v.get_speed(&man), Ok(0));
    assert_eq!(
        v.get_color(&man),
        Ok(snek_core::palette::PaletteKey::Blank)
    );
    assert_eq!(
        v.get_animation(&man),
        Ok(snek_core::entity::Animation::Idle)
    );
    assert_eq!(v.get_timer(&man), Ok(Threshold::new(0)));
    assert_eq!(v.get_mouse(&man), Ok(Vec2i::new(0, 0)));
    assert_eq!(v.get_key(&mut man), Ok(None));
}

#[test]
fn getter_for_missing_component_faults() {
    let mut man = EntityManager::new();
    let id = man.spawn(Entities::Wall, &wall_components());
    let v = man.view(id).unwrap();
    assert_eq!(
        v.get_direction(&man),
        Err(Fault::MissingComponent {
            tag: Entities::Wall,
            component: Components::Direction
        })
    );
    assert_eq!(
        v.get_timer(&man),
        Err(Fault::MissingComponent {
            tag: Entities::Wall,
            component: Components::Timer
        })
    );
    assert!(v.get_position(&man).is_ok());
    // setters are symmetric: writing an undeclared kind faults too
    assert_eq!(
        v.set_speed(&mut man, 5),
        Err(Fault::MissingComponent {
            tag: Entities::Wall,
            component: Components::Speed
        })
    );
}

#[test]
fn kill_erases_entity_everywhere() {
    let mut man = EntityManager::new();
    let id = man.spawn(Entities::Wall, &wall_components());
    let v = man.view(id).unwrap();
    v.set_position(&mut man, Position::from_cells(3, 3, 0)).unwrap();
    man.kill(id);
    assert!(man.view(id).is_none());
    // a stale view only reports missing components, never stale data
    assert_eq!(
        v.get_position(&man),
        Err(Fault::MissingComponent {
            tag: Entities::Wall,
            component: Components::Position
        })
    );
}

#[test]
fn wall_at_grid_cell_scenario() {
    let mut man = EntityManager::new();
    let id = man.spawn(Entities::Wall, &wall_components());
    let v = man.view(id).unwrap();
    assert_eq!(v.which(), Entities::Wall);
    v.set_position(&mut man, Position::from_cells(3, 3, 0)).unwrap();
    let p = man.view(id).unwrap().get_position(&man).unwrap();
    assert_eq!(p, Position::new(3000, 3000, 0));
    assert_eq!(cell_of(p), (3, 3));
    man.kill(id);
    assert!(man.view(id).is_none());
}

#[test]
fn coincident_colliders_produce_exactly_one_event() {
    let mut man = EntityManager::new();
    let a = man.spawn(Entities::SnakeHead, &wall_components());
    let b = man.spawn(Entities::Fruit, &wall_components());
    let va = man.view(a).unwrap();
    let vb = man.view(b).unwrap();
    va.set_position(&mut man, Position::from_cells(1, 1, 0)).unwrap();
    vb.set_position(&mut man, Position::from_cells(2, 2, 0)).unwrap();
    // both move onto cell (5,5) in the same tick
    va.set_position(&mut man, Position::from_cells(5, 5, 0)).unwrap();
    vb.set_position(&mut man, Position::from_cells(5, 5, 0)).unwrap();
    let (_ticked, collisions) = man.tick(16);
    assert_eq!(collisions.len(), 1);
    let (x, y) = collisions[0];
    let pair = (x.id(), y.id());
    assert!(pair == (a, b) || pair == (b, a));
}

#[test]
fn distant_colliders_produce_no_event() {
    let mut man = EntityManager::new();
    let a = man.spawn(Entities::SnakeHead, &wall_components());
    let b = man.spawn(Entities::Fruit, &wall_components());
    man.view(a)
        .unwrap()
        .set_position(&mut man, Position::from_cells(1, 1, 0))
        .unwrap();
    man.view(b)
        .unwrap()
        .set_position(&mut man, Position::from_cells(2, 2, 0))
        .unwrap();
    let (_ticked, collisions) = man.tick(16);
    assert!(collisions.is_empty());
}

#[test]
fn collision_compares_whole_grid_cells() {
    let mut man = EntityManager::new();
    let a = man.spawn(Entities::SnakeHead, &wall_components());
    let b = man.spawn(Entities::Fruit, &wall_components());
    man.view(a)
        .unwrap()
        .set_position(&mut man, Position::new(5100, 5900, 0))
        .unwrap();
    // same cell (5,5) even though the sub-unit positions differ
    man.view(b)
        .unwrap()
        .set_position(&mut man, Position::new(5999, 5001, 0))
        .unwrap();
    let (_t, collisions) = man.tick(16);
    assert_eq!(collisions.len(), 1);
}

#[test]
fn dead_entities_drop_out_of_queued_collisions() {
    let mut man = EntityManager::new();
    let a = man.spawn(Entities::SnakeHead, &wall_components());
    let b = man.spawn(Entities::Fruit, &wall_components());
    man.view(a)
        .unwrap()
        .set_position(&mut man, Position::from_cells(5, 5, 0))
        .unwrap();
    man.view(b)
        .unwrap()
        .set_position(&mut man, Position::from_cells(5, 5, 0))
        .unwrap();
    // b dies (deferred) before the collision drain of the same tick
    man.view(b).unwrap().kill(&mut man);
    let (_t, collisions) = man.tick(16);
    assert!(collisions.is_empty());
    assert!(man.view(b).is_none());
}

#[test]
fn tick_runs_kills_then_spawns_and_skips_new_entities() {
    let mut man = EntityManager::new();
    let doomed = man.spawn(Entities::Fruit, &vec![Components::Position]);
    let spawner = man.spawn(Entities::Logic, &vec![Components::Spawner]);
    let vs = man.view(spawner).unwrap();
    vs.request_spawn(
        &mut man,
        SpawnRequest {
            tag: Entities::Wall,
            components: wall_components(),
            inits: vec![Init::Position(Position::from_cells(3, 3, 0))],
        },
    )
    .unwrap();
    man.view(doomed).unwrap().kill(&mut man);
    let (ticked, _collisions) = man.tick(16);
    // the dispatch trace is exactly the pre-tick directory
    let ticked_ids: Vec<u64> = ticked.iter().map(|v| v.id()).collect();
    assert_eq!(ticked_ids, vec![doomed, spawner]);
    // the kill landed, the spawn landed after it
    assert!(man.view(doomed).is_none());
    let new_id = spawner + 1;
    let vw = man.view(new_id).unwrap();
    assert_eq!(vw.which(), Entities::Wall);
    // the request's initializer ran
    assert_eq!(
        vw.get_position(&man),
        Ok(Position::from_cells(3, 3, 0))
    );
    // and the new entity was not among the dispatched ones
    assert!(!ticked_ids.contains(&new_id));
}

#[test]
fn spawn_requests_need_the_spawner_marker() {
    let mut man = EntityManager::new();
    let plain = man.spawn(Entities::Fruit, &vec![Components::Position]);
    let v = man.view(plain).unwrap();
    let r = v.request_spawn(
        &mut man,
        SpawnRequest { tag: Entities::Wall, components: vec![], inits: vec![] },
    );
    assert_eq!(
        r,
        Err(Fault::MissingComponent {
            tag: Entities::Fruit,
            component: Components::Spawner
        })
    );
}

#[test]
fn spawned_collider_collides_within_its_spawn_tick() {
    let mut man = EntityManager::new();
    let resident = man.spawn(Entities::Wall, &wall_components());
    man.view(resident)
        .unwrap()
        .set_position(&mut man, Position::from_cells(4, 4, 0))
        .unwrap();
    let spawner = man.spawn(Entities::Logic, &vec![Components::Spawner]);
    man.view(spawner)
        .unwrap()
        .request_spawn(
            &mut man,
            SpawnRequest {
                tag: Entities::Fireball,
                components: wall_components(),
                inits: vec![Init::Position(Position::from_cells(4, 4, 0))],
            },
        )
        .unwrap();
    let (_t, collisions) = man.tick(16);
    assert_eq!(collisions.len(), 1);
    assert_eq!(collisions[0].0.which(), Entities::Fireball);
    assert_eq!(collisions[0].1.id(), resident);
}

#[test]
fn input_fans_out_to_input_holders() {
    let mut man = EntityManager::new();
    let a = man.spawn(Entities::SnakeHead, &vec![Components::Input]);
    let b = man.spawn(Entities::Wall, &wall_components());
    man.push_key(87);
    man.push_key(65);
    man.push_mouse(Vec2i::new(10, 20));
    man.push_mouse(Vec2i::new(30, 40));
    let _ = man.tick(16);
    let va = man.view(a).unwrap();
    assert_eq!(va.get_key(&mut man), Ok(Some(87)));
    assert_eq!(va.get_key(&mut man), Ok(Some(65)));
    assert_eq!(va.get_key(&mut man), Ok(None));
    assert_eq!(va.get_mouse(&man), Ok(Vec2i::new(30, 40)));
    let vb = man.view(b).unwrap();
    assert!(vb.get_key(&mut man).is_err());
}

#[test]
fn property_bag_binds_reads_and_faults() {
    let mut man = EntityManager::new();
    let id = man.spawn(Entities::Fruit, &vec![Components::Properties]);
    let v = man.view(id).unwrap();
    assert!(!v.has_property(&man, "score"));
    v.new_property(&mut man, String::from("score"), PropValue::Int(0));
    assert!(v.has_property(&man, "score"));
    assert_eq!(
        v.get_property(&man, "score", PropKind::Int),
        Ok(PropValue::Int(0))
    );
    assert_eq!(
        v.get_property(&man, "score", PropKind::Bool),
        Err(Fault::PropertyTypeMismatch)
    );
    assert_eq!(
        v.get_property(&man, "lives", PropKind::Int),
        Err(Fault::MissingProperty)
    );
    assert_eq!(v.set_property(&mut man, "score", PropValue::Int(7)), Ok(()));
    assert_eq!(
        v.get_property(&man, "score", PropKind::Int),
        Ok(PropValue::Int(7))
    );
    assert_eq!(
        v.set_property(&mut man, "score", PropValue::Bool(true)),
        Err(Fault::PropertyTypeMismatch)
    );
    assert_eq!(
        v.set_property(&mut man, "lives", PropValue::Int(3)),
        Err(Fault::MissingProperty)
    );
    // rebinding may change the type
    v.new_property(&mut man, String::from("score"), PropValue::Bool(true));
    assert_eq!(
        v.get_property(&man, "score", PropKind::Bool),
        Ok(PropValue::Bool(true))
    );
    v.remove_property(&mut man, "score");
    assert!(!v.has_property(&man, "score"));
    // without the marker the bag silently ignores writes
    let bare = man.spawn(Entities::Wall, &wall_components());
    let vb = man.view(bare).unwrap();
    vb.new_property(&mut man, String::from("score"), PropValue::Int(1));
    assert!(!vb.has_property(&man, "score"));
}

#[test]
fn sound_requests_flow_through_the_manager() {
    let mut man = EntityManager::new();
    let id = man.spawn(Entities::Fruit, &vec![Components::Sound]);
    let v = man.view(id).unwrap();
    assert_eq!(v.play_sound(&mut man, Sounds::Eat), Ok(()));
    assert_eq!(v.play_sound(&mut man, Sounds::Move), Ok(()));
    let mute = man.spawn(Entities::Wall, &wall_components());
    let vm = man.view(mute).unwrap();
    assert_eq!(
        vm.play_sound(&mut man, Sounds::Die),
        Err(Fault::MissingComponent {
            tag: Entities::Wall,
            component: Components::Sound
        })
    );
    assert_eq!(man.take_sounds(), vec![Sounds::Eat, Sounds::Move]);
    assert!(man.take_sounds().is_empty());
}

#[test]
fn timer_component_is_read_modify_write() {
    let mut man = EntityManager::new();
    let id = man.spawn(Entities::SnakeBody, &vec![Components::Timer]);
    let v = man.view(id).unwrap();
    let mut t = v.get_timer(&man).unwrap();
    t.set_threshold(150);
    v.set_timer(&mut man, t).unwrap();
    let mut t2 = v.get_timer(&man).unwrap();
    assert!(!t2.tick(100));
    assert!(t2.tick(100));
    v.set_timer(&mut man, t2).unwrap();
    assert_eq!(v.get_timer(&man).unwrap().progress(), (50, 150));
}

#[test]
fn setters_overwrite_declared_components() {
    let mut man = EntityManager::new();
    let id = man.spawn(
        Entities::Fireball,
        &vec![
            Components::Position,
            Components::Direction,
            Components::Scale,
            Components::Speed,
            Components::Color,
            Components::BodyLength,
            Components::SelfDestruct,
            Components::Animation,
        ],
    );
    let v = man.view(id).unwrap();
    v.set_direction(&mut man, Direction::Raw(Vec2i::new(707, -707))).unwrap();
    v.set_scale(&mut man, Vec2i::new(450, 450)).unwrap();
    v.set_speed(&mut man, 15000).unwrap();
    v.set_color(&mut man, snek_core::palette::PaletteKey::Snake).unwrap();
    v.set_body_length(&mut man, 4).unwrap();
    v.set_self_destruct(&mut man, 9).unwrap();
    v.set_animation(&mut man, snek_core::entity::Animation::Growing).unwrap();
    assert_eq!(
        v.get_direction(&man),
        Ok(Direction::Raw(Vec2i::new(707, -707)))
    );
    assert_eq!(v.get_scale(&man), Ok(Vec2i::new(450, 450)));
    assert_eq!(v.get_speed(&man), Ok(15000));
    assert_eq!(
        v.get_color(&man),
        Ok(snek_core::palette::PaletteKey::Snake)
    );
    assert_eq!(v.get_body_length(&man), Ok(4));
    assert_eq!(v.get_self_destruct(&man), Ok(9));
    assert_eq!(
        v.get_animation(&man),
        Ok(snek_core::entity::Animation::Growing)
    );
}

#[test]
fn draw_order_matches_the_directory() {
    let mut man = EntityManager::new();
    let a = man.spawn(Entities::Wall, &wall_components());
    let b = man.spawn(Entities::Fruit, &vec![Components::Position]);
    let c = man.spawn(Entities::Text, &vec![]);
    man.kill(b);
    let order = man.draw();
    let ids: Vec<u64> = order.iter().map(|v| v.id()).collect();
    assert_eq!(ids, vec![a, c]);
    assert_eq!(order[0].which(), Entities::Wall);
    assert_eq!(order[1].which(), Entities::Text);
}
