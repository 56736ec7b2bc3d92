use wasmlib::components::{
    Cull, EntityTag, Transform, TAG_ASTEROID, TAG_ENEMY_OR_ASTEROID, TAG_PLAYER, TAG_PROJECTILE,
};
use wasmlib::factories::{EntityBuilder, PlayerBuilder};
use wasmlib::input::{InputEvent, InputState, Key, KeyState};
use wasmlib::math::Vec2;
use wasmlib::physics::{Body, EntityProximityEvent, Physics, Proximity};
use wasmlib::resources::{WindowDimensions, WorldBounds};
use wasmlib::store::{EntityRecord, World};
use wasmlib::systems::{
    culling, input_system, player_input, player_position, resolve_hits, world_wrap,
};
use wasmlib::types::{Camera, InputEventQueue};

fn key_down(code: Key) -> InputEvent {
    InputEvent::KeyboardEvent { code, state: KeyState::Pressed, repeated: false }
}

fn key_up(code: Key) -> InputEvent {
    InputEvent::KeyboardEvent { code, state: KeyState::Released, repeated: false }
}

fn player_scene() -> (World, Physics) {
    let mut world = World::new();
    let mut physics = Physics::new();
    let t = Transform::new().with_translation(Vec2 { x: 50_000, y: 25_000 });
    PlayerBuilder::starting_from(t).create(&mut world, &mut physics);
    (world, physics)
}

#[test]
fn input_system_tracks_presses_and_releases() {
    let mut q: InputEventQueue = InputEventQueue::new();
    let mut state = InputState::new();
    q.push(key_down(Key::W));
    q.push(key_down(Key::Space));
    q.push(key_up(Key::W));
    input_system(&mut q, &mut state);
    assert!(!state.is_pressed(Key::W));
    assert!(state.is_pressed(Key::Space));
    assert!(q.is_empty());
}

#[test]
fn mouse_events_leave_the_key_state_alone() {
    let mut q: InputEventQueue = InputEventQueue::new();
    let mut state = InputState::new();
    q.push(key_down(Key::A));
    q.push(InputEvent::MouseEvent {
        button: wasmlib::input::MouseButton::Main,
        state: KeyState::Pressed,
        x: 3,
        y: 4,
    });
    input_system(&mut q, &mut state);
    assert!(state.is_pressed(Key::A));
}

#[test]
fn velocity_clamp_rescales_an_overfast_body() {
    let (world, mut physics) = player_scene();
    let b = physics.body_of(0).unwrap();
    physics.set_body(0, Body { linvel: Vec2 { x: 30_000, y: 40_000 }, ..b });
    let state = InputState::new();
    player_input(&world, &mut physics, &state);
    let after = physics.body_of(0).unwrap();
    // friction decays (30000, 40000) to (29400, 39200), whose norm 49000
    // exceeds the cap, so it is rescaled to norm exactly MAX_VELOCITY
    assert_eq!(after.linvel, Vec2 { x: 6_000, y: 8_000 });
}

#[test]
fn thrust_accumulates_force_along_the_heading() {
    let (world, mut physics) = player_scene();
    let mut q: InputEventQueue = InputEventQueue::new();
    let mut state = InputState::new();
    q.push(key_down(Key::Up));
    input_system(&mut q, &mut state);
    player_input(&world, &mut physics, &state);
    let after = physics.body_of(0).unwrap();
    assert_eq!(after.force, Vec2 { x: 0, y: 100_000 });
}

#[test]
fn turning_input_applies_an_angular_impulse_within_the_cap() {
    let (world, mut physics) = player_scene();
    let mut state = InputState::new();
    state.press_key(Key::Left, false);
    player_input(&world, &mut physics, &state);
    assert_eq!(physics.body_of(0).unwrap().angvel, 500);
    // near the cap the impulse is clamped
    let b = physics.body_of(0).unwrap();
    physics.set_body(0, Body { angvel: 1_900, ..b });
    player_input(&world, &mut physics, &state);
    assert_eq!(physics.body_of(0).unwrap().angvel, 2_000);
}

#[test]
fn angular_friction_decays_an_undriven_spin() {
    let (world, mut physics) = player_scene();
    let b = physics.body_of(0).unwrap();
    physics.set_body(0, Body { angvel: 1_000, ..b });
    let state = InputState::new();
    player_input(&world, &mut physics, &state);
    assert_eq!(physics.body_of(0).unwrap().angvel, 980);
}

#[test]
fn wrap_folds_bodies_and_keeps_velocity() {
    let (_world, mut physics) = player_scene();
    let b = physics.body_of(0).unwrap();
    physics.set_body(
        0,
        Body { pos: Vec2 { x: 150_000, y: -10_000 }, linvel: Vec2 { x: 123, y: -456 }, ..b },
    );
    let bounds = WorldBounds { w: 100_000, h: 50_000 };
    world_wrap(&mut physics, &bounds);
    let after = physics.body_of(0).unwrap();
    assert_eq!(after.pos, Vec2 { x: 50_000, y: 40_000 });
    assert_eq!(after.linvel, Vec2 { x: 123, y: -456 });
}

#[test]
fn view_follows_the_player() {
    let (world, _physics) = player_scene();
    let mut view = Camera { origin: Vec2 { x: 0, y: 0 } };
    player_position(&world, &mut view);
    assert_eq!(view.origin, Vec2 { x: 50_000, y: 25_000 });
}

fn transient_at(world: &mut World, physics: &mut Physics, x: i64, y: i64) -> u64 {
    let template = EntityRecord {
        transform: Some(Transform::new().with_translation(Vec2 { x, y })),
        tag: Some(EntityTag(TAG_PROJECTILE)),
        cull: Some(Cull),
        ..EntityRecord::empty(0)
    };
    let id = world.insert(template);
    let h = physics.create(
        id,
        wasmlib::physics::BodySpec {
            pos: Vec2 { x, y },
            angle: 0,
            forward: Vec2 { x: 0, y: 1000 },
            linvel: Vec2 { x: 0, y: 0 },
            angvel: 0,
            can_sleep: false,
        },
        vec![],
    );
    let i = world.get_index(id).unwrap();
    let rec = world.record_at(i);
    world.set_at(i, EntityRecord { handle: Some(h), ..rec });
    id
}

#[test]
fn culling_removes_offscreen_transients_and_their_bodies() {
    let mut world = World::new();
    let mut physics = Physics::new();
    let far = transient_at(&mut world, &mut physics, 200_000, 25_000);
    let near = transient_at(&mut world, &mut physics, 51_000, 25_000);
    let dims = WindowDimensions { w: 960, h: 540 };
    let view = Camera { origin: Vec2 { x: 50_000, y: 25_000 } };
    culling(&mut world, &mut physics, &dims, &view);
    assert!(world.get(far).is_none());
    let kept = world.get(near).unwrap();
    assert_eq!(kept.id, near);
    // the culled entity's body was released; the kept one still lives
    let far_handle = 0;
    let near_handle = 1;
    assert!(physics.body_of(far_handle).is_err());
    assert!(physics.body_of(near_handle).is_ok());
}

#[test]
fn culling_boundary_uses_the_aspect_ratio_on_the_vertical_axis() {
    // with a 960x540 window the visible half height is 8437 sub-units
    let mut world = World::new();
    let mut physics = Physics::new();
    let above = transient_at(&mut world, &mut physics, 50_000, 25_000 + 8_438);
    let inside = transient_at(&mut world, &mut physics, 50_000, 25_000 + 8_437);
    let dims = WindowDimensions { w: 960, h: 540 };
    let view = Camera { origin: Vec2 { x: 50_000, y: 25_000 } };
    culling(&mut world, &mut physics, &dims, &view);
    assert!(world.get(above).is_none());
    assert!(world.get(inside).is_some());
}

#[test]
fn entities_without_the_cull_marker_are_never_culled() {
    let (mut world, mut physics) = player_scene();
    let dims = WindowDimensions { w: 960, h: 540 };
    let view = Camera { origin: Vec2 { x: 500_000, y: 500_000 } };
    culling(&mut world, &mut physics, &dims, &view);
    assert_eq!(world.len(), 1);
}

#[test]
fn projectile_hitting_an_asteroid_names_the_asteroid() {
    let mut world = World::new();
    let bullet = world.insert(EntityRecord {
        tag: Some(EntityTag(TAG_PROJECTILE)),
        ..EntityRecord::empty(0)
    });
    let rock = world.insert(EntityRecord {
        tag: Some(EntityTag(TAG_ASTEROID)),
        ..EntityRecord::empty(0)
    });
    let hit = EntityProximityEvent {
        e1: bullet,
        e2: rock,
        prev_status: Proximity::Disjoint,
        new_status: Proximity::Intersecting,
    };
    let flipped = EntityProximityEvent { e1: rock, e2: bullet, ..hit };
    let hits = resolve_hits(&world, &vec![hit, flipped]);
    assert_eq!(hits, vec![rock, rock]);
}

#[test]
fn hit_events_for_removed_entities_are_skipped() {
    let mut world = World::new();
    let bullet = world.insert(EntityRecord {
        tag: Some(EntityTag(TAG_PROJECTILE)),
        ..EntityRecord::empty(0)
    });
    let rock = world.insert(EntityRecord {
        tag: Some(EntityTag(TAG_ASTEROID)),
        ..EntityRecord::empty(0)
    });
    world.remove(rock);
    let hit = EntityProximityEvent {
        e1: bullet,
        e2: rock,
        prev_status: Proximity::Disjoint,
        new_status: Proximity::Intersecting,
    };
    let hits = resolve_hits(&world, &vec![hit]);
    assert!(hits.is_empty());
}

#[test]
fn can_hit_masks_overlap_by_shared_bits() {
    let can_hit = EntityTag(TAG_ENEMY_OR_ASTEROID);
    assert!(can_hit.intersects(&EntityTag(TAG_ASTEROID)));
    assert!(!can_hit.intersects(&EntityTag(TAG_PLAYER)));
}

#[test]
fn key_codes_map_to_keys() {
    assert_eq!(Key::from("KeyW"), Key::W);
    assert_eq!(Key::from("KeyA"), Key::A);
    assert_eq!(Key::from("KeyS"), Key::S);
    assert_eq!(Key::from("KeyD"), Key::D);
    assert_eq!(Key::from("ArrowLeft"), Key::Left);
    assert_eq!(Key::from("ArrowRight"), Key::Right);
    assert_eq!(Key::from("ArrowUp"), Key::Up);
    assert_eq!(Key::from("ArrowDown"), Key::Down);
    assert_eq!(Key::from("Space"), Key::Space);
}

#[test]
fn unknown_key_codes_map_to_unmapped() {
    assert_eq!(Key::from("Escape"), Key::Unmapped);
    assert_eq!(Key::from("KeyWW"), Key::Unmapped);
    assert_eq!(Key::from(""), Key::Unmapped);
}
