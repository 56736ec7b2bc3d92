use wasmlib::components::{EntityTag, TAG_ASTEROID, TAG_PLAYER, TAG_PROJECTILE};
use wasmlib::factories::{AsteroidBuilder, EntityBuilder};
use wasmlib::game::Game;
use wasmlib::input::{InputEvent, Key, KeyState};
use wasmlib::math::Vec2;
use wasmlib::physics::{BodyUpdate, ContactEvent, EntityContactEvent};
use wasmlib::store::World;

fn hold_fire(g: &mut Game) {
    g.log_event(InputEvent::KeyboardEvent {
        code: Key::Space,
        state: KeyState::Pressed,
        repeated: false,
    });
}

#[test]
fn new_game_spawns_the_player_and_three_asteroids() {
    let g = Game::new();
    assert_eq!(g.world.len(), 4);
    assert_eq!(g.physics.num_bodies(), 4);
    let player = g.world.get(0).unwrap();
    assert!(player.player.is_some());
    assert_eq!(player.tag, Some(EntityTag(TAG_PLAYER)));
    assert_eq!(player.health.map(|h| h.0), Some(30));
    assert_eq!(player.sprite.map(|s| s.index), Some(1));
    assert_eq!(player.handle, Some(0));
    let rock = g.world.get(1).unwrap();
    assert!(rock.player.is_none());
    assert_eq!(rock.tag, Some(EntityTag(TAG_ASTEROID)));
    assert_eq!(rock.health.map(|h| h.0), Some(4));
    assert_eq!(rock.sprite.map(|s| s.index), Some(3));
    let body = g.physics.body_of(0).unwrap();
    assert_eq!(body.pos, Vec2 { x: 50_000, y: 25_000 });
}

#[test]
fn cooldown_allows_at_most_one_shot_per_window() {
    let mut g = Game::new();
    // fire key held continuously; ticks at 0 ms, 100 ms and 350 ms
    hold_fire(&mut g);
    g.begin_tick(0);
    assert_eq!(g.world.len(), 5);
    g.begin_tick(100);
    assert_eq!(g.world.len(), 5);
    g.begin_tick(350);
    assert_eq!(g.world.len(), 6);
}

#[test]
fn no_shot_without_the_fire_key() {
    let mut g = Game::new();
    g.begin_tick(0);
    assert_eq!(g.world.len(), 4);
}

#[test]
fn a_bullet_spawns_ahead_of_the_shooter_at_full_speed() {
    let mut g = Game::new();
    hold_fire(&mut g);
    g.begin_tick(1_000);
    let bullet = g.world.get(4).unwrap();
    assert_eq!(bullet.handle, Some(4));
    assert_eq!(bullet.tag, Some(EntityTag(TAG_PROJECTILE)));
    assert!(bullet.cull.is_some());
    let t = bullet.transform.unwrap();
    // one and a quarter units ahead along the heading (0, 1)
    assert_eq!(t.pos, Vec2 { x: 50_000, y: 26_250 });
    let body = g.physics.body_of(4).unwrap();
    assert_eq!(body.linvel, Vec2 { x: 0, y: 30_000 });
}

#[test]
fn a_tick_wraps_bodies_and_syncs_transforms() {
    let mut g = Game::new();
    let r = g.finish_tick(
        &vec![BodyUpdate {
            handle: 0,
            pos: Vec2 { x: 150_000, y: 60_000 },
            angle: 0,
            forward: Vec2 { x: 0, y: 1000 },
            linvel: Vec2 { x: 10, y: 20 },
            angvel: 0,
        }],
        &vec![],
        &vec![],
    );
    assert!(r.contacts.is_empty());
    assert!(r.hits.is_empty());
    // the body is folded back into the 100 x 50 world, velocity untouched
    let body = g.physics.body_of(0).unwrap();
    assert_eq!(body.pos, Vec2 { x: 50_000, y: 10_000 });
    assert_eq!(body.linvel, Vec2 { x: 10, y: 20 });
    assert_eq!(g.frame_count, 1);
}

#[test]
fn a_tick_translates_contact_events() {
    let mut g = Game::new();
    let r = g.finish_tick(&vec![], &vec![ContactEvent::Started(0, 1)], &vec![]);
    assert_eq!(r.contacts.len(), 1);
    assert!(matches!(r.contacts[0], EntityContactEvent::Started(0, 1)));
}

#[test]
fn a_far_flung_bullet_is_culled_by_the_end_of_the_tick() {
    let mut g = Game::new();
    hold_fire(&mut g);
    g.begin_tick(0);
    assert_eq!(g.world.len(), 5);
    let r = g.finish_tick(
        &vec![BodyUpdate {
            handle: 4,
            pos: Vec2 { x: 99_000, y: 26_000 },
            angle: 0,
            forward: Vec2 { x: 0, y: 1000 },
            linvel: Vec2 { x: 0, y: 30_000 },
            angvel: 0,
        }],
        &vec![],
        &vec![],
    );
    assert!(r.hits.is_empty());
    // the bullet left the view around the player and is gone, body included
    assert_eq!(g.world.len(), 4);
    assert!(g.world.get(4).is_none());
    assert!(g.physics.body_of(4).is_err());
    // the player is still there
    assert!(g.world.get(0).is_some());
}

#[test]
fn an_onscreen_bullet_survives_the_tick() {
    let mut g = Game::new();
    hold_fire(&mut g);
    g.begin_tick(0);
    let r = g.finish_tick(
        &vec![BodyUpdate {
            handle: 4,
            pos: Vec2 { x: 51_000, y: 26_000 },
            angle: 0,
            forward: Vec2 { x: 0, y: 1000 },
            linvel: Vec2 { x: 0, y: 30_000 },
            angvel: 0,
        }],
        &vec![],
        &vec![],
    );
    assert!(r.hits.is_empty());
    assert_eq!(g.world.len(), 5);
    assert!(g.world.get(4).is_some());
}

#[test]
fn an_empty_builder_spawns_nothing() {
    let mut world = World::new();
    let mut physics = wasmlib::physics::Physics::new();
    let builder = AsteroidBuilder { positions: Vec::new() };
    builder.create(&mut world, &mut physics);
    assert_eq!(world.len(), 0);
    assert_eq!(physics.num_bodies(), 0);
}
