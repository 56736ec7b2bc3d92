use wasmlib::math::Vec2;
use wasmlib::store::{EntityRecord, World};
use wasmlib::physics::{
    BodySpec, BodyUpdate, ColliderSpec, ContactEvent, EntityContactEvent, Physics, PhysicsError,
    Proximity, ProximityEvent, Shape,
};

fn dynamic_body_at(x: i64, y: i64) -> BodySpec {
    BodySpec {
        pos: Vec2 { x, y },
        angle: 0,
        forward: Vec2 { x: 0, y: 1000 },
        linvel: Vec2 { x: 0, y: 0 },
        angvel: 0,
        can_sleep: false,
    }
}

fn ball_collider() -> Vec<ColliderSpec> {
    vec![ColliderSpec { shape: Shape::Ball { radius: 200 }, density: 1000, sensor: false }]
}

#[test]
fn contact_event_translates_to_the_owning_entities() {
    let mut p = Physics::new();
    let h1 = p.create(10, dynamic_body_at(0, 0), ball_collider());
    let h2 = p.create(20, dynamic_body_at(1_000, 0), ball_collider());
    p.step(
        &vec![],
        &vec![ContactEvent::Started(h1, h2)],
        &vec![],
    );
    let events = p.contact_events();
    assert_eq!(events.len(), 1);
    assert!(matches!(events[0], EntityContactEvent::Started(10, 20)));
    // drained: a second read finds nothing
    assert_eq!(p.contact_events().len(), 0);
}

#[test]
fn contact_event_for_a_removed_body_is_dropped() {
    let mut p = Physics::new();
    let h1 = p.create(10, dynamic_body_at(0, 0), ball_collider());
    let h2 = p.create(20, dynamic_body_at(1_000, 0), ball_collider());
    assert_eq!(p.remove(h1), Ok(()));
    p.step(
        &vec![],
        &vec![ContactEvent::Started(h1, h2)],
        &vec![],
    );
    assert_eq!(p.contact_events().len(), 0);
}

#[test]
fn proximity_event_translates_and_keeps_statuses() {
    let mut p = Physics::new();
    let h1 = p.create(1, dynamic_body_at(0, 0), ball_collider());
    let h2 = p.create(2, dynamic_body_at(500, 0), ball_collider());
    p.step(
        &vec![],
        &vec![],
        &vec![ProximityEvent {
            collider1: h1,
            collider2: h2,
            prev_status: Proximity::Disjoint,
            new_status: Proximity::Intersecting,
        }],
    );
    let events = p.proximity_events();
    assert_eq!(events.len(), 1);
    assert_eq!(events[0].e1, 1);
    assert_eq!(events[0].e2, 2);
    assert_eq!(events[0].prev_status, Proximity::Disjoint);
    assert_eq!(events[0].new_status, Proximity::Intersecting);
}

#[test]
fn step_applies_reported_motion_and_clears_forces() {
    let mut p = Physics::new();
    let h = p.create(5, dynamic_body_at(0, 0), ball_collider());
    p.step(
        &vec![BodyUpdate {
            handle: h,
            pos: Vec2 { x: 2_000, y: 3_000 },
            angle: 100,
            forward: Vec2 { x: -100, y: 995 },
            linvel: Vec2 { x: 50, y: 60 },
            angvel: 7,
        }],
        &vec![],
        &vec![],
    );
    let b = p.body_of(h).unwrap();
    assert_eq!(b.pos, Vec2 { x: 2_000, y: 3_000 });
    assert_eq!(b.angle, 100);
    assert_eq!(b.linvel, Vec2 { x: 50, y: 60 });
    assert_eq!(b.angvel, 7);
    assert_eq!(b.force, Vec2 { x: 0, y: 0 });
    assert_eq!(b.torque, 0);
}

#[test]
fn update_for_an_unknown_handle_is_skipped() {
    let mut p = Physics::new();
    let h = p.create(5, dynamic_body_at(0, 0), ball_collider());
    p.step(
        &vec![BodyUpdate {
            handle: h + 17,
            pos: Vec2 { x: 9_000, y: 9_000 },
            angle: 0,
            forward: Vec2 { x: 0, y: 1000 },
            linvel: Vec2 { x: 0, y: 0 },
            angvel: 0,
        }],
        &vec![],
        &vec![],
    );
    let b = p.body_of(h).unwrap();
    assert_eq!(b.pos, Vec2 { x: 0, y: 0 });
}

#[test]
fn stale_handle_is_reported() {
    let mut p = Physics::new();
    let h = p.create(5, dynamic_body_at(0, 0), ball_collider());
    assert_eq!(p.remove(h), Ok(()));
    assert_eq!(p.remove(h), Err(PhysicsError::StaleHandle));
    assert_eq!(p.body_of(h), Err(PhysicsError::StaleHandle));
    assert_eq!(p.body_of(h + 1), Err(PhysicsError::StaleHandle));
}

#[test]
fn unknown_entity_for_handle_is_reported() {
    let mut p = Physics::new();
    let h = p.create(5, dynamic_body_at(0, 0), ball_collider());
    assert_eq!(p.entity_of(h), Ok(5));
    assert_eq!(p.remove(h), Ok(()));
    assert_eq!(p.entity_of(h), Err(PhysicsError::UnknownEntityForHandle));
}

#[test]
fn live_bodies_lists_only_live_slots_in_handle_order() {
    let mut p = Physics::new();
    let h1 = p.create(1, dynamic_body_at(0, 0), ball_collider());
    let h2 = p.create(2, dynamic_body_at(100, 0), ball_collider());
    let h3 = p.create(3, dynamic_body_at(200, 0), ball_collider());
    assert_eq!(p.remove(h2), Ok(()));
    let live = p.live_bodies();
    assert_eq!(live.len(), 2);
    assert_eq!(live[0].0, h1);
    assert_eq!(live[1].0, h3);
}

#[test]
fn cleanup_releases_bodies_of_departed_entities() {
    let mut world = World::new();
    let kept = world.insert(EntityRecord::empty(0));
    let gone = world.insert(EntityRecord::empty(0));
    let mut p = Physics::new();
    let h_kept = p.create(kept, dynamic_body_at(0, 0), ball_collider());
    let h_gone = p.create(gone, dynamic_body_at(100, 0), ball_collider());
    world.remove(gone);
    p.cleanup(&world);
    assert!(p.body_of(h_kept).is_ok());
    assert!(p.body_of(h_gone).is_err());
}
