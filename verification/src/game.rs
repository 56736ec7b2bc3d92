use vstd::prelude::*;

verus! {

use crate::components::Transform;
use crate::factories::{
    asteroid_template, built_record, bullet_body, bullet_template, bullet_transform,
    bullet_velocity, player_template, AsteroidBuilder, EntityBuilder, PlayerBuilder,
};
use crate::input::{InputEvent, InputState, Key};
use crate::math::Vec2;
use crate::physics::{
    slot_after_step, translate_contacts, translate_proximities, BodySlot, BodyUpdate,
    ColliderRecord, ContactEvent, EntityContactEvent, EntityProximityEvent, Physics,
    ProximityEvent,
};
use crate::resources::{WindowDimensions, WorldBounds};
use crate::store::{EntityRecord, World};
use crate::systems::{
    apply_events, culled, culled_handle, culling, find_player, handles_injective, hit_target,
    input_system, lemma_find_player_in, lemma_velocity_clamp, physics_transform, player_input,
    player_position, player_shoot, player_slot, resolve_hits, shoot_fires, steer_spec,
    lemma_filter_congruent, synced_record, transform_ok, transforms_wf, world_wrap, wrapped_body,
    ShootState,
    BULLET_SPEED, MAX_ANGULAR_VELOCITY, MAX_VELOCITY,
};
use crate::types::{Camera, InputEventQueue};

/// Every handle component refers to a live body whose reverse-map entry is
/// the entity holding the handle.
pub open spec fn links_ok(w: World, p: Physics) -> bool {
    forall|i: int|
        0 <= i < w.records().len() ==> match (#[trigger] w.records()[i]).handle {
            Some(h) => p.live(h) && p.entity_of_spec(h) == w.records()[i].id,
            None => true,
        }
}

/// Every live body belongs to an entity in the store, and that entity's
/// handle component is exactly this body's handle: no ghost bodies.
pub open spec fn bodies_ok(w: World, p: Physics) -> bool {
    forall|h: int|
        0 <= h < p.slots().len() && (#[trigger] p.slots()[h]).live ==> w.spec_contains(
            p.slots()[h].entity,
        ) && w.spec_get(p.slots()[h].entity).handle == Some(h as u64)
}

/// Under `links_ok` two distinct entities never hold the same handle.
pub proof fn lemma_links_injective(w: World, p: Physics)
    requires
        w.wf(),
        links_ok(w, p),
    ensures
        handles_injective(w),
{
    assert forall|i: int, j: int|
        0 <= i < w.records().len() && 0 <= j < w.records().len() && i != j && (
        #[trigger] w.records()[i]).handle is Some && (#[trigger] w.records()[j]).handle
            is Some implies w.records()[i].handle != w.records()[j].handle by {
        if w.records()[i].handle == w.records()[j].handle {
            let h = w.records()[i].handle->0;
            assert(p.entity_of_spec(h) == w.records()[i].id);
            assert(p.entity_of_spec(h) == w.records()[j].id);
            w.lemma_id_determines_index(i, j);
        }
    }
}

/// What one tick hands back for dispatch and logging: the tick's translated
/// contact and proximity events, and the entities hit by a projectile.
pub struct TickEvents {
    pub contacts: Vec<EntityContactEvent>,
    pub proximities: Vec<EntityProximityEvent>,
    pub hits: Vec<u64>,
}

/// A record with its transform replaced by the pose its body will have
/// right after the solver step is taken over; records without a body or a
/// transform, or with a stale handle, are untouched.
pub open spec fn record_after_step(r: EntityRecord, p: Physics, updates: Seq<BodyUpdate>) -> EntityRecord {
    match (r.handle, r.transform) {
        (Some(h), Some(t)) => if p.live(h) {
            EntityRecord {
                transform: Some(
                    Transform {
                        pos: slot_after_step(p.slots()[h as int], h as int, updates).body.pos,
                        angle: slot_after_step(p.slots()[h as int], h as int, updates).body.angle,
                        forward: slot_after_step(
                            p.slots()[h as int],
                            h as int,
                            updates,
                        ).body.forward,
                        scale: t.scale,
                    },
                ),
                ..r
            }
        } else {
            r
        },
        _ => r,
    }
}

/// The store's records as the tick's transform sync leaves them: each
/// simulated entity carries the pose its body took from the solver step.
pub open spec fn records_after_step(w: World, p: Physics, updates: Seq<BodyUpdate>) -> Seq<
    EntityRecord,
> {
    w.records().map_values(|r: EntityRecord| record_after_step(r, p, updates))
}

/// Handle lifecycle: under the simulation invariant the entity-handle links
/// form a one-to-one correspondence — every handle component refers to a
/// live body registered to its entity, no entity's handle dangles on a
/// removed body, no two entities hold the same handle, and every live body
/// is owned by exactly the entity holding its handle. `create` establishes
/// a link and `remove` severs it, each exactly once per entity, so a state
/// reached through them keeps this shape.
pub proof fn lemma_handle_lifecycle(g: Game)
    requires
        g.wf(),
    ensures
        forall|i: int|
            0 <= i < g.world.records().len() && (#[trigger] g.world.records()[i]).handle
                is Some ==> g.physics.live(g.world.records()[i].handle->0)
                && g.physics.entity_of_spec(g.world.records()[i].handle->0)
                == g.world.records()[i].id,
        handles_injective(g.world),
        forall|h: int|
            0 <= h < g.physics.slots().len() && (#[trigger] g.physics.slots()[h]).live
                ==> g.world.spec_contains(g.physics.slots()[h].entity) && g.world.spec_get(
                g.physics.slots()[h].entity,
            ).handle == Some(h as u64),
{
    lemma_links_injective(g.world, g.physics);
}

/// The whole simulation: the entity store, the physics bridge, the
/// per-tick resources, and the per-system local state, advanced tick by
/// tick in a fixed system order.
pub struct Game {
    pub world: World,
    pub physics: Physics,
    pub input_queue: InputEventQueue,
    pub input_state: InputState,
    pub bounds: WorldBounds,
    pub window: WindowDimensions,
    pub view: Camera,
    pub shoot: ShootState,
    pub frame_count: u64,
}

impl Game {
    /// The simulation invariant, held before and after every tick phase:
    /// both stores are well formed, every pose is in range, the
    /// entity-handle links form the exact one-to-one correspondence the
    /// bridge promises, the configuration is sane, and no translated event
    /// is left undrained across ticks.
    pub open spec fn wf(self) -> bool {
        &&& self.world.wf()
        &&& self.physics.wf()
        &&& transforms_wf(self.world)
        &&& links_ok(self.world, self.physics)
        &&& bodies_ok(self.world, self.physics)
        &&& self.bounds.wf()
        &&& self.window.wf()
        &&& self.view.origin.bounded()
        &&& self.physics.contacts_buffered() == Seq::<
            crate::physics::EntityContactEvent,
        >::empty()
        &&& self.physics.proximities_buffered() == Seq::<
            crate::physics::EntityProximityEvent,
        >::empty()
    }

    /// Create the starting scene: the player at the world's center and
    /// three asteroids, each with its rigid body registered.
    pub fn new() -> (g: Game)
        ensures
            g.wf(),
            g.world.records().len() == 4,
            g.physics.slots().len() == 4,
            g.world.records()[0] == built_record(
                player_template(
                    Transform { pos: Vec2 { x: 50_000, y: 25_000 }, ..Transform::identity() },
                ),
                0,
                0,
            ),
            g.world.records()[1] == built_record(
                asteroid_template(
                    Transform { pos: Vec2 { x: 50_000, y: 30_000 }, ..Transform::identity() },
                ),
                1,
                1,
            ),
            g.world.records()[2] == built_record(
                asteroid_template(
                    Transform { pos: Vec2 { x: 45_000, y: 30_000 }, ..Transform::identity() },
                ),
                2,
                2,
            ),
            g.world.records()[3] == built_record(
                asteroid_template(
                    Transform { pos: Vec2 { x: 55_000, y: 30_000 }, ..Transform::identity() },
                ),
                3,
                3,
            ),
            g.shoot.last_shot == (None::<u64>),
            g.frame_count == 0,
            g.input_queue.contents() == Seq::<InputEvent>::empty(),
            forall|k: Key| !g.input_state.spec_pressed(k),
            g.bounds == (WorldBounds { w: 100_000, h: 50_000 }),
            g.window == (WindowDimensions { w: 960, h: 540 }),
            g.view.origin == (Vec2 { x: 50_000, y: 25_000 }),
    {
        let mut world = World::new();
        let mut physics = Physics::new();
        let bounds = WorldBounds::default();
        let window = WindowDimensions::default();
        let center = bounds.center();
        let player_t = Transform::new().with_translation(center);
        let pb = PlayerBuilder::starting_from(player_t);
        pb.create(&mut world, &mut physics);
        let a1 = Transform::new().with_translation(Vec2 { x: 50_000, y: 30_000 });
        let a2 = Transform::new().with_translation(Vec2 { x: 45_000, y: 30_000 });
        let a3 = Transform::new().with_translation(Vec2 { x: 55_000, y: 30_000 });
        let ab = AsteroidBuilder { positions: Vec::new() }.add_asteroid(a1).add_asteroid(
            a2,
        ).add_asteroid(a3);
        proof {
            assert(pb.component_sets() =~= seq![
                player_template(
                    Transform { pos: Vec2 { x: 50_000, y: 25_000 }, ..Transform::identity() },
                ),
            ]);
            assert(ab.component_sets() =~= seq![
                asteroid_template(
                    Transform { pos: Vec2 { x: 50_000, y: 30_000 }, ..Transform::identity() },
                ),
                asteroid_template(
                    Transform { pos: Vec2 { x: 45_000, y: 30_000 }, ..Transform::identity() },
                ),
                asteroid_template(
                    Transform { pos: Vec2 { x: 55_000, y: 30_000 }, ..Transform::identity() },
                ),
            ]);
        }
        ab.create(&mut world, &mut physics);
        let g = Game {
            world,
            physics,
            input_queue: InputEventQueue::new(),
            input_state: InputState::new(),
            bounds,
            window,
            view: Camera { origin: center },
            shoot: ShootState { last_shot: None },
            frame_count: 0,
        };
        proof {
            assert(g.world.records()[0].handle == Some(0u64));
            assert(g.world.records()[1].handle == Some(1u64));
            assert(g.world.records()[2].handle == Some(2u64));
            assert(g.world.records()[3].handle == Some(3u64));
            assert(transforms_wf(g.world));
            assert(links_ok(g.world, g.physics));
            assert forall|h: int|
                0 <= h < g.physics.slots().len() && (#[trigger] g.physics.slots()[h]).live
                    implies g.world.spec_contains(g.physics.slots()[h].entity)
                && g.world.spec_get(g.physics.slots()[h].entity).handle == Some(h as u64) by {
                assert(g.physics.slots()[h].entity == h as u64);
                assert(g.world.records()[h].id == h as u64);
                let id = h as u64;
                assert(g.world.spec_contains(id));
                let w = g.world.spec_index_of(id);
                g.world.lemma_id_determines_index(w, h);
            }
        }
        g
    }


    /// The decision phase of one tick, in the fixed order: drain the raw
    /// input into the input state, apply this tick's input to the player's
    /// body, then fire if the fire key is held and the cooldown has
    /// elapsed. Runs before the solver step, so the applied forces are
    /// integrated this tick.
    pub fn begin_tick(&mut self, now_ms: u64)
        requires
            old(self).wf(),
            old(self).world.spec_next_id() + 1 <= u64::MAX,
            old(self).world.records().len() + 1 <= usize::MAX,
            old(self).physics.slots().len() + 1 <= 0x1000_0000_0000_0000,
        ensures
            final(self).wf(),
            final(self).input_state == apply_events(
                old(self).input_state,
                old(self).input_queue.contents(),
            ),
            final(self).input_queue.contents() == Seq::<InputEvent>::empty(),
            forall|h: int|
                0 <= h < final(self).physics.slots().len() && player_slot(
                    final(self).world,
                    final(self).physics,
                    h as u64,
                ) ==> {
                    &&& (#[trigger] final(self).physics.slots()[h]).body.linvel.norm2()
                        <= MAX_VELOCITY * MAX_VELOCITY
                    &&& -MAX_ANGULAR_VELOCITY <= final(self).physics.slots()[h].body.angvel
                        <= MAX_ANGULAR_VELOCITY
                },
            ({
                let st = apply_events(old(self).input_state, old(self).input_queue.contents());
                let fire = shoot_fires(old(self).world, st, old(self).shoot, now_ms);
                let t = find_player(old(self).world.records())->0.transform->0;
                let t2 = bullet_transform(t);
                let vel = bullet_velocity(t, BULLET_SPEED as int);
                &&& final(self).shoot == if fire {
                    ShootState { last_shot: Some(now_ms) }
                } else {
                    old(self).shoot
                }
                &&& forall|h: int|
                    0 <= h < old(self).physics.slots().len() ==> (
                    #[trigger] final(self).physics.slots()[h]) == (if player_slot(
                        old(self).world,
                        old(self).physics,
                        h as u64,
                    ) {
                        BodySlot {
                            body: steer_spec(old(self).physics.slots()[h].body, st),
                            ..old(self).physics.slots()[h]
                        }
                    } else {
                        old(self).physics.slots()[h]
                    })
                &&& fire ==> {
                    &&& final(self).world.records() == old(self).world.records().push(
                        built_record(
                            bullet_template(t2),
                            old(self).world.spec_next_id(),
                            old(self).physics.slots().len() as u64,
                        ),
                    )
                    &&& final(self).physics.slots().len() == old(self).physics.slots().len() + 1
                    &&& final(self).physics.slots()[old(self).physics.slots().len() as int] == (
                    BodySlot {
                        live: true,
                        entity: old(self).world.spec_next_id(),
                        body: bullet_body(t2, vel).build(),
                    })
                }
                &&& !fire ==> final(self).world == old(self).world
                &&& !fire ==> final(self).physics.slots().len() == old(
                    self,
                ).physics.slots().len()
            }),
            final(self).bounds == old(self).bounds,
            final(self).window == old(self).window,
            final(self).view == old(self).view,
            final(self).frame_count == old(self).frame_count,
    {
        input_system(&mut self.input_queue, &mut self.input_state);
        proof {
            lemma_links_injective(self.world, self.physics);
        }
        let ghost mid0 = *self;
        player_input(&self.world, &mut self.physics, &self.input_state);
        proof {
            assert forall|i: int|
                0 <= i < self.world.records().len() implies match (
            #[trigger] self.world.records()[i]).handle {
                Some(h) => self.physics.live(h) && self.physics.entity_of_spec(h)
                    == self.world.records()[i].id,
                None => true,
            } by {
                match self.world.records()[i].handle {
                    Some(h) => {
                        assert(mid0.physics.live(h));
                        assert(self.physics.slots()[h as int].live
                            == mid0.physics.slots()[h as int].live);
                        assert(self.physics.slots()[h as int].entity
                            == mid0.physics.slots()[h as int].entity);
                    },
                    None => {},
                }
            }
            assert forall|h: int|
                0 <= h < self.physics.slots().len() && (#[trigger] self.physics.slots()[h]).live
                    implies self.world.spec_contains(self.physics.slots()[h].entity)
                && self.world.spec_get(self.physics.slots()[h].entity).handle == Some(
                h as u64,
            ) by {
                assert(self.physics.slots()[h].live == mid0.physics.slots()[h].live);
                assert(self.physics.slots()[h].entity == mid0.physics.slots()[h].entity);
            }
            assert(links_ok(self.world, self.physics));
            assert(bodies_ok(self.world, self.physics));
        }
        let ghost mid = *self;
        player_shoot(
            &mut self.world,
            &mut self.physics,
            &self.input_state,
            &mut self.shoot,
            now_ms,
        );
        proof {
            let fire = shoot_fires(mid.world, mid.input_state, mid.shoot, now_ms);
            let oldn = mid.physics.slots().len();
            if fire {
                let newid = mid.world.spec_next_id();
                let newh = oldn as u64;
                assert forall|i: int|
                    0 <= i < self.world.records().len() implies match (
                #[trigger] self.world.records()[i]).handle {
                    Some(h) => self.physics.live(h) && self.physics.entity_of_spec(h)
                        == self.world.records()[i].id,
                    None => true,
                } by {
                    if i < mid.world.records().len() {
                        assert(self.world.records()[i] == mid.world.records()[i]);
                        match mid.world.records()[i].handle {
                            Some(h) => {
                                assert(mid.physics.live(h));
                                assert(self.physics.slots()[h as int]
                                    == mid.physics.slots()[h as int]);
                            },
                            None => {},
                        }
                    } else {
                        assert(self.world.records()[i].handle == Some(newh));
                        assert(self.physics.slots()[oldn as int].live);
                    }
                }
                assert forall|h: int|
                    0 <= h < self.physics.slots().len() && (
                #[trigger] self.physics.slots()[h]).live implies self.world.spec_contains(
                    self.physics.slots()[h].entity,
                ) && self.world.spec_get(self.physics.slots()[h].entity).handle == Some(
                    h as u64,
                ) by {
                    if h < oldn {
                        assert(self.physics.slots()[h] == mid.physics.slots()[h]);
                        let e = mid.physics.slots()[h].entity;
                        assert(mid.world.spec_contains(e));
                        let k = mid.world.spec_index_of(e);
                        assert(self.world.records()[k] == mid.world.records()[k]);
                        assert(self.world.spec_contains(e));
                        let w = self.world.spec_index_of(e);
                        self.world.lemma_id_determines_index(w, k);
                    } else {
                        let e = self.physics.slots()[h].entity;
                        assert(e == newid);
                        let last = self.world.records().len() - 1;
                        assert(self.world.records()[last].id == newid);
                        assert(self.world.spec_contains(e));
                        let w = self.world.spec_index_of(e);
                        self.world.lemma_id_determines_index(w, last);
                    }
                }
                assert(links_ok(self.world, self.physics));
                assert(bodies_ok(self.world, self.physics));
            }
            assert forall|h: int|
                0 <= h < self.physics.slots().len() && player_slot(
                    self.world,
                    self.physics,
                    h as u64,
                ) implies {
                &&& (#[trigger] self.physics.slots()[h]).body.linvel.norm2() <= MAX_VELOCITY
                    * MAX_VELOCITY
                &&& -MAX_ANGULAR_VELOCITY <= self.physics.slots()[h].body.angvel
                    <= MAX_ANGULAR_VELOCITY
            } by {
                let k = choose|k: int|
                    0 <= k < self.world.records().len() && (
                    #[trigger] self.world.records()[k]).player is Some
                        && self.world.records()[k].handle == Some(h as u64) && self.physics.live(
                        h as u64,
                    );
                if fire && k == self.world.records().len() - 1 && k >= mid.world.records().len() {
                    assert(self.world.records()[k].player is None);
                    assert(false);
                }
                assert(self.world.records()[k] == mid.world.records()[k]);
                if h >= oldn {
                    mid0.physics.lemma_slots_len_bound();
                    assert(mid.world.records()[k].handle == Some(h as u64));
                    assert(mid.physics.live(h as u64));
                    assert(false);
                }
                assert(self.physics.slots()[h] == mid.physics.slots()[h]);
                assert(player_slot(mid0.world, mid0.physics, h as u64)) by {
                    assert(mid0.world.records()[k].player is Some);
                    assert(mid0.world.records()[k].handle == Some(h as u64));
                    assert(mid0.physics.live(h as u64)) by {
                        assert(mid.physics.slots()[h].live == mid0.physics.slots()[h].live);
                    }
                }
                assert(mid.physics.slots()[h] == (BodySlot {
                    body: steer_spec(mid0.physics.slots()[h].body, mid0.input_state),
                    ..mid0.physics.slots()[h]
                }));
                lemma_velocity_clamp(mid0.physics.slots()[h].body, mid0.input_state);
            }
        }
    }


    /// The outcome phase of one tick, after the solver has stepped: apply
    /// the solver's reported motion and translate its events, copy body
    /// poses into transforms, recompute the camera from the player, fold
    /// every body back into the toroidal world, remove transient entities
    /// that left the view together with their bodies, and dispatch the
    /// tick's translated events.
    pub fn finish_tick(
        &mut self,
        updates: &Vec<BodyUpdate>,
        contacts: &Vec<ContactEvent>,
        proximities: &Vec<ProximityEvent>,
    ) -> (r: TickEvents)
        requires
            old(self).wf(),
            forall|k: int| 0 <= k < updates@.len() ==> (#[trigger] updates@[k]).bounded(),
        ensures
            final(self).wf(),
            r.contacts@ == translate_contacts(old(self).physics.handle_map(), contacts@),
            r.proximities@ == translate_proximities(old(self).physics.handle_map(), proximities@),
            r.hits@ == r.proximities@.filter_map(
                |e: EntityProximityEvent| hit_target(final(self).world, e),
            ),
            forall|h: int|
                0 <= h < final(self).physics.slots().len() && (
                #[trigger] final(self).physics.slots()[h]).live ==> {
                    &&& 0 <= final(self).physics.slots()[h].body.pos.x < final(self).bounds.w
                    &&& 0 <= final(self).physics.slots()[h].body.pos.y < final(self).bounds.h
                },
            forall|i: int|
                0 <= i < final(self).world.records().len() ==> !culled(
                    #[trigger] final(self).world.records()[i],
                    final(self).view,
                    final(self).window,
                ),
            ({
                let synced = records_after_step(old(self).world, old(self).physics, updates@);
                let cam = match find_player(synced) {
                    Some(r) => Camera { origin: r.transform->0.pos },
                    None => old(self).view,
                };
                &&& final(self).view == cam
                &&& final(self).world.records() == synced.filter(
                    |r: EntityRecord| !culled(r, cam, old(self).window),
                )
                &&& forall|h: int|
                    0 <= h < old(self).physics.slots().len() ==> (
                    #[trigger] final(self).physics.slots()[h]) == ({
                        let stepped = slot_after_step(old(self).physics.slots()[h], h, updates@);
                        let wrapped = if stepped.live {
                            BodySlot {
                                body: wrapped_body(stepped.body, old(self).bounds),
                                ..stepped
                            }
                        } else {
                            stepped
                        };
                        if stepped.live && culled_handle(synced, cam, old(self).window, h as u64) {
                            BodySlot { live: false, ..wrapped }
                        } else {
                            wrapped
                        }
                    })
            }),
            final(self).bounds == old(self).bounds,
            final(self).window == old(self).window,
            final(self).input_state == old(self).input_state,
            final(self).input_queue == old(self).input_queue,
            final(self).shoot == old(self).shoot,
            final(self).frame_count == if old(self).frame_count < u64::MAX {
                old(self).frame_count + 1
            } else {
                u64::MAX as int
            },
    {
        let ghost g0 = *self;
        self.physics.step(updates, contacts, proximities);
        proof {
            assert forall|i: int|
                0 <= i < self.world.records().len() implies match (
            #[trigger] self.world.records()[i]).handle {
                Some(h) => self.physics.live(h) && self.physics.entity_of_spec(h)
                    == self.world.records()[i].id,
                None => true,
            } by {
                match self.world.records()[i].handle {
                    Some(h) => {
                        assert(g0.physics.live(h));
                        assert(self.physics.slots()[h as int] == slot_after_step(
                            g0.physics.slots()[h as int],
                            h as int,
                            updates@,
                        ));
                    },
                    None => {},
                }
            }
            assert forall|h: int|
                0 <= h < self.physics.slots().len() && (#[trigger] self.physics.slots()[h]).live
                    implies self.world.spec_contains(self.physics.slots()[h].entity)
                && self.world.spec_get(self.physics.slots()[h].entity).handle == Some(
                h as u64,
            ) by {
                assert(self.physics.slots()[h] == slot_after_step(
                    g0.physics.slots()[h],
                    h,
                    updates@,
                ));
            }
            assert(links_ok(self.world, self.physics));
            assert(bodies_ok(self.world, self.physics));
        }
        let ghost g1 = *self;
        physics_transform(&mut self.world, &self.physics);
        proof {
            assert forall|i: int|
                0 <= i < self.world.records().len() implies match (
            #[trigger] self.world.records()[i]).handle {
                Some(h) => self.physics.live(h) && self.physics.entity_of_spec(h)
                    == self.world.records()[i].id,
                None => true,
            } by {
                assert(self.world.records()[i] == synced_record(
                    g1.world.records()[i],
                    g1.physics,
                ));
                assert(self.world.records()[i].handle == g1.world.records()[i].handle);
                assert(self.world.records()[i].id == g1.world.records()[i].id);
            }
            assert forall|h: int|
                0 <= h < self.physics.slots().len() && (#[trigger] self.physics.slots()[h]).live
                    implies self.world.spec_contains(self.physics.slots()[h].entity)
                && self.world.spec_get(self.physics.slots()[h].entity).handle == Some(
                h as u64,
            ) by {
                let e = self.physics.slots()[h].entity;
                assert(g1.world.spec_contains(e));
                let k = g1.world.spec_index_of(e);
                assert(self.world.records()[k] == synced_record(
                    g1.world.records()[k],
                    g1.physics,
                ));
                assert(self.world.records()[k].id == e);
                assert(self.world.spec_contains(e));
                let w = self.world.spec_index_of(e);
                self.world.lemma_id_determines_index(w, k);
                assert(self.world.records()[k].handle == g1.world.records()[k].handle);
            }
            assert(links_ok(self.world, self.physics));
            assert(bodies_ok(self.world, self.physics));
        }
        player_position(&self.world, &mut self.view);
        proof {
            lemma_find_player_in(self.world.records());
            match find_player(self.world.records()) {
                Some(rec) => {
                    let k = choose|k: int|
                        0 <= k < self.world.records().len() && (
                        #[trigger] self.world.records()[k]) == rec;
                    assert(transform_ok(self.world.records()[k]));
                    assert(self.view.origin.bounded());
                },
                None => {},
            }
        }
        let ghost g2 = *self;
        world_wrap(&mut self.physics, &self.bounds);
        proof {
            assert forall|i: int|
                0 <= i < self.world.records().len() implies match (
            #[trigger] self.world.records()[i]).handle {
                Some(h) => self.physics.live(h) && self.physics.entity_of_spec(h)
                    == self.world.records()[i].id,
                None => true,
            } by {
                match self.world.records()[i].handle {
                    Some(h) => {
                        assert(g2.physics.live(h));
                        assert(self.physics.slots()[h as int].live == g2.physics.slots()[
                            h as int].live);
                        assert(self.physics.slots()[h as int].entity == g2.physics.slots()[
                            h as int].entity);
                    },
                    None => {},
                }
            }
            assert forall|h: int|
                0 <= h < self.physics.slots().len() && (#[trigger] self.physics.slots()[h]).live
                    implies self.world.spec_contains(self.physics.slots()[h].entity)
                && self.world.spec_get(self.physics.slots()[h].entity).handle == Some(
                h as u64,
            ) by {
                assert(self.physics.slots()[h].live == g2.physics.slots()[h].live);
                assert(self.physics.slots()[h].entity == g2.physics.slots()[h].entity);
            }
            assert(links_ok(self.world, self.physics));
            assert(bodies_ok(self.world, self.physics));
            lemma_links_injective(self.world, self.physics);
        }
        let ghost g3 = *self;
        culling(&mut self.world, &mut self.physics, &self.window, &self.view);
        proof {
            let cpred = |r: EntityRecord| !culled(r, g3.view, g3.window);
            assert forall|i: int|
                0 <= i < self.world.records().len() implies match (
            #[trigger] self.world.records()[i]).handle {
                Some(h) => self.physics.live(h) && self.physics.entity_of_spec(h)
                    == self.world.records()[i].id,
                None => true,
            } by {
                let kept = g3.world.records().filter(cpred);
                assert(kept.contains(kept[i]));
                g3.world.records().lemma_filter_contains_rev(cpred, kept[i]);
                let k = choose|k: int|
                    0 <= k < g3.world.records().len() && g3.world.records()[k] == kept[i];
                g3.world.records().lemma_filter_pred(cpred, i);
                match self.world.records()[i].handle {
                    Some(h) => {
                        assert(g3.physics.live(h));
                        assert(!culled_handle(g3.world.records(), g3.view, g3.window, h)) by {
                            if culled_handle(g3.world.records(), g3.view, g3.window, h) {
                                let m = choose|m: int|
                                    0 <= m < g3.world.records().len() && culled(
                                        #[trigger] g3.world.records()[m],
                                        g3.view,
                                        g3.window,
                                    ) && g3.world.records()[m].handle == Some(h);
                                if m != k {
                                    assert(g3.world.records()[m].handle == g3.world.records()[
                                        k].handle);
                                    assert(false);
                                }
                                assert(false);
                            }
                        }
                        assert(self.physics.slots()[h as int] == g3.physics.slots()[h as int]);
                    },
                    None => {},
                }
            }
            assert forall|h: int|
                0 <= h < self.physics.slots().len() && (#[trigger] self.physics.slots()[h]).live
                    implies self.world.spec_contains(self.physics.slots()[h].entity)
                && self.world.spec_get(self.physics.slots()[h].entity).handle == Some(
                h as u64,
            ) by {
                assert(g3.physics.slots()[h].live) by {
                    if !g3.physics.slots()[h].live {
                        assert(self.physics.slots()[h] == g3.physics.slots()[h]);
                    }
                }
                assert(!culled_handle(g3.world.records(), g3.view, g3.window, h as u64)) by {
                    if culled_handle(g3.world.records(), g3.view, g3.window, h as u64) {
                        assert(self.physics.slots()[h] == (BodySlot {
                            live: false,
                            ..g3.physics.slots()[h]
                        }));
                    }
                }
                assert(self.physics.slots()[h] == g3.physics.slots()[h]);
                let e = g3.physics.slots()[h].entity;
                assert(g3.world.spec_contains(e));
                let k = g3.world.spec_index_of(e);
                assert(g3.world.records()[k].handle == Some(h as u64));
                assert(!culled(g3.world.records()[k], g3.view, g3.window)) by {
                    if culled(g3.world.records()[k], g3.view, g3.window) {
                        assert(culled_handle(g3.world.records(), g3.view, g3.window, h as u64));
                    }
                }
                g3.world.records().lemma_filter_contains(cpred, k);
                let kept = g3.world.records().filter(cpred);
                let w = choose|w: int| 0 <= w < kept.len() && kept[w] == g3.world.records()[k];
                assert(self.world.records()[w].id == e);
                assert(self.world.spec_contains(e));
                let v = self.world.spec_index_of(e);
                self.world.lemma_id_determines_index(v, w);
            }
            assert(links_ok(self.world, self.physics));
            assert(bodies_ok(self.world, self.physics));
            assert forall|h: int|
                0 <= h < self.physics.slots().len() && (#[trigger] self.physics.slots()[h]).live
                    implies {
                &&& 0 <= self.physics.slots()[h].body.pos.x < self.bounds.w
                &&& 0 <= self.physics.slots()[h].body.pos.y < self.bounds.h
            } by {
                assert(g3.physics.slots()[h].live) by {
                    if !g3.physics.slots()[h].live {
                        assert(self.physics.slots()[h] == g3.physics.slots()[h]);
                    }
                }
                assert(self.physics.slots()[h].body == g3.physics.slots()[h].body) by {
                    if culled_handle(g3.world.records(), g3.view, g3.window, h as u64) {
                        assert(self.physics.slots()[h] == (BodySlot {
                            live: false,
                            ..g3.physics.slots()[h]
                        }));
                    } else {
                        assert(self.physics.slots()[h] == g3.physics.slots()[h]);
                    }
                }
            }
            assert forall|i: int|
                0 <= i < self.world.records().len() implies !culled(
                    #[trigger] self.world.records()[i],
                    self.view,
                    self.window,
                ) by {
                g3.world.records().lemma_filter_pred(cpred, i);
            }
        }
        proof {
            let synced = records_after_step(g0.world, g0.physics, updates@);
            assert(g2.world.records() =~= synced) by {
                assert forall|i: int|
                    0 <= i < g1.world.records().len() implies (#[trigger] g2.world.records()[i])
                        == record_after_step(g0.world.records()[i], g0.physics, updates@) by {
                    assert(g2.world.records()[i] == synced_record(
                        g1.world.records()[i],
                        g1.physics,
                    ));
                    let r = g0.world.records()[i];
                    match (r.handle, r.transform) {
                        (Some(h), Some(t)) => {
                            assert(g1.physics.slots()[h as int] == slot_after_step(
                                g0.physics.slots()[h as int],
                                h as int,
                                updates@,
                            ));
                        },
                        _ => {},
                    }
                }
            }
            let cam = match find_player(synced) {
                Some(r) => Camera { origin: r.transform->0.pos },
                None => g0.view,
            };
            assert(self.view == cam);
            assert(g3.world.records() =~= synced);
            let p1 = |r: EntityRecord| !culled(r, g3.view, g3.window);
            let p2 = |r: EntityRecord| !culled(r, cam, g0.window);
            assert forall|i: int|
                0 <= i < synced.len() implies p1(#[trigger] synced[i]) == p2(synced[i]) by {}
            lemma_filter_congruent(synced, p1, p2);
            assert(self.world.records() == synced.filter(p2));
            assert forall|h: int|
                0 <= h < g0.physics.slots().len() implies (#[trigger] self.physics.slots()[h])
                    == ({
                    let stepped = slot_after_step(g0.physics.slots()[h], h, updates@);
                    let wrapped = if stepped.live {
                        BodySlot { body: wrapped_body(stepped.body, g0.bounds), ..stepped }
                    } else {
                        stepped
                    };
                    if stepped.live && culled_handle(synced, cam, g0.window, h as u64) {
                        BodySlot { live: false, ..wrapped }
                    } else {
                        wrapped
                    }
                }) by {
                let stepped = slot_after_step(g0.physics.slots()[h], h, updates@);
                assert(g1.physics.slots()[h] == stepped);
                assert(g2.physics.slots()[h] == stepped);
                if stepped.live {
                    assert(g3.physics.slots()[h] == (BodySlot {
                        body: wrapped_body(stepped.body, g0.bounds),
                        ..stepped
                    }));
                } else {
                    assert(g3.physics.slots()[h] == stepped);
                }
                assert(culled_handle(g3.world.records(), g3.view, g3.window, h as u64)
                    == culled_handle(synced, cam, g0.window, h as u64));
            }
        }
        let pevents = self.physics.proximity_events();
        let cevents = self.physics.contact_events();
        let hits = resolve_hits(&self.world, &pevents);
        proof {
            assert(cevents@ =~= translate_contacts(g0.physics.handle_map(), contacts@));
            assert(pevents@ =~= translate_proximities(g0.physics.handle_map(), proximities@));
        }
        if self.frame_count < u64::MAX {
            self.frame_count = self.frame_count + 1;
        }
        TickEvents { contacts: cevents, proximities: pevents, hits }
    }

    /// Queue a raw platform input event for the next tick.
    pub fn log_event(&mut self, e: InputEvent)
        ensures
            final(self).input_queue.contents() == old(self).input_queue.contents().push(e),
            final(self).world == old(self).world,
            final(self).physics == old(self).physics,
            final(self).input_state == old(self).input_state,
            final(self).bounds == old(self).bounds,
            final(self).window == old(self).window,
            final(self).view == old(self).view,
            final(self).shoot == old(self).shoot,
            final(self).frame_count == old(self).frame_count,
            old(self).wf() ==> final(self).wf(),
    {
        self.input_queue.push(e);
    }
}

} // verus!
