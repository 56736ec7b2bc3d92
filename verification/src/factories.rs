use vstd::prelude::*;

verus! {

use crate::components::{
    Cull, EntityTag, Health, Player, Projectile, Rgb, Sprite, Transform, TAG_ASTEROID,
    TAG_ENEMY_OR_ASTEROID, TAG_PLAYER, TAG_PROJECTILE,
};
use crate::math::{scale_to_magnitude, scale_to_spec, Vec2, COORD_LIMIT, SCALE};
use crate::physics::{BodySlot, BodySpec, ColliderRecord, ColliderSpec, Physics, Shape};
use crate::store::{EntityRecord, World};

/// How far ahead of the shooter a bullet spawns, in sub-units.
pub const BULLET_OFFSET: i64 = 1250;

/// A record template completed with its fresh identity and its body handle.
pub open spec fn built_record(template: EntityRecord, id: u64, h: u64) -> EntityRecord {
    EntityRecord { id, handle: Some(h), ..template }
}

/// A record template completed with its fresh identity, before its body
/// handle is attached.
pub open spec fn inserted_record(template: EntityRecord, id: u64) -> EntityRecord {
    EntityRecord { id, ..template }
}

/// A declarative description of a batch of entities to spawn: the component
/// template of each, and the rigid body and collider each gets.
pub trait EntityBuilder {
    /// The component sets this builder describes, one per entity. The `id`
    /// and `handle` fields of the templates are placeholders; `create` fills
    /// them in.
    spec fn component_sets(&self) -> Seq<EntityRecord>;

    /// The rigid body and collider for each entity, in the same order as
    /// `component_sets`.
    spec fn body_plans(&self) -> Seq<(BodySpec, ColliderSpec)>;

    /// The builder's own validity: every described pose is in range.
    spec fn builder_wf(&self) -> bool;

    /// A builder describes exactly one body per component set, so the
    /// two-phase spawn can never mismatch entities and handles.
    proof fn arity(&self)
        ensures
            self.component_sets().len() == self.body_plans().len(),
        ;

    /// Bodies described by a well-formed builder are in range.
    proof fn plans_bounded(&self)
        requires
            self.builder_wf(),
        ensures
            forall|k: int|
                0 <= k < self.body_plans().len() ==> (#[trigger] self.body_plans()[k]).0.bounded(),
        ;

    /// The component tuples to insert into the store. Pure: no side effects.
    fn components(&self) -> (r: Vec<EntityRecord>)
        ensures
            r@ == self.component_sets(),
    ;

    /// Construct the rigid body and collider for each entity, registering
    /// each via the physics bridge, in the same order as `components`.
    fn create_physics(&self, physics: &mut Physics, entities: &Vec<u64>) -> (hs: Vec<u64>)
        requires
            self.builder_wf(),
            old(physics).wf(),
            entities@.len() == self.body_plans().len(),
            old(physics).slots().len() + self.body_plans().len() <= 0x1000_0000_0000_0000,
        ensures
            hs@ == Seq::new(
                self.body_plans().len(),
                |k: int| (old(physics).slots().len() + k) as u64,
            ),
            final(physics).slots() == old(physics).slots() + Seq::new(
                self.body_plans().len(),
                |k: int|
                    BodySlot {
                        live: true,
                        entity: entities@[k],
                        body: self.body_plans()[k].0.build(),
                    },
            ),
            final(physics).colliders() == old(physics).colliders() + Seq::new(
                self.body_plans().len(),
                |k: int|
                    ColliderRecord {
                        handle: (old(physics).slots().len() + k) as u64,
                        collider: self.body_plans()[k].1,
                    },
            ),
            final(physics).contacts_buffered() == old(physics).contacts_buffered(),
            final(physics).proximities_buffered() == old(physics).proximities_buffered(),
            final(physics).wf(),
    ;

    /// The two-phase spawn: insert the entities with their non-physics
    /// components first, so they have identities; then create their bodies
    /// registered under those identities; then attach each handle to its
    /// entity. A builder describing zero entities is a no-op.
    fn create(&self, world: &mut World, physics: &mut Physics)
        requires
            self.builder_wf(),
            old(world).wf(),
            old(physics).wf(),
            old(world).spec_next_id() + self.component_sets().len() <= u64::MAX,
            old(world).records().len() + self.component_sets().len() <= usize::MAX,
            old(physics).slots().len() + self.component_sets().len() <= 0x1000_0000_0000_0000,
        ensures
            final(world).records() == old(world).records() + Seq::new(
                self.component_sets().len(),
                |k: int|
                    built_record(
                        self.component_sets()[k],
                        (old(world).spec_next_id() + k) as u64,
                        (old(physics).slots().len() + k) as u64,
                    ),
            ),
            final(world).spec_next_id() == old(world).spec_next_id()
                + self.component_sets().len(),
            final(world).wf(),
            final(physics).slots() == old(physics).slots() + Seq::new(
                self.component_sets().len(),
                |k: int|
                    BodySlot {
                        live: true,
                        entity: (old(world).spec_next_id() + k) as u64,
                        body: self.body_plans()[k].0.build(),
                    },
            ),
            final(physics).colliders() == old(physics).colliders() + Seq::new(
                self.component_sets().len(),
                |k: int|
                    ColliderRecord {
                        handle: (old(physics).slots().len() + k) as u64,
                        collider: self.body_plans()[k].1,
                    },
            ),
            final(physics).contacts_buffered() == old(physics).contacts_buffered(),
            final(physics).proximities_buffered() == old(physics).proximities_buffered(),
            final(physics).wf(),
    {
        proof {
            self.arity();
        }
        let ghost base_id = world.spec_next_id();
        let ghost base_h = physics.slots().len();
        let sets = self.components();
        let n = sets.len();
        let base = world.len();
        let mut entities: Vec<u64> = Vec::new();
        let mut i: usize = 0;
        while i < n
            invariant
                self.builder_wf(),
                n == self.component_sets().len(),
                0 <= i <= n,
                sets@ == self.component_sets(),
                base == old(world).records().len(),
                base_id == old(world).spec_next_id(),
                base_id + n <= u64::MAX,
                world.wf(),
                world.spec_next_id() == base_id + i,
                world.records() == old(world).records() + Seq::new(
                    i as nat,
                    |k: int| inserted_record(self.component_sets()[k], (base_id + k) as u64),
                ),
                entities@ == Seq::new(i as nat, |k: int| (base_id + k) as u64),
                physics == old(physics),
            decreases n - i,
        {
            let id = world.insert(sets[i]);
            entities.push(id);
            proof {
                assert(world.records() =~= old(world).records() + Seq::new(
                    (i + 1) as nat,
                    |k: int| inserted_record(self.component_sets()[k], (base_id + k) as u64),
                ));
                assert(entities@ =~= Seq::new((i + 1) as nat, |k: int| (base_id + k) as u64));
            }
            i = i + 1;
        }
        let handles = self.create_physics(physics, &entities);
        let mut j: usize = 0;
        while j < n
            invariant
                n == self.component_sets().len(),
                n == self.body_plans().len(),
                0 <= j <= n,
                base + n <= usize::MAX,
                base == old(world).records().len(),
                base_id == old(world).spec_next_id(),
                base_h == old(physics).slots().len(),
                world.wf(),
                world.spec_next_id() == base_id + n,
                world.records().len() == base + n,
                handles@ == Seq::new(n as nat, |k: int| (base_h + k) as u64),
                world.records() == old(world).records() + Seq::new(
                    n as nat,
                    |k: int|
                        if k < j {
                            built_record(
                                self.component_sets()[k],
                                (base_id + k) as u64,
                                (base_h + k) as u64,
                            )
                        } else {
                            inserted_record(self.component_sets()[k], (base_id + k) as u64)
                        },
                ),
            decreases n - j,
        {
            let idx = base + j;
            let rec = world.record_at(idx);
            world.set_at(idx, EntityRecord { handle: Some(handles[j]), ..rec });
            proof {
                assert(world.records() =~= old(world).records() + Seq::new(
                    n as nat,
                    |k: int|
                        if k < j + 1 {
                            built_record(
                                self.component_sets()[k],
                                (base_id + k) as u64,
                                (base_h + k) as u64,
                            )
                        } else {
                            inserted_record(self.component_sets()[k], (base_id + k) as u64)
                        },
                ));
            }
            j = j + 1;
        }
        proof {
            assert(final(world).records() =~= old(world).records() + Seq::new(
                self.component_sets().len(),
                |k: int|
                    built_record(
                        self.component_sets()[k],
                        (old(world).spec_next_id() + k) as u64,
                        (old(physics).slots().len() + k) as u64,
                    ),
            ));
        }
    }
}

/// Register one body and one collider per entity, under consecutive fresh
/// handles; the shared implementation behind every builder's
/// `create_physics`.
fn create_bodies(
    physics: &mut Physics,
    entities: &Vec<u64>,
    plans: &Vec<(BodySpec, ColliderSpec)>,
) -> (hs: Vec<u64>)
    requires
        old(physics).wf(),
        entities@.len() == plans@.len(),
        old(physics).slots().len() + plans@.len() <= 0x1000_0000_0000_0000,
        forall|k: int| 0 <= k < plans@.len() ==> (#[trigger] plans@[k]).0.bounded(),
    ensures
        hs@ == Seq::new(plans@.len(), |k: int| (old(physics).slots().len() + k) as u64),
        final(physics).slots() == old(physics).slots() + Seq::new(
            plans@.len(),
            |k: int| BodySlot { live: true, entity: entities@[k], body: plans@[k].0.build() },
        ),
        final(physics).colliders() == old(physics).colliders() + Seq::new(
            plans@.len(),
            |k: int|
                ColliderRecord {
                    handle: (old(physics).slots().len() + k) as u64,
                    collider: plans@[k].1,
                },
        ),
        final(physics).contacts_buffered() == old(physics).contacts_buffered(),
        final(physics).proximities_buffered() == old(physics).proximities_buffered(),
        final(physics).wf(),
{
    let ghost base_h = physics.slots().len();
    let n = plans.len();
    let mut hs: Vec<u64> = Vec::new();
    let mut i: usize = 0;
    while i < n
        invariant
            old(physics).wf(),
            n == plans@.len(),
            n == entities@.len(),
            0 <= i <= n,
            base_h == old(physics).slots().len(),
            base_h + n <= 0x1000_0000_0000_0000,
            forall|k: int| 0 <= k < plans@.len() ==> (#[trigger] plans@[k]).0.bounded(),
            physics.wf(),
            hs@ == Seq::new(i as nat, |k: int| (base_h + k) as u64),
            physics.slots() == old(physics).slots() + Seq::new(
                i as nat,
                |k: int| BodySlot { live: true, entity: entities@[k], body: plans@[k].0.build() },
            ),
            physics.colliders() == old(physics).colliders() + Seq::new(
                i as nat,
                |k: int|
                    ColliderRecord { handle: (base_h + k) as u64, collider: plans@[k].1 },
            ),
            physics.contacts_buffered() == old(physics).contacts_buffered(),
            physics.proximities_buffered() == old(physics).proximities_buffered(),
        decreases n - i,
    {
        let (body_spec, collider) = plans[i];
        let mut colliders: Vec<ColliderSpec> = Vec::new();
        colliders.push(collider);
        let h = physics.create(entities[i], body_spec, colliders);
        hs.push(h);
        proof {
            assert(hs@ =~= Seq::new((i + 1) as nat, |k: int| (base_h + k) as u64));
            assert(physics.slots() =~= old(physics).slots() + Seq::new(
                (i + 1) as nat,
                |k: int| BodySlot { live: true, entity: entities@[k], body: plans@[k].0.build() },
            ));
            let single = seq![collider].map_values(
                |c: ColliderSpec| ColliderRecord { handle: h, collider: c },
            );
            assert(single =~= seq![ColliderRecord { handle: h, collider: collider }]);
            assert(physics.colliders() =~= old(physics).colliders() + Seq::new(
                (i + 1) as nat,
                |k: int| ColliderRecord { handle: (base_h + k) as u64, collider: plans@[k].1 },
            ));
        }
        i = i + 1;
    }
    hs
}

/// The component template of an asteroid at pose `t`.
pub open spec fn asteroid_template(t: Transform) -> EntityRecord {
    EntityRecord {
        id: 0,
        transform: Some(t),
        sprite: Some(Sprite { index: 3, color: Rgb { red: 255, green: 255, blue: 255 } }),
        tag: Some(EntityTag(TAG_ASTEROID)),
        health: Some(Health(4)),
        projectile: None,
        player: None,
        cull: None,
        handle: None,
    }
}

/// The rigid body of an asteroid: a resting dynamic body at the asteroid's
/// full pose.
pub open spec fn asteroid_body(t: Transform) -> BodySpec {
    BodySpec {
        pos: t.pos,
        angle: t.angle,
        forward: t.forward,
        linvel: Vec2 { x: 0, y: 0 },
        angvel: 0,
        can_sleep: true,
    }
}

/// An asteroid's collider: a dense ball.
pub open spec fn asteroid_collider() -> ColliderSpec {
    ColliderSpec { shape: Shape::Ball { radius: 200 }, density: 20000, sensor: false }
}

/// Spawns asteroids, one per added pose.
#[derive(Debug)]
pub struct AsteroidBuilder {
    pub positions: Vec<Transform>,
}

impl AsteroidBuilder {
    /// Add one asteroid at pose `t` to the batch.
    pub fn add_asteroid(self, t: Transform) -> (r: AsteroidBuilder)
        ensures
            r.positions@ == self.positions@.push(t),
    {
        let mut positions = self.positions;
        positions.push(t);
        AsteroidBuilder { positions }
    }
}

impl Default for AsteroidBuilder {
    fn default() -> (r: AsteroidBuilder)
        ensures
            r.positions@ == Seq::<Transform>::empty(),
    {
        AsteroidBuilder { positions: Vec::new() }
    }
}

impl EntityBuilder for AsteroidBuilder {
    open spec fn component_sets(&self) -> Seq<EntityRecord> {
        self.positions@.map_values(|t: Transform| asteroid_template(t))
    }

    open spec fn body_plans(&self) -> Seq<(BodySpec, ColliderSpec)> {
        self.positions@.map_values(|t: Transform| (asteroid_body(t), asteroid_collider()))
    }

    open spec fn builder_wf(&self) -> bool {
        forall|k: int| 0 <= k < self.positions@.len() ==> (#[trigger] self.positions@[k]).wf()
    }

    proof fn arity(&self) {
    }

    proof fn plans_bounded(&self) {
        assert forall|k: int|
            0 <= k < self.body_plans().len() implies (#[trigger] self.body_plans()[k]).0.bounded()
        by {
            assert(self.positions@[k].wf());
        }
    }

    fn components(&self) -> (r: Vec<EntityRecord>)
        ensures
            r@ == self.component_sets(),
    {
        let n = self.positions.len();
        let mut out: Vec<EntityRecord> = Vec::new();
        let mut i: usize = 0;
        while i < n
            invariant
                n == self.positions@.len(),
                0 <= i <= n,
                out@ == self.positions@.subrange(0, i as int).map_values(
                    |t: Transform| asteroid_template(t),
                ),
            decreases n - i,
        {
            let t = self.positions[i];
            out.push(
                EntityRecord {
                    id: 0,
                    transform: Some(t),
                    sprite: Some(
                        Sprite { index: 3, color: Rgb { red: 255, green: 255, blue: 255 } },
                    ),
                    tag: Some(EntityTag(TAG_ASTEROID)),
                    health: Some(Health(4)),
                    projectile: None,
                    player: None,
                    cull: None,
                    handle: None,
                },
            );
            proof {
                assert(out@ =~= self.positions@.subrange(0, i + 1).map_values(
                    |t: Transform| asteroid_template(t),
                ));
            }
            i = i + 1;
        }
        proof {
            assert(self.positions@.subrange(0, n as int) =~= self.positions@);
        }
        out
    }

    fn create_physics(&self, physics: &mut Physics, entities: &Vec<u64>) -> (hs: Vec<u64>) {
        let n = self.positions.len();
        let mut plans: Vec<(BodySpec, ColliderSpec)> = Vec::new();
        let mut i: usize = 0;
        while i < n
            invariant
                n == self.positions@.len(),
                0 <= i <= n,
                plans@ == self.positions@.subrange(0, i as int).map_values(
                    |t: Transform| (asteroid_body(t), asteroid_collider()),
                ),
            decreases n - i,
        {
            let t = self.positions[i];
            plans.push(
                (
                    BodySpec {
                        pos: t.pos,
                        angle: t.angle,
                        forward: t.forward,
                        linvel: Vec2 { x: 0, y: 0 },
                        angvel: 0,
                        can_sleep: true,
                    },
                    ColliderSpec { shape: Shape::Ball { radius: 200 }, density: 20000, sensor: false },
                ),
            );
            proof {
                assert(plans@ =~= self.positions@.subrange(0, i + 1).map_values(
                    |t: Transform| (asteroid_body(t), asteroid_collider()),
                ));
            }
            i = i + 1;
        }
        proof {
            assert(self.positions@.subrange(0, n as int) =~= self.positions@);
            self.plans_bounded();
        }
        create_bodies(physics, entities, &plans)
    }
}

/// The component template of the player at pose `t`.
pub open spec fn player_template(t: Transform) -> EntityRecord {
    EntityRecord {
        id: 0,
        transform: Some(t),
        sprite: Some(Sprite { index: 1, color: Rgb { red: 255, green: 255, blue: 255 } }),
        tag: Some(EntityTag(TAG_PLAYER)),
        health: Some(Health(30)),
        projectile: None,
        player: Some(Player),
        cull: None,
        handle: None,
    }
}

/// The player's rigid body: a never-sleeping dynamic body at the pose's
/// translation, unrotated.
pub open spec fn player_body(t: Transform) -> BodySpec {
    BodySpec {
        pos: t.pos,
        angle: 0,
        forward: Vec2 { x: 0, y: SCALE },
        linvel: Vec2 { x: 0, y: 0 },
        angvel: 0,
        can_sleep: false,
    }
}

/// The player's collider: a unit box.
pub open spec fn player_collider() -> ColliderSpec {
    ColliderSpec { shape: Shape::Cuboid { hx: 500, hy: 500 }, density: 1000, sensor: false }
}

/// Spawns the player ship.
#[derive(Debug)]
pub struct PlayerBuilder {
    pub positions: Vec<Transform>,
}

impl PlayerBuilder {
    /// A batch of one player at pose `t`.
    pub fn starting_from(t: Transform) -> (r: PlayerBuilder)
        ensures
            r.positions@ == seq![t],
    {
        let mut positions: Vec<Transform> = Vec::new();
        positions.push(t);
        proof {
            assert(positions@ =~= seq![t]);
        }
        PlayerBuilder { positions }
    }
}

impl EntityBuilder for PlayerBuilder {
    open spec fn component_sets(&self) -> Seq<EntityRecord> {
        self.positions@.map_values(|t: Transform| player_template(t))
    }

    open spec fn body_plans(&self) -> Seq<(BodySpec, ColliderSpec)> {
        self.positions@.map_values(|t: Transform| (player_body(t), player_collider()))
    }

    open spec fn builder_wf(&self) -> bool {
        forall|k: int| 0 <= k < self.positions@.len() ==> (#[trigger] self.positions@[k]).wf()
    }

    proof fn arity(&self) {
    }

    proof fn plans_bounded(&self) {
        assert forall|k: int|
            0 <= k < self.body_plans().len() implies (#[trigger] self.body_plans()[k]).0.bounded()
        by {
            assert(self.positions@[k].wf());
        }
    }

    fn components(&self) -> (r: Vec<EntityRecord>)
        ensures
            r@ == self.component_sets(),
    {
        let n = self.positions.len();
        let mut out: Vec<EntityRecord> = Vec::new();
        let mut i: usize = 0;
        while i < n
            invariant
                n == self.positions@.len(),
                0 <= i <= n,
                out@ == self.positions@.subrange(0, i as int).map_values(
                    |t: Transform| player_template(t),
                ),
            decreases n - i,
        {
            let t = self.positions[i];
            out.push(
                EntityRecord {
                    id: 0,
                    transform: Some(t),
                    sprite: Some(
                        Sprite { index: 1, color: Rgb { red: 255, green: 255, blue: 255 } },
                    ),
                    tag: Some(EntityTag(TAG_PLAYER)),
                    health: Some(Health(30)),
                    projectile: None,
                    player: Some(Player),
                    cull: None,
                    handle: None,
                },
            );
            proof {
                assert(out@ =~= self.positions@.subrange(0, i + 1).map_values(
                    |t: Transform| player_template(t),
                ));
            }
            i = i + 1;
        }
        proof {
            assert(self.positions@.subrange(0, n as int) =~= self.positions@);
        }
        out
    }

    fn create_physics(&self, physics: &mut Physics, entities: &Vec<u64>) -> (hs: Vec<u64>) {
        let n = self.positions.len();
        let mut plans: Vec<(BodySpec, ColliderSpec)> = Vec::new();
        let mut i: usize = 0;
        while i < n
            invariant
                n == self.positions@.len(),
                0 <= i <= n,
                plans@ == self.positions@.subrange(0, i as int).map_values(
                    |t: Transform| (player_body(t), player_collider()),
                ),
            decreases n - i,
        {
            let t = self.positions[i];
            plans.push(
                (
                    BodySpec {
                        pos: t.pos,
                        angle: 0,
                        forward: Vec2 { x: 0, y: SCALE },
                        linvel: Vec2 { x: 0, y: 0 },
                        angvel: 0,
                        can_sleep: false,
                    },
                    ColliderSpec {
                        shape: Shape::Cuboid { hx: 500, hy: 500 },
                        density: 1000,
                        sensor: false,
                    },
                ),
            );
            proof {
                assert(plans@ =~= self.positions@.subrange(0, i + 1).map_values(
                    |t: Transform| (player_body(t), player_collider()),
                ));
            }
            i = i + 1;
        }
        proof {
            assert(self.positions@.subrange(0, n as int) =~= self.positions@);
            self.plans_bounded();
        }
        create_bodies(physics, entities, &plans)
    }
}

/// A pose is far enough from the fixed-point range's edge that a bullet can
/// spawn ahead of it.
pub open spec fn spawn_clearance(t: Transform) -> bool {
    &&& -COORD_LIMIT + BULLET_OFFSET <= t.pos.x <= COORD_LIMIT - BULLET_OFFSET
    &&& -COORD_LIMIT + BULLET_OFFSET <= t.pos.y <= COORD_LIMIT - BULLET_OFFSET
}

/// Where a bullet fired from pose `t` starts: one `BULLET_OFFSET` ahead
/// along the shooter's heading.
pub open spec fn bullet_transform(t: Transform) -> Transform {
    let off = scale_to_spec(t.forward, BULLET_OFFSET as int);
    Transform {
        pos: Vec2 { x: (t.pos.x + off.x) as i64, y: (t.pos.y + off.y) as i64 },
        ..t
    }
}

/// A bullet's initial velocity: the shooter's heading rescaled to `speed`.
pub open spec fn bullet_velocity(t: Transform, speed: int) -> Vec2 {
    scale_to_spec(t.forward, speed)
}

/// The component template of a bullet at pose `t2`: a transient projectile,
/// culled when it leaves the view.
pub open spec fn bullet_template(t2: Transform) -> EntityRecord {
    EntityRecord {
        id: 0,
        transform: Some(t2),
        sprite: Some(Sprite { index: 2, color: Rgb { red: 255, green: 0, blue: 0 } }),
        tag: Some(EntityTag(TAG_PROJECTILE)),
        health: None,
        projectile: Some(Projectile { can_hit: EntityTag(TAG_ENEMY_OR_ASTEROID), damage: 1 }),
        player: None,
        cull: Some(Cull),
        handle: None,
    }
}

/// A bullet's rigid body: a never-sleeping dynamic body at the bullet's
/// pose, moving at its initial velocity.
pub open spec fn bullet_body(t2: Transform, vel: Vec2) -> BodySpec {
    BodySpec {
        pos: t2.pos,
        angle: t2.angle,
        forward: t2.forward,
        linvel: vel,
        angvel: 0,
        can_sleep: false,
    }
}

/// A bullet's collider: a small box that only senses overlap.
pub open spec fn bullet_collider() -> ColliderSpec {
    ColliderSpec { shape: Shape::Cuboid { hx: 300, hy: 300 }, density: 1000, sensor: true }
}

/// Spawns bullets, each with a starting pose and velocity.
#[derive(Debug)]
pub struct BulletBuilder {
    pub positions: Vec<(Transform, Vec2)>,
}

impl BulletBuilder {
    /// A batch of one bullet fired from pose `t`: it starts one
    /// `BULLET_OFFSET` ahead along the heading and moves that way at
    /// magnitude `speed`.
    pub fn starting_from(t: Transform, speed: i64) -> (r: BulletBuilder)
        requires
            t.wf(),
            spawn_clearance(t),
            0 <= speed <= COORD_LIMIT,
        ensures
            r.positions@ == seq![(bullet_transform(t), bullet_velocity(t, speed as int))],
            r.builder_wf(),
    {
        let off = scale_to_magnitude(t.forward, BULLET_OFFSET);
        let pos = Vec2 { x: t.pos.x + off.x, y: t.pos.y + off.y };
        let t2 = Transform { pos, ..t };
        let vel = scale_to_magnitude(t.forward, speed);
        let mut positions: Vec<(Transform, Vec2)> = Vec::new();
        positions.push((t2, vel));
        proof {
            assert(positions@ =~= seq![(bullet_transform(t), bullet_velocity(t, speed as int))]);
        }
        BulletBuilder { positions }
    }
}

impl EntityBuilder for BulletBuilder {
    open spec fn component_sets(&self) -> Seq<EntityRecord> {
        self.positions@.map_values(|p: (Transform, Vec2)| bullet_template(p.0))
    }

    open spec fn body_plans(&self) -> Seq<(BodySpec, ColliderSpec)> {
        self.positions@.map_values(
            |p: (Transform, Vec2)| (bullet_body(p.0, p.1), bullet_collider()),
        )
    }

    open spec fn builder_wf(&self) -> bool {
        forall|k: int|
            0 <= k < self.positions@.len() ==> (#[trigger] self.positions@[k]).0.wf()
                && self.positions@[k].1.bounded()
    }

    proof fn arity(&self) {
    }

    proof fn plans_bounded(&self) {
        assert forall|k: int|
            0 <= k < self.body_plans().len() implies (#[trigger] self.body_plans()[k]).0.bounded()
        by {
            assert(self.positions@[k].0.wf() && self.positions@[k].1.bounded());
        }
    }

    fn components(&self) -> (r: Vec<EntityRecord>)
        ensures
            r@ == self.component_sets(),
    {
        let n = self.positions.len();
        let mut out: Vec<EntityRecord> = Vec::new();
        let mut i: usize = 0;
        while i < n
            invariant
                n == self.positions@.len(),
                0 <= i <= n,
                out@ == self.positions@.subrange(0, i as int).map_values(
                    |p: (Transform, Vec2)| bullet_template(p.0),
                ),
            decreases n - i,
        {
            let (t2, _) = self.positions[i];
            out.push(
                EntityRecord {
                    id: 0,
                    transform: Some(t2),
                    sprite: Some(Sprite { index: 2, color: Rgb { red: 255, green: 0, blue: 0 } }),
                    tag: Some(EntityTag(TAG_PROJECTILE)),
                    health: None,
                    projectile: Some(
                        Projectile { can_hit: EntityTag(TAG_ENEMY_OR_ASTEROID), damage: 1 },
                    ),
                    player: None,
                    cull: Some(Cull),
                    handle: None,
                },
            );
            proof {
                assert(out@ =~= self.positions@.subrange(0, i + 1).map_values(
                    |p: (Transform, Vec2)| bullet_template(p.0),
                ));
            }
            i = i + 1;
        }
        proof {
            assert(self.positions@.subrange(0, n as int) =~= self.positions@);
        }
        out
    }

    fn create_physics(&self, physics: &mut Physics, entities: &Vec<u64>) -> (hs: Vec<u64>) {
        let n = self.positions.len();
        let mut plans: Vec<(BodySpec, ColliderSpec)> = Vec::new();
        let mut i: usize = 0;
        while i < n
            invariant
                n == self.positions@.len(),
                0 <= i <= n,
                plans@ == self.positions@.subrange(0, i as int).map_values(
                    |p: (Transform, Vec2)| (bullet_body(p.0, p.1), bullet_collider()),
                ),
            decreases n - i,
        {
            let (t2, vel) = self.positions[i];
            plans.push(
                (
                    BodySpec {
                        pos: t2.pos,
                        angle: t2.angle,
                        forward: t2.forward,
                        linvel: vel,
                        angvel: 0,
                        can_sleep: false,
                    },
                    ColliderSpec {
                        shape: Shape::Cuboid { hx: 300, hy: 300 },
                        density: 1000,
                        sensor: true,
                    },
                ),
            );
            proof {
                assert(plans@ =~= self.positions@.subrange(0, i + 1).map_values(
                    |p: (Transform, Vec2)| (bullet_body(p.0, p.1), bullet_collider()),
                ));
            }
            i = i + 1;
        }
        proof {
            assert(self.positions@.subrange(0, n as int) =~= self.positions@);
            self.plans_bounded();
        }
        create_bodies(physics, entities, &plans)
    }
}

} // verus!
