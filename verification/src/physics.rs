use vstd::prelude::*;

verus! {

use crate::event_queue::{Drain, SharedEventQueue};
use crate::math::{Vec2, COORD_LIMIT};
use crate::store::World;

/// A stable reference into the physics bridge's body store.
pub type RigidBodyHandle = u64;

/// Proximity status of a pair of sensor colliders.
#[derive(Clone, Copy, Debug, Eq, PartialEq, Structural)]
pub enum Proximity {
    Intersecting,
    WithinMargin,
    Disjoint,
}

/// A solver-level contact transition, identified by body handles.
#[derive(Clone, Copy, Debug, Eq, PartialEq, Structural)]
pub enum ContactEvent {
    Started(RigidBodyHandle, RigidBodyHandle),
    Stopped(RigidBodyHandle, RigidBodyHandle),
}

/// A solver-level proximity transition, identified by body handles.
#[derive(Clone, Copy, Debug, Eq, PartialEq, Structural)]
pub struct ProximityEvent {
    pub collider1: RigidBodyHandle,
    pub collider2: RigidBodyHandle,
    pub prev_status: Proximity,
    pub new_status: Proximity,
}

/// A contact transition translated to the entities owning the bodies.
#[derive(Clone, Copy, Debug, Eq, PartialEq, Structural)]
pub enum EntityContactEvent {
    Started(u64, u64),
    Stopped(u64, u64),
}

/// A proximity transition translated to the entities owning the bodies.
#[derive(Clone, Copy, Debug, Eq, PartialEq, Structural)]
pub struct EntityProximityEvent {
    pub e1: u64,
    pub e2: u64,
    pub prev_status: Proximity,
    pub new_status: Proximity,
}

/// How a lookup through the bridge can fail.
#[derive(Clone, Copy, Debug, Eq, PartialEq, Structural)]
pub enum PhysicsError {
    /// A handle refers to a body no longer present in the bridge.
    StaleHandle,
    /// An event refers to a handle with no reverse-map entry.
    UnknownEntityForHandle,
}

/// The shape of a collider, in fixed-point sub-units.
#[derive(Clone, Copy, Debug, Eq, PartialEq, Structural)]
pub enum Shape {
    Ball { radius: i64 },
    Cuboid { hx: i64, hy: i64 },
}

/// What to attach to a body: a shape, a density in fixed-point sub-units,
/// and whether it only senses overlap instead of colliding.
#[derive(Clone, Copy, Debug, Eq, PartialEq, Structural)]
pub struct ColliderSpec {
    pub shape: Shape,
    pub density: i64,
    pub sensor: bool,
}

/// A collider registered with the bridge, tied to its owning body.
#[derive(Clone, Copy, Debug, Eq, PartialEq, Structural)]
pub struct ColliderRecord {
    pub handle: RigidBodyHandle,
    pub collider: ColliderSpec,
}

/// The state of a rigid body, in fixed-point sub-units.
#[derive(Clone, Copy, Debug, Eq, PartialEq, Structural)]
pub struct Body {
    pub pos: Vec2,
    /// Orientation in fixed-point milliradians.
    pub angle: i64,
    /// The unit "up" direction rotated by `angle`, scaled by `SCALE`.
    pub forward: Vec2,
    pub linvel: Vec2,
    pub angvel: i64,
    /// Force accumulated for the next solver step.
    pub force: Vec2,
    /// Torque accumulated for the next solver step.
    pub torque: i64,
    pub can_sleep: bool,
}

impl Body {
    /// Every coordinate of the body stays within the fixed-point range.
    pub open spec fn bounded(self) -> bool {
        &&& self.pos.bounded()
        &&& self.forward.bounded()
        &&& self.linvel.bounded()
        &&& self.force.bounded()
        &&& -COORD_LIMIT <= self.angle <= COORD_LIMIT
        &&& -COORD_LIMIT <= self.angvel <= COORD_LIMIT
        &&& -COORD_LIMIT <= self.torque <= COORD_LIMIT
    }
}

/// Initial state for a new rigid body.
#[derive(Clone, Copy, Debug, Eq, PartialEq, Structural)]
pub struct BodySpec {
    pub pos: Vec2,
    pub angle: i64,
    pub forward: Vec2,
    pub linvel: Vec2,
    pub angvel: i64,
    pub can_sleep: bool,
}

impl BodySpec {
    pub open spec fn bounded(self) -> bool {
        &&& self.pos.bounded()
        &&& self.forward.bounded()
        &&& self.linvel.bounded()
        &&& -COORD_LIMIT <= self.angle <= COORD_LIMIT
        &&& -COORD_LIMIT <= self.angvel <= COORD_LIMIT
    }

    /// The body a spec builds: the given pose and velocities, with no force
    /// or torque accumulated yet.
    pub open spec fn build(self) -> Body {
        Body {
            pos: self.pos,
            angle: self.angle,
            forward: self.forward,
            linvel: self.linvel,
            angvel: self.angvel,
            force: Vec2 { x: 0, y: 0 },
            torque: 0,
            can_sleep: self.can_sleep,
        }
    }
}

/// One slot of the body store. Slots are never reused, so a handle stays
/// valid for the body's whole lifetime and goes permanently dead with it.
#[derive(Clone, Copy, Debug, Eq, PartialEq, Structural)]
pub struct BodySlot {
    pub live: bool,
    pub entity: u64,
    pub body: Body,
}

/// The new pose and velocities the solver reports for one body after a step.
#[derive(Clone, Copy, Debug, Eq, PartialEq, Structural)]
pub struct BodyUpdate {
    pub handle: RigidBodyHandle,
    pub pos: Vec2,
    pub angle: i64,
    pub forward: Vec2,
    pub linvel: Vec2,
    pub angvel: i64,
}

impl BodyUpdate {
    pub open spec fn bounded(self) -> bool {
        &&& self.pos.bounded()
        &&& self.forward.bounded()
        &&& self.linvel.bounded()
        &&& -COORD_LIMIT <= self.angle <= COORD_LIMIT
        &&& -COORD_LIMIT <= self.angvel <= COORD_LIMIT
    }

    /// Exec check of `bounded`, so a caller can validate solver output.
    pub fn check_bounded(&self) -> (r: bool)
        ensures
            r == self.bounded(),
    {
        -COORD_LIMIT <= self.pos.x && self.pos.x <= COORD_LIMIT && -COORD_LIMIT <= self.pos.y
            && self.pos.y <= COORD_LIMIT && -COORD_LIMIT <= self.forward.x && self.forward.x
            <= COORD_LIMIT && -COORD_LIMIT <= self.forward.y && self.forward.y <= COORD_LIMIT
            && -COORD_LIMIT <= self.linvel.x && self.linvel.x <= COORD_LIMIT && -COORD_LIMIT
            <= self.linvel.y && self.linvel.y <= COORD_LIMIT && -COORD_LIMIT <= self.angle
            && self.angle <= COORD_LIMIT && -COORD_LIMIT <= self.angvel && self.angvel
            <= COORD_LIMIT
    }
}

/// A body with its force and torque accumulators consumed by a step.
pub open spec fn body_cleared(b: Body) -> Body {
    Body { force: Vec2 { x: 0, y: 0 }, torque: 0, ..b }
}

/// A body overwritten with what the solver reported, accumulators consumed.
pub open spec fn body_updated(b: Body, u: BodyUpdate) -> Body {
    Body {
        pos: u.pos,
        angle: u.angle,
        forward: u.forward,
        linvel: u.linvel,
        angvel: u.angvel,
        force: Vec2 { x: 0, y: 0 },
        torque: 0,
        can_sleep: b.can_sleep,
    }
}

/// The first update for handle `h`, if any.
pub open spec fn find_update(us: Seq<BodyUpdate>, h: u64) -> Option<BodyUpdate>
    decreases us.len(),
{
    if us.len() == 0 {
        None
    } else if us[0].handle == h {
        Some(us[0])
    } else {
        find_update(us.drop_first(), h)
    }
}

/// A found update comes from the sequence, and names the handle sought.
pub proof fn lemma_find_update_found(us: Seq<BodyUpdate>, h: u64)
    ensures
        match find_update(us, h) {
            Some(u) => us.contains(u) && u.handle == h,
            None => true,
        },
    decreases us.len(),
{
    if us.len() > 0 {
        if us[0].handle == h {
            assert(us.contains(us[0]));
        } else {
            lemma_find_update_found(us.drop_first(), h);
            match find_update(us.drop_first(), h) {
                Some(u) => {
                    let k = choose|k: int|
                        0 <= k < us.drop_first().len() && us.drop_first()[k] == u;
                    assert(us[k + 1] == u);
                    assert(us.contains(u));
                },
                None => {},
            }
        }
    }
}

/// Translate one solver-level contact event through the reverse map; an
/// unknown handle drops the event.
pub open spec fn translate_contact(m: Map<u64, u64>, e: ContactEvent) -> Option<
    EntityContactEvent,
> {
    match e {
        ContactEvent::Started(h1, h2) => if m.contains_key(h1) && m.contains_key(h2) {
            Some(EntityContactEvent::Started(m[h1], m[h2]))
        } else {
            None
        },
        ContactEvent::Stopped(h1, h2) => if m.contains_key(h1) && m.contains_key(h2) {
            Some(EntityContactEvent::Stopped(m[h1], m[h2]))
        } else {
            None
        },
    }
}

/// Translate a batch of contact events, dropping those with unknown handles.
pub open spec fn translate_contacts(m: Map<u64, u64>, evs: Seq<ContactEvent>) -> Seq<
    EntityContactEvent,
> {
    evs.filter_map(|e: ContactEvent| translate_contact(m, e))
}

/// Translate one solver-level proximity event through the reverse map; an
/// unknown handle drops the event.
pub open spec fn translate_proximity(m: Map<u64, u64>, e: ProximityEvent) -> Option<
    EntityProximityEvent,
> {
    if m.contains_key(e.collider1) && m.contains_key(e.collider2) {
        Some(
            EntityProximityEvent {
                e1: m[e.collider1],
                e2: m[e.collider2],
                prev_status: e.prev_status,
                new_status: e.new_status,
            },
        )
    } else {
        None
    }
}

/// Translate a batch of proximity events, dropping those with unknown
/// handles.
pub open spec fn translate_proximities(m: Map<u64, u64>, evs: Seq<ProximityEvent>) -> Seq<
    EntityProximityEvent,
> {
    evs.filter_map(|e: ProximityEvent| translate_proximity(m, e))
}

/// A solver contact event whose handles are both mapped translates to
/// exactly one entity-level event, pairing the owning entities in the same
/// order.
pub proof fn lemma_translate_contact_known(m: Map<u64, u64>, h1: u64, h2: u64)
    requires
        m.contains_key(h1),
        m.contains_key(h2),
    ensures
        translate_contacts(m, seq![ContactEvent::Started(h1, h2)]) =~= seq![
            EntityContactEvent::Started(m[h1], m[h2]),
        ],
        translate_contacts(m, seq![ContactEvent::Stopped(h1, h2)]) =~= seq![
            EntityContactEvent::Stopped(m[h1], m[h2]),
        ],
{
    let f = |e: ContactEvent| translate_contact(m, e);
    let sa = seq![ContactEvent::Started(h1, h2)];
    let so = seq![ContactEvent::Stopped(h1, h2)];
    assert(sa.drop_last() =~= Seq::<ContactEvent>::empty());
    assert(so.drop_last() =~= Seq::<ContactEvent>::empty());
    assert(Seq::<ContactEvent>::empty().filter_map(f) =~= Seq::<EntityContactEvent>::empty());
    assert(sa.last() == ContactEvent::Started(h1, h2));
    assert(so.last() == ContactEvent::Stopped(h1, h2));
}

/// A solver contact event naming an unmapped handle — a body removed before
/// the events were drained — is dropped, never mistranslated: translation
/// yields no event at all.
pub proof fn lemma_translate_contact_unknown(m: Map<u64, u64>, h1: u64, h2: u64)
    requires
        !m.contains_key(h1) || !m.contains_key(h2),
    ensures
        translate_contacts(m, seq![ContactEvent::Started(h1, h2)]) =~= Seq::<
            EntityContactEvent,
        >::empty(),
        translate_contacts(m, seq![ContactEvent::Stopped(h1, h2)]) =~= Seq::<
            EntityContactEvent,
        >::empty(),
{
    let f = |e: ContactEvent| translate_contact(m, e);
    let sa = seq![ContactEvent::Started(h1, h2)];
    let so = seq![ContactEvent::Stopped(h1, h2)];
    assert(sa.drop_last() =~= Seq::<ContactEvent>::empty());
    assert(so.drop_last() =~= Seq::<ContactEvent>::empty());
    assert(Seq::<ContactEvent>::empty().filter_map(f) =~= Seq::<EntityContactEvent>::empty());
    assert(sa.last() == ContactEvent::Started(h1, h2));
    assert(so.last() == ContactEvent::Stopped(h1, h2));
}

/// The physics bridge: the body and collider stores, and the buffers of
/// translated events collected while the solver steps. The numeric
/// integration itself is the solver's; the bridge owns handle stability,
/// the handle-to-entity reverse map, and event translation.
pub struct Physics {
    slots: Vec<BodySlot>,
    colliders: Vec<ColliderRecord>,
    contact_queue: SharedEventQueue<EntityContactEvent>,
    proximity_queue: SharedEventQueue<EntityProximityEvent>,
}

impl Physics {
    /// The body slots, indexed by handle.
    pub closed spec fn slots(self) -> Seq<BodySlot> {
        self.slots@
    }

    /// The registered colliders, in registration order.
    pub closed spec fn colliders(self) -> Seq<ColliderRecord> {
        self.colliders@
    }

    /// The translated contact events buffered and not yet drained.
    pub closed spec fn contacts_buffered(self) -> Seq<EntityContactEvent> {
        self.contact_queue.contents()
    }

    /// The translated proximity events buffered and not yet drained.
    pub closed spec fn proximities_buffered(self) -> Seq<EntityProximityEvent> {
        self.proximity_queue.contents()
    }

    /// Whether `h` refers to a live body.
    pub open spec fn live(self, h: u64) -> bool {
        h < self.slots().len() && self.slots()[h as int].live
    }

    /// The entity owning the body behind `h` (meaningful when live).
    pub open spec fn entity_of_spec(self, h: u64) -> u64 {
        self.slots()[h as int].entity
    }

    /// The reverse map: each live handle to its owning entity.
    pub open spec fn handle_map(self) -> Map<u64, u64> {
        Map::new(|h: u64| self.live(h), |h: u64| self.entity_of_spec(h))
    }

    /// Every body the bridge holds stays within the fixed-point range.
    pub open spec fn wf(self) -> bool {
        forall|i: int| 0 <= i < self.slots().len() ==> (#[trigger] self.slots()[i]).body.bounded()
    }

    /// The body store is backed by a vector, so a handle index fits `usize`.
    pub proof fn lemma_slots_len_bound(self)
        ensures
            self.slots().len() <= usize::MAX,
    {
        broadcast use vstd::std_specs::vec::axiom_spec_len;

        assert(vstd::std_specs::vec::spec_vec_len(&self.slots) == self.slots@.len());
    }

    pub fn new() -> (r: Physics)
        ensures
            r.slots() == Seq::<BodySlot>::empty(),
            r.colliders() == Seq::<ColliderRecord>::empty(),
            r.contacts_buffered() == Seq::<EntityContactEvent>::empty(),
            r.proximities_buffered() == Seq::<EntityProximityEvent>::empty(),
            r.wf(),
    {
        Physics {
            slots: Vec::new(),
            colliders: Vec::new(),
            contact_queue: SharedEventQueue::new(),
            proximity_queue: SharedEventQueue::new(),
        }
    }

    /// Insert a new rigid body with its colliders and register the owning
    /// entity in the reverse map. Must be called exactly once for every
    /// physically simulated entity, at its creation.
    pub fn create(&mut self, entity: u64, body_spec: BodySpec, collider_specs: Vec<ColliderSpec>)
        -> (h: RigidBodyHandle)
        requires
            old(self).wf(),
            body_spec.bounded(),
            old(self).slots().len() < 0x1000_0000_0000_0000,
        ensures
            h == old(self).slots().len(),
            final(self).slots() == old(self).slots().push(
                BodySlot { live: true, entity, body: body_spec.build() },
            ),
            final(self).colliders() == old(self).colliders() + collider_specs@.map_values(
                |c: ColliderSpec| ColliderRecord { handle: h, collider: c },
            ),
            final(self).contacts_buffered() == old(self).contacts_buffered(),
            final(self).proximities_buffered() == old(self).proximities_buffered(),
            final(self).wf(),
            final(self).live(h),
            !old(self).live(h),
            final(self).entity_of_spec(h) == entity,
            forall|g: u64| g != h ==> final(self).live(g) == old(self).live(g),
    {
        let h = self.slots.len() as u64;
        let slot = BodySlot {
            live: true,
            entity,
            body: Body {
                pos: body_spec.pos,
                angle: body_spec.angle,
                forward: body_spec.forward,
                linvel: body_spec.linvel,
                angvel: body_spec.angvel,
                force: Vec2 { x: 0, y: 0 },
                torque: 0,
                can_sleep: body_spec.can_sleep,
            },
        };
        self.slots.push(slot);
        let n = collider_specs.len();
        let mut i: usize = 0;
        while i < n
            invariant
                n == collider_specs@.len(),
                0 <= i <= n,
                self.colliders@ == old(self).colliders@ + collider_specs@.subrange(
                    0,
                    i as int,
                ).map_values(|c: ColliderSpec| ColliderRecord { handle: h, collider: c }),
                self.slots@ == old(self).slots@.push(slot),
                self.contact_queue == old(self).contact_queue,
                self.proximity_queue == old(self).proximity_queue,
            decreases n - i,
        {
            self.colliders.push(ColliderRecord { handle: h, collider: collider_specs[i] });
            proof {
                let pre = collider_specs@.subrange(0, i as int);
                let post = collider_specs@.subrange(0, i + 1);
                assert(post.drop_last() =~= pre);
                assert(post.map_values(
                    |c: ColliderSpec| ColliderRecord { handle: h, collider: c },
                ) =~= pre.map_values(|c: ColliderSpec| ColliderRecord { handle: h, collider: c })
                    + seq![ColliderRecord { handle: h, collider: collider_specs@[i as int] }]);
            }
            i = i + 1;
        }
        proof {
            assert(collider_specs@.subrange(0, n as int) =~= collider_specs@);
        }
        h
    }

    /// Remove the body behind `h` and its reverse-map entry. Must be called
    /// exactly once when the owning entity is destroyed; a handle already
    /// dead is reported stale and nothing changes.
    pub fn remove(&mut self, h: RigidBodyHandle) -> (r: Result<(), PhysicsError>)
        requires
            old(self).wf(),
        ensures
            r == Ok::<(), PhysicsError>(()) <==> old(self).live(h),
            old(self).live(h) ==> final(self).slots() == old(self).slots().update(
                h as int,
                BodySlot { live: false, ..old(self).slots()[h as int] },
            ),
            !old(self).live(h) ==> final(self).slots() == old(self).slots() && r == Err::<
                (),
                PhysicsError,
            >(PhysicsError::StaleHandle),
            final(self).colliders() == old(self).colliders(),
            final(self).contacts_buffered() == old(self).contacts_buffered(),
            final(self).proximities_buffered() == old(self).proximities_buffered(),
            final(self).wf(),
            !final(self).live(h),
            forall|g: u64| g != h ==> final(self).live(g) == old(self).live(g),
    {
        if h < self.slots.len() as u64 {
            let i = h as usize;
            if self.slots[i].live {
                let s = self.slots[i];
                let slot = &mut self.slots[i];
                *slot = BodySlot { live: false, ..s };
                return Ok(());
            }
        }
        Err(PhysicsError::StaleHandle)
    }

    /// How many slots the body store holds, dead ones included.
    pub fn num_bodies(&self) -> (r: usize)
        ensures
            r == self.slots().len(),
    {
        self.slots.len()
    }

    /// The slot at position `i` of the body store.
    pub fn slot_at(&self, i: usize) -> (r: BodySlot)
        requires
            i < self.slots().len(),
        ensures
            r == self.slots()[i as int],
    {
        self.slots[i]
    }

    /// The entity owning the live body behind `h`.
    pub fn entity_of(&self, h: RigidBodyHandle) -> (r: Result<u64, PhysicsError>)
        ensures
            self.live(h) ==> r == Ok::<u64, PhysicsError>(self.entity_of_spec(h)),
            !self.live(h) ==> r == Err::<u64, PhysicsError>(PhysicsError::UnknownEntityForHandle),
    {
        if h < self.slots.len() as u64 {
            let i = h as usize;
            if self.slots[i].live {
                return Ok(self.slots[i].entity);
            }
        }
        Err(PhysicsError::UnknownEntityForHandle)
    }

    /// The state of the live body behind `h`.
    pub fn body_of(&self, h: RigidBodyHandle) -> (r: Result<Body, PhysicsError>)
        ensures
            self.live(h) ==> r == Ok::<Body, PhysicsError>(self.slots()[h as int].body),
            !self.live(h) ==> r == Err::<Body, PhysicsError>(PhysicsError::StaleHandle),
    {
        if h < self.slots.len() as u64 {
            let i = h as usize;
            if self.slots[i].live {
                return Ok(self.slots[i].body);
            }
        }
        Err(PhysicsError::StaleHandle)
    }

    /// Overwrite the state of the live body behind `h`.
    pub fn set_body(&mut self, h: RigidBodyHandle, b: Body)
        requires
            old(self).wf(),
            old(self).live(h),
            b.bounded(),
        ensures
            final(self).slots() == old(self).slots().update(
                h as int,
                BodySlot { body: b, ..old(self).slots()[h as int] },
            ),
            final(self).colliders() == old(self).colliders(),
            final(self).contacts_buffered() == old(self).contacts_buffered(),
            final(self).proximities_buffered() == old(self).proximities_buffered(),
            final(self).wf(),
            final(self).handle_map() =~= old(self).handle_map(),
    {
        let n = self.slots.len();
        proof {
            assert(h < n as u64);
        }
        let i = h as usize;
        let s = self.slots[i];
        let slot = &mut self.slots[i];
        *slot = BodySlot { body: b, ..s };
    }

    /// All live bodies with their handles, in handle order; what the solver
    /// is handed each step.
    pub fn live_bodies(&self) -> (r: Vec<(RigidBodyHandle, Body)>)
        ensures
            r@ == live_pairs(self.slots()),
    {
        let n = self.slots.len();
        let mut out: Vec<(RigidBodyHandle, Body)> = Vec::new();
        let mut i: usize = 0;
        while i < n
            invariant
                n == self.slots().len(),
                0 <= i <= n,
                out@ == live_pairs(self.slots().subrange(0, i as int)),
            decreases n - i,
        {
            proof {
                let pre = self.slots().subrange(0, i as int);
                let post = self.slots().subrange(0, i + 1);
                assert(post.drop_last() =~= pre);
                assert(post.last() == self.slots()[i as int]);
            }
            if self.slots[i].live {
                out.push((i as u64, self.slots[i].body));
            }
            i = i + 1;
        }
        proof {
            assert(self.slots().subrange(0, n as int) =~= self.slots());
        }
        out
    }

    /// Consume accumulated forces and apply the solver's reported motion:
    /// each live body named by an update takes the reported pose and
    /// velocities; every other live body only has its accumulators cleared.
    /// Updates for dead or unknown handles are skipped.
    fn apply_updates(&mut self, updates: &Vec<BodyUpdate>)
        requires
            old(self).wf(),
            forall|k: int| 0 <= k < updates@.len() ==> (#[trigger] updates@[k]).bounded(),
        ensures
            final(self).slots().len() == old(self).slots().len(),
            forall|i: int|
                0 <= i < old(self).slots().len() ==> (#[trigger] final(self).slots()[i])
                    == slot_after_step(old(self).slots()[i], i, updates@),
            final(self).colliders() == old(self).colliders(),
            final(self).contacts_buffered() == old(self).contacts_buffered(),
            final(self).proximities_buffered() == old(self).proximities_buffered(),
            final(self).wf(),
            final(self).handle_map() =~= old(self).handle_map(),
    {
        let n = self.slots.len();
        let mut i: usize = 0;
        while i < n
            invariant
                old(self).wf(),
                n == self.slots().len(),
                n == old(self).slots().len(),
                0 <= i <= n,
                forall|j: int|
                    0 <= j < i ==> (#[trigger] self.slots()[j]) == slot_after_step(
                        old(self).slots()[j],
                        j,
                        updates@,
                    ),
                forall|j: int| i <= j < n ==> (#[trigger] self.slots()[j]) == old(self).slots()[j],
                forall|k: int| 0 <= k < updates@.len() ==> (#[trigger] updates@[k]).bounded(),
                self.colliders == old(self).colliders,
                self.contact_queue == old(self).contact_queue,
                self.proximity_queue == old(self).proximity_queue,
            decreases n - i,
        {
            let s = self.slots[i];
            if s.live {
                let nb = match self.find_update_for(updates, i as u64) {
                    Some(u) => Body {
                        pos: u.pos,
                        angle: u.angle,
                        forward: u.forward,
                        linvel: u.linvel,
                        angvel: u.angvel,
                        force: Vec2 { x: 0, y: 0 },
                        torque: 0,
                        can_sleep: s.body.can_sleep,
                    },
                    None => Body { force: Vec2 { x: 0, y: 0 }, torque: 0, ..s.body },
                };
                let slot = &mut self.slots[i];
                *slot = BodySlot { body: nb, ..s };
            }
            i = i + 1;
        }
        proof {
            assert forall|j: int| 0 <= j < self.slots().len() implies (#[trigger] self.slots()[j]).body.bounded() by {
                let so = old(self).slots()[j];
                assert(self.slots()[j] == slot_after_step(so, j, updates@));
                if so.live {
                    lemma_find_update_found(updates@, j as u64);
                    match find_update(updates@, j as u64) {
                        Some(u) => {
                            let k = choose|k: int| 0 <= k < updates@.len() && updates@[k] == u;
                            assert(updates@[k].bounded());
                        },
                        None => {},
                    }
                }
            }
            assert forall|g: u64| #[trigger] final(self).live(g) == old(self).live(g) by {}
            assert(final(self).handle_map() =~= old(self).handle_map());
        }
    }

    /// The first update for handle `h`, by scan.
    fn find_update_for(&self, updates: &Vec<BodyUpdate>, h: u64) -> (r: Option<BodyUpdate>)
        ensures
            r == find_update(updates@, h),
    {
        let n = updates.len();
        proof {
            assert(updates@.subrange(0, n as int) =~= updates@);
        }
        let mut i: usize = 0;
        while i < n
            invariant
                n == updates@.len(),
                0 <= i <= n,
                find_update(updates@, h) == find_update(updates@.subrange(i as int, n as int), h),
            decreases n - i,
        {
            proof {
                let tail = updates@.subrange(i as int, n as int);
                assert(tail[0] == updates@[i as int]);
                assert(tail.drop_first() =~= updates@.subrange(i + 1, n as int));
            }
            if updates[i].handle == h {
                return Some(updates[i]);
            }
            i = i + 1;
        }
        proof {
            assert(updates@.subrange(n as int, n as int) =~= Seq::<BodyUpdate>::empty());
        }
        None
    }

    /// Translate the solver's contact events through the reverse map and
    /// buffer them; an event naming an unknown handle is dropped.
    fn collect_contacts(&mut self, contacts: &Vec<ContactEvent>)
        requires
            old(self).wf(),
        ensures
            final(self).slots() == old(self).slots(),
            final(self).colliders() == old(self).colliders(),
            final(self).proximities_buffered() == old(self).proximities_buffered(),
            final(self).contacts_buffered() == old(self).contacts_buffered()
                + translate_contacts(old(self).handle_map(), contacts@),
            final(self).wf(),
    {
        let ghost m = self.handle_map();
        let ghost f = |e: ContactEvent| translate_contact(m, e);
        let n = contacts.len();
        let mut i: usize = 0;
        while i < n
            invariant
                old(self).wf(),
                n == contacts@.len(),
                0 <= i <= n,
                self.slots == old(self).slots,
                self.colliders == old(self).colliders,
                self.proximity_queue == old(self).proximity_queue,
                m == self.handle_map(),
                f == (|e: ContactEvent| translate_contact(m, e)),
                self.contacts_buffered() == old(self).contacts_buffered() + contacts@.subrange(
                    0,
                    i as int,
                ).filter_map(f),
            decreases n - i,
        {
            proof {
                let pre = contacts@.subrange(0, i as int);
                let post = contacts@.subrange(0, i + 1);
                assert(post.drop_last() =~= pre);
                assert(post.last() == contacts@[i as int]);
            }
            let e = contacts[i];
            match e {
                ContactEvent::Started(h1, h2) => {
                    let r1 = self.entity_of(h1);
                    let r2 = self.entity_of(h2);
                    match (r1, r2) {
                        (Ok(e1), Ok(e2)) => {
                            proof {
                                assert(m.contains_key(h1) && m.contains_key(h2));
                                assert(m[h1] == e1 && m[h2] == e2);
                            }
                            self.contact_queue.push(EntityContactEvent::Started(e1, e2));
                        },
                        _ => {
                            proof {
                                assert(!(m.contains_key(h1) && m.contains_key(h2)));
                            }
                        },
                    }
                },
                ContactEvent::Stopped(h1, h2) => {
                    let r1 = self.entity_of(h1);
                    let r2 = self.entity_of(h2);
                    match (r1, r2) {
                        (Ok(e1), Ok(e2)) => {
                            proof {
                                assert(m.contains_key(h1) && m.contains_key(h2));
                                assert(m[h1] == e1 && m[h2] == e2);
                            }
                            self.contact_queue.push(EntityContactEvent::Stopped(e1, e2));
                        },
                        _ => {
                            proof {
                                assert(!(m.contains_key(h1) && m.contains_key(h2)));
                            }
                        },
                    }
                },
            }
            i = i + 1;
        }
        proof {
            assert(contacts@.subrange(0, n as int) =~= contacts@);
        }
    }

    /// Translate the solver's proximity events through the reverse map and
    /// buffer them; an event naming an unknown handle is dropped.
    fn collect_proximities(&mut self, proximities: &Vec<ProximityEvent>)
        requires
            old(self).wf(),
        ensures
            final(self).slots() == old(self).slots(),
            final(self).colliders() == old(self).colliders(),
            final(self).contacts_buffered() == old(self).contacts_buffered(),
            final(self).proximities_buffered() == old(self).proximities_buffered()
                + translate_proximities(old(self).handle_map(), proximities@),
            final(self).wf(),
    {
        let ghost m = self.handle_map();
        let ghost f = |e: ProximityEvent| translate_proximity(m, e);
        let n = proximities.len();
        let mut i: usize = 0;
        while i < n
            invariant
                old(self).wf(),
                n == proximities@.len(),
                0 <= i <= n,
                self.slots == old(self).slots,
                self.colliders == old(self).colliders,
                self.contact_queue == old(self).contact_queue,
                m == self.handle_map(),
                f == (|e: ProximityEvent| translate_proximity(m, e)),
                self.proximities_buffered() == old(self).proximities_buffered()
                    + proximities@.subrange(0, i as int).filter_map(f),
            decreases n - i,
        {
            proof {
                let pre = proximities@.subrange(0, i as int);
                let post = proximities@.subrange(0, i + 1);
                assert(post.drop_last() =~= pre);
                assert(post.last() == proximities@[i as int]);
            }
            let e = proximities[i];
            let r1 = self.entity_of(e.collider1);
            let r2 = self.entity_of(e.collider2);
            match (r1, r2) {
                (Ok(e1), Ok(e2)) => {
                    proof {
                        assert(m.contains_key(e.collider1) && m.contains_key(e.collider2));
                        assert(m[e.collider1] == e1 && m[e.collider2] == e2);
                    }
                    self.proximity_queue.push(
                        EntityProximityEvent {
                            e1,
                            e2,
                            prev_status: e.prev_status,
                            new_status: e.new_status,
                        },
                    );
                },
                _ => {
                    proof {
                        assert(!(m.contains_key(e.collider1) && m.contains_key(e.collider2)));
                    }
                },
            }
            i = i + 1;
        }
        proof {
            assert(proximities@.subrange(0, n as int) =~= proximities@);
        }
    }

    /// Advance by one solver step: consume accumulated forces, take over the
    /// solver's reported motion, and translate and buffer the step's contact
    /// and proximity events through the reverse map as it stood at the step.
    pub fn step(
        &mut self,
        updates: &Vec<BodyUpdate>,
        contacts: &Vec<ContactEvent>,
        proximities: &Vec<ProximityEvent>,
    )
        requires
            old(self).wf(),
            forall|k: int| 0 <= k < updates@.len() ==> (#[trigger] updates@[k]).bounded(),
        ensures
            final(self).slots().len() == old(self).slots().len(),
            forall|i: int|
                0 <= i < old(self).slots().len() ==> (#[trigger] final(self).slots()[i])
                    == slot_after_step(old(self).slots()[i], i, updates@),
            final(self).colliders() == old(self).colliders(),
            final(self).contacts_buffered() == old(self).contacts_buffered()
                + translate_contacts(old(self).handle_map(), contacts@),
            final(self).proximities_buffered() == old(self).proximities_buffered()
                + translate_proximities(old(self).handle_map(), proximities@),
            final(self).wf(),
            final(self).handle_map() =~= old(self).handle_map(),
    {
        let ghost m0 = old(self).handle_map();
        self.apply_updates(updates);
        proof {
            assert(self.handle_map() =~= m0);
            assert(self.handle_map() == m0);
        }
        self.collect_contacts(contacts);
        proof {
            assert(self.handle_map() == m0);
        }
        self.collect_proximities(proximities);
        proof {
            assert(self.handle_map() == m0);
        }
    }

    /// Drain the buffered translated contact events, oldest first.
    pub fn contact_events(&mut self) -> (r: Vec<EntityContactEvent>)
        ensures
            r@ == old(self).contacts_buffered(),
            final(self).contacts_buffered() == Seq::<EntityContactEvent>::empty(),
            final(self).slots() == old(self).slots(),
            final(self).colliders() == old(self).colliders(),
            final(self).proximities_buffered() == old(self).proximities_buffered(),
    {
        self.contact_queue.get_mut().drain()
    }

    /// Drain the buffered translated proximity events, oldest first.
    pub fn proximity_events(&mut self) -> (r: Vec<EntityProximityEvent>)
        ensures
            r@ == old(self).proximities_buffered(),
            final(self).proximities_buffered() == Seq::<EntityProximityEvent>::empty(),
            final(self).slots() == old(self).slots(),
            final(self).colliders() == old(self).colliders(),
            final(self).contacts_buffered() == old(self).contacts_buffered(),
    {
        self.proximity_queue.get_mut().drain()
    }

    /// Release every body whose owning entity has left the store.
    pub fn cleanup(&mut self, world: &World)
        requires
            old(self).wf(),
            world.wf(),
        ensures
            final(self).slots().len() == old(self).slots().len(),
            forall|i: int|
                0 <= i < old(self).slots().len() ==> (#[trigger] final(self).slots()[i]) == (
                BodySlot {
                    live: old(self).slots()[i].live && world.spec_contains(
                        old(self).slots()[i].entity,
                    ),
                    ..old(self).slots()[i]
                }),
            final(self).colliders() == old(self).colliders(),
            final(self).contacts_buffered() == old(self).contacts_buffered(),
            final(self).proximities_buffered() == old(self).proximities_buffered(),
            final(self).wf(),
    {
        let n = self.slots.len();
        let mut i: usize = 0;
        while i < n
            invariant
                old(self).wf(),
                world.wf(),
                n == self.slots().len(),
                n == old(self).slots().len(),
                0 <= i <= n,
                forall|j: int|
                    0 <= j < i ==> (#[trigger] self.slots()[j]) == (BodySlot {
                        live: old(self).slots()[j].live && world.spec_contains(
                            old(self).slots()[j].entity,
                        ),
                        ..old(self).slots()[j]
                    }),
                forall|j: int| i <= j < n ==> (#[trigger] self.slots()[j]) == old(self).slots()[j],
                self.colliders == old(self).colliders,
                self.contact_queue == old(self).contact_queue,
                self.proximity_queue == old(self).proximity_queue,
            decreases n - i,
        {
            let s = self.slots[i];
            if s.live {
                let present = match world.get(s.entity) {
                    Some(_) => true,
                    None => false,
                };
                if !present {
                    let slot = &mut self.slots[i];
                    *slot = BodySlot { live: false, ..s };
                }
            }
            i = i + 1;
        }
    }
}

/// What a step leaves in a slot: a dead slot is untouched; a live body named
/// by an update takes the reported motion; any other live body only has its
/// accumulators cleared.
pub open spec fn slot_after_step(s: BodySlot, h: int, updates: Seq<BodyUpdate>) -> BodySlot {
    if !s.live {
        s
    } else {
        match find_update(updates, h as u64) {
            Some(u) => BodySlot { body: body_updated(s.body, u), ..s },
            None => BodySlot { body: body_cleared(s.body), ..s },
        }
    }
}

/// The live bodies of a slot sequence, paired with their handles, in handle
/// order.
pub open spec fn live_pairs(s: Seq<BodySlot>) -> Seq<(RigidBodyHandle, Body)>
    decreases s.len(),
{
    if s.len() == 0 {
        Seq::empty()
    } else {
        live_pairs(s.drop_last()) + if s.last().live {
            seq![((s.len() - 1) as u64, s.last().body)]
        } else {
            Seq::empty()
        }
    }
}

} // verus!
