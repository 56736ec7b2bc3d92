use vstd::prelude::*;

verus! {

use crate::components::Transform;
use crate::event_queue::Drain;
use crate::factories::{
    built_record, bullet_body, bullet_collider, bullet_template, bullet_transform,
    bullet_velocity, spawn_clearance, BulletBuilder, EntityBuilder, BULLET_OFFSET,
};
use crate::input::{InputEvent, InputState, Key, KeyState};
use crate::math::{
    lemma_scale_to_spec_norm, mul_div, mul_div_spec, scale_to_magnitude, scale_to_spec, wrap_coord,
    wrap_spec, Vec2, COORD_LIMIT,
};
use crate::components::{EntityTag, TAG_ASTEROID, TAG_PROJECTILE};
use crate::physics::{Body, BodySlot, ColliderRecord, EntityProximityEvent, Physics};
use crate::resources::{WindowDimensions, WorldBounds};
use crate::store::{EntityRecord, World};
use crate::types::{Camera, InputEventQueue};

/// The highest linear speed the player's ship is allowed, in sub-units per
/// second.
pub const MAX_VELOCITY: i64 = 10_000;

/// The highest angular speed the player's ship is allowed, in
/// milliradians per second.
pub const MAX_ANGULAR_VELOCITY: i64 = 2_000;

/// The divisor of the per-tick exponential decay toward zero applied to the
/// ship's motion when no input drives it: `v -= v / FRICTION`.
pub const FRICTION: i64 = 50;

/// The angular impulse one tick of turning input applies, in milliradians
/// per second.
pub const TORQUE_IMPULSE: i64 = 500;

/// The magnitude of the thrust force, in sub-units.
pub const THRUST: i64 = 100_000;

/// What one raw input event does to the input state: a key press or release
/// updates the pressed set; mouse events are not consumed yet.
pub open spec fn apply_event(s: InputState, e: InputEvent) -> InputState {
    match e {
        InputEvent::KeyboardEvent { code, state, repeated } => {
            if state == KeyState::Pressed {
                s.spec_press(code, repeated)
            } else {
                s.spec_release(code)
            }
        },
        InputEvent::MouseEvent { .. } => s,
    }
}

/// The input state after consuming a queue of raw events, oldest first.
pub open spec fn apply_events(s: InputState, evs: Seq<InputEvent>) -> InputState
    decreases evs.len(),
{
    if evs.len() == 0 {
        s
    } else {
        apply_events(apply_event(s, evs[0]), evs.drop_first())
    }
}

/// Drain the raw input event queue into the input state. Runs first in the
/// tick, so every later system sees this tick's input.
pub fn input_system(input_queue: &mut InputEventQueue, input_state: &mut InputState)
    ensures
        *final(input_state) == apply_events(*old(input_state), old(input_queue).contents()),
        final(input_queue).contents() == Seq::<InputEvent>::empty(),
{
    let evs = input_queue.get_mut().drain();
    let n = evs.len();
    proof {
        assert(evs@.subrange(0, n as int) =~= evs@);
    }
    let mut i: usize = 0;
    while i < n
        invariant
            n == evs@.len(),
            0 <= i <= n,
            apply_events(*old(input_state), evs@) == apply_events(
                *input_state,
                evs@.subrange(i as int, n as int),
            ),
        decreases n - i,
    {
        proof {
            let tail = evs@.subrange(i as int, n as int);
            assert(tail[0] == evs@[i as int]);
            assert(tail.drop_first() =~= evs@.subrange(i + 1, n as int));
        }
        let e = evs[i];
        match e {
            InputEvent::KeyboardEvent { code, state, repeated } => {
                if state == KeyState::Pressed {
                    input_state.press_key(code, repeated);
                } else {
                    input_state.release_key(code);
                }
            },
            InputEvent::MouseEvent { .. } => {},
        }
        i = i + 1;
    }
    proof {
        assert(evs@.subrange(n as int, n as int) =~= Seq::<InputEvent>::empty());
    }
}

/// One component's exponential decay toward zero: `c - c / FRICTION`, with
/// the quotient rounded toward zero so the result never crosses zero.
pub open spec fn decay_toward_zero(c: int) -> int {
    c - mul_div_spec(c, 1, FRICTION as int)
}

/// The ship's angular speed after one tick of turning input and friction:
/// turning input applies an impulse, friction decays an undriven spin, and
/// the result is clamped to `MAX_ANGULAR_VELOCITY`.
pub open spec fn steer_angular(av0: int, left: bool, right: bool) -> int {
    let av1 = if left {
        av0 + TORQUE_IMPULSE
    } else if av0 > 0 {
        decay_toward_zero(av0)
    } else {
        av0
    };
    let av2 = if right {
        av1 - TORQUE_IMPULSE
    } else if av1 < 0 {
        decay_toward_zero(av1)
    } else {
        av1
    };
    if av2 > MAX_ANGULAR_VELOCITY {
        MAX_ANGULAR_VELOCITY as int
    } else if av2 < -MAX_ANGULAR_VELOCITY {
        -MAX_ANGULAR_VELOCITY as int
    } else {
        av2
    }
}

/// The ship's velocity before the clamp: thrust input leaves it to the
/// solver (the thrust force acts in the next step), no input decays it.
pub open spec fn steer_linvel_raw(v: Vec2, up: bool) -> Vec2 {
    if up {
        v
    } else if v.norm2() > 0 {
        Vec2 { x: decay_toward_zero(v.x as int) as i64, y: decay_toward_zero(v.y as int) as i64 }
    } else {
        v
    }
}

/// The ship's velocity after one tick: decayed when undriven, then clamped
/// to magnitude `MAX_VELOCITY`.
pub open spec fn steer_linvel(v: Vec2, up: bool) -> Vec2 {
    let raw = steer_linvel_raw(v, up);
    if raw.norm2() > MAX_VELOCITY * MAX_VELOCITY {
        scale_to_spec(raw, MAX_VELOCITY as int)
    } else {
        raw
    }
}

/// The force the tick accumulates on the ship: full thrust along the
/// heading when thrust input is held, else whatever was accumulated.
pub open spec fn steer_force(b: Body, up: bool) -> Vec2 {
    if up {
        scale_to_spec(b.forward, THRUST as int)
    } else {
        b.force
    }
}

/// What one tick of player input does to the player's rigid body: turning
/// impulses and angular friction, thrust or linear friction, then the
/// velocity clamps. Position, orientation and heading are the solver's and
/// stay untouched.
pub open spec fn steer_spec(b: Body, inp: InputState) -> Body {
    let left = inp.spec_pressed(Key::Left) || inp.spec_pressed(Key::A);
    let right = inp.spec_pressed(Key::Right) || inp.spec_pressed(Key::D);
    let up = inp.spec_pressed(Key::Up) || inp.spec_pressed(Key::W);
    Body {
        linvel: steer_linvel(b.linvel, up),
        angvel: steer_angular(b.angvel as int, left, right) as i64,
        force: steer_force(b, up),
        ..b
    }
}

/// The decayed component keeps its sign and never grows.
pub proof fn lemma_decay_bounds(c: int)
    ensures
        c >= 0 ==> 0 <= decay_toward_zero(c) <= c,
        c < 0 ==> c <= decay_toward_zero(c) <= 0,
{
    let a = if c >= 0 {
        c
    } else {
        -c
    };
    vstd::arithmetic::div_mod::lemma_fundamental_div_mod(a * 1, FRICTION as int);
    vstd::arithmetic::div_mod::lemma_mod_pos_bound(a * 1, FRICTION as int);
    let q = (a * 1) / (FRICTION as int);
    assert(0 <= q && q <= a) by (nonlinear_arith)
        requires
            a * 1 == FRICTION as int * q + (a * 1) % (FRICTION as int),
            0 <= (a * 1) % (FRICTION as int) < FRICTION as int,
            a >= 0,
    ;
}

/// After player input, the ship's linear speed never exceeds
/// `MAX_VELOCITY` and its angular speed never exceeds
/// `MAX_ANGULAR_VELOCITY`, regardless of the applied forces.
pub proof fn lemma_velocity_clamp(b: Body, inp: InputState)
    requires
        b.bounded(),
    ensures
        steer_spec(b, inp).linvel.norm2() <= MAX_VELOCITY * MAX_VELOCITY,
        -MAX_ANGULAR_VELOCITY <= steer_spec(b, inp).angvel <= MAX_ANGULAR_VELOCITY,
        steer_spec(b, inp).bounded(),
{
    let up = inp.spec_pressed(Key::Up) || inp.spec_pressed(Key::W);
    let raw = steer_linvel_raw(b.linvel, up);
    lemma_decay_bounds(b.linvel.x as int);
    lemma_decay_bounds(b.linvel.y as int);
    assert(raw.bounded());
    if raw.norm2() > MAX_VELOCITY * MAX_VELOCITY {
        lemma_scale_to_spec_norm(raw, MAX_VELOCITY as int);
    }
    lemma_scale_to_spec_norm(b.forward, THRUST as int);
    lemma_decay_bounds(b.angvel as int);
    assert(steer_spec(b, inp).linvel.bounded()) by {
        let lv = steer_linvel(b.linvel, up);
        if raw.norm2() > MAX_VELOCITY * MAX_VELOCITY {
        } else {
            assert(lv == raw);
        }
    }
}

/// Apply one tick of player input to a body, exactly as `steer_spec` says.
fn steer(b: Body, input_state: &InputState) -> (r: Body)
    requires
        b.bounded(),
    ensures
        r == steer_spec(b, *input_state),
        r.bounded(),
{
    let left = input_state.is_pressed(Key::Left) || input_state.is_pressed(Key::A);
    let right = input_state.is_pressed(Key::Right) || input_state.is_pressed(Key::D);
    let up = input_state.is_pressed(Key::Up) || input_state.is_pressed(Key::W);
    proof {
        lemma_velocity_clamp(b, *input_state);
        lemma_decay_bounds(b.angvel as int);
    }
    let av1 = if left {
        b.angvel + TORQUE_IMPULSE
    } else if b.angvel > 0 {
        b.angvel - mul_div(b.angvel, 1, FRICTION)
    } else {
        b.angvel
    };
    proof {
        lemma_decay_bounds(av1 as int);
        if !left && b.angvel > 0 {
            lemma_decay_bounds(b.angvel as int);
        }
    }
    let av2 = if right {
        av1 - TORQUE_IMPULSE
    } else if av1 < 0 {
        proof {
            assert(-COORD_LIMIT <= av1);
        }
        av1 - mul_div(av1, 1, FRICTION)
    } else {
        av1
    };
    let av3 = if av2 > MAX_ANGULAR_VELOCITY {
        MAX_ANGULAR_VELOCITY
    } else if av2 < -MAX_ANGULAR_VELOCITY {
        -MAX_ANGULAR_VELOCITY
    } else {
        av2
    };
    let raw = if up {
        b.linvel
    } else {
        proof {
            assert(b.linvel.x * b.linvel.x <= 0x1000_0000_0000_0000 && b.linvel.x * b.linvel.x
                >= 0) by (nonlinear_arith)
                requires
                    -0x4000_0000 <= b.linvel.x <= 0x4000_0000,
            ;
            assert(b.linvel.y * b.linvel.y <= 0x1000_0000_0000_0000 && b.linvel.y * b.linvel.y
                >= 0) by (nonlinear_arith)
                requires
                    -0x4000_0000 <= b.linvel.y <= 0x4000_0000,
            ;
            lemma_decay_bounds(b.linvel.x as int);
            lemma_decay_bounds(b.linvel.y as int);
        }
        let s = b.linvel.x * b.linvel.x + b.linvel.y * b.linvel.y;
        if s > 0 {
            Vec2 {
                x: b.linvel.x - mul_div(b.linvel.x, 1, FRICTION),
                y: b.linvel.y - mul_div(b.linvel.y, 1, FRICTION),
            }
        } else {
            b.linvel
        }
    };
    proof {
        lemma_decay_bounds(b.linvel.x as int);
        lemma_decay_bounds(b.linvel.y as int);
        assert(raw == steer_linvel_raw(b.linvel, up));
        assert(raw.bounded());
        assert(raw.x * raw.x <= 0x1000_0000_0000_0000 && raw.x * raw.x >= 0) by (nonlinear_arith)
            requires
                -0x4000_0000 <= raw.x <= 0x4000_0000,
        ;
        assert(raw.y * raw.y <= 0x1000_0000_0000_0000 && raw.y * raw.y >= 0) by (nonlinear_arith)
            requires
                -0x4000_0000 <= raw.y <= 0x4000_0000,
        ;
    }
    let s = raw.x * raw.x + raw.y * raw.y;
    let lv = if s > MAX_VELOCITY * MAX_VELOCITY {
        scale_to_magnitude(raw, MAX_VELOCITY)
    } else {
        raw
    };
    let f = if up {
        scale_to_magnitude(b.forward, THRUST)
    } else {
        b.force
    };
    Body { linvel: lv, angvel: av3, force: f, ..b }
}

/// A live body slot owned by an entity that carries the player marker.
pub open spec fn player_slot(w: World, p: Physics, h: u64) -> bool {
    exists|i: int|
        0 <= i < w.records().len() && (#[trigger] w.records()[i]).player is Some
            && w.records()[i].handle == Some(h) && p.live(h)
}

/// `player_slot` restricted to the first `upto` records.
pub open spec fn player_slot_upto(w: World, p: Physics, h: u64, upto: int) -> bool {
    exists|i: int|
        0 <= i < upto && i < w.records().len() && (#[trigger] w.records()[i]).player is Some
            && w.records()[i].handle == Some(h) && p.live(h)
}

/// No two entities hold the same rigid-body handle.
pub open spec fn handles_injective(w: World) -> bool {
    forall|i: int, j: int|
        0 <= i < w.records().len() && 0 <= j < w.records().len() && i != j && (
        #[trigger] w.records()[i]).handle is Some && (#[trigger] w.records()[j]).handle is Some
            ==> w.records()[i].handle != w.records()[j].handle
}

/// Apply this tick's input to the player's rigid body: turning impulses,
/// thrust, friction, and the velocity clamps. Runs before the physics step
/// so the forces are included in that step's integration. An entity whose
/// handle is stale is skipped.
pub fn player_input(world: &World, physics: &mut Physics, input_state: &InputState)
    requires
        world.wf(),
        old(physics).wf(),
        handles_injective(*world),
    ensures
        final(physics).slots().len() == old(physics).slots().len(),
        forall|h: int|
            0 <= h < old(physics).slots().len() ==> (#[trigger] final(physics).slots()[h]) == (
            if player_slot(*world, *old(physics), h as u64) {
                BodySlot {
                    body: steer_spec(old(physics).slots()[h].body, *input_state),
                    ..old(physics).slots()[h]
                }
            } else {
                old(physics).slots()[h]
            }),
        final(physics).colliders() == old(physics).colliders(),
        final(physics).contacts_buffered() == old(physics).contacts_buffered(),
        final(physics).proximities_buffered() == old(physics).proximities_buffered(),
        final(physics).wf(),
        final(physics).handle_map() =~= old(physics).handle_map(),
{
    let n = world.len();
    proof {
        physics.lemma_slots_len_bound();
    }
    let mut i: usize = 0;
    while i < n
        invariant
            world.wf(),
            old(physics).wf(),
            handles_injective(*world),
            n == world.records().len(),
            0 <= i <= n,
            old(physics).slots().len() <= usize::MAX,
            physics.slots().len() == old(physics).slots().len(),
            forall|h: int|
                0 <= h < old(physics).slots().len() ==> (#[trigger] physics.slots()[h]) == (
                if player_slot_upto(*world, *old(physics), h as u64, i as int) {
                    BodySlot {
                        body: steer_spec(old(physics).slots()[h].body, *input_state),
                        ..old(physics).slots()[h]
                    }
                } else {
                    old(physics).slots()[h]
                }),
            physics.colliders() == old(physics).colliders(),
            physics.contacts_buffered() == old(physics).contacts_buffered(),
            physics.proximities_buffered() == old(physics).proximities_buffered(),
            physics.wf(),
        decreases n - i,
    {
        let r = world.record_at(i);
        let is_player = match r.player {
            Some(_) => true,
            None => false,
        };
        if is_player {
            match r.handle {
                Some(h) => {
                    match physics.body_of(h) {
                        Ok(b) => {
                            proof {
                                assert(old(physics).live(h)) by {
                                    assert(physics.live(h));
                                    if !player_slot_upto(*world, *old(physics), h, i as int) {
                                        assert(physics.slots()[h as int] == old(
                                            physics,
                                        ).slots()[h as int]);
                                    }
                                }
                                assert(!player_slot_upto(*world, *old(physics), h, i as int)) by {
                                    if player_slot_upto(*world, *old(physics), h, i as int) {
                                        let k = choose|k: int|
                                            0 <= k < i && k < world.records().len() && (
                                            #[trigger] world.records()[k]).player is Some
                                                && world.records()[k].handle == Some(h) && old(
                                                physics,
                                            ).live(h);
                                        assert(world.records()[k].handle == world.records()[
                                            i as int].handle);
                                        assert(false);
                                    }
                                }
                                assert(b == old(physics).slots()[h as int].body);
                                assert(b.bounded());
                            }
                            let nb = steer(b, input_state);
                            physics.set_body(h, nb);
                            proof {
                                assert forall|g: int|
                                    0 <= g < old(physics).slots().len() implies (
                                #[trigger] physics.slots()[g]) == (if player_slot_upto(
                                    *world,
                                    *old(physics),
                                    g as u64,
                                    i + 1,
                                ) {
                                    BodySlot {
                                        body: steer_spec(
                                            old(physics).slots()[g].body,
                                            *input_state,
                                        ),
                                        ..old(physics).slots()[g]
                                    }
                                } else {
                                    old(physics).slots()[g]
                                }) by {
                                    if g == h as int {
                                        assert(player_slot_upto(
                                            *world,
                                            *old(physics),
                                            g as u64,
                                            i + 1,
                                        ));
                                    } else {
                                        assert(player_slot_upto(*world, *old(physics), g as u64, i + 1)
                                            == player_slot_upto(
                                            *world,
                                            *old(physics),
                                            g as u64,
                                            i as int,
                                        )) by {
                                            if player_slot_upto(
                                                *world,
                                                *old(physics),
                                                g as u64,
                                                i + 1,
                                            ) && !player_slot_upto(
                                                *world,
                                                *old(physics),
                                                g as u64,
                                                i as int,
                                            ) {
                                                let k = choose|k: int|
                                                    0 <= k < i + 1 && k < world.records().len()
                                                        && (
                                                    #[trigger] world.records()[k]).player is Some
                                                        && world.records()[k].handle == Some(
                                                        g as u64,
                                                    ) && old(physics).live(g as u64);
                                                assert(k == i);
                                                assert(false);
                                            }
                                        }
                                    }
                                }
                            }
                        },
                        Err(_) => {
                            proof {
                                lemma_upto_step_no_match(
                                    *world,
                                    *old(physics),
                                    *physics,
                                    i as int,
                                );
                            }
                        },
                    }
                },
                None => {
                    proof {
                        lemma_upto_step_no_match(*world, *old(physics), *physics, i as int);
                    }
                },
            }
        } else {
            proof {
                lemma_upto_step_no_match(*world, *old(physics), *physics, i as int);
            }
        }
        i = i + 1;
    }
    proof {
        assert forall|h: int|
            0 <= h < old(physics).slots().len() implies #[trigger] player_slot_upto(
            *world,
            *old(physics),
            h as u64,
            n as int,
        ) == player_slot(*world, *old(physics), h as u64) by {}
        assert forall|g: u64| #[trigger] final(physics).live(g) == old(physics).live(g) by {
            if (g as int) < old(physics).slots().len() {
                assert(final(physics).slots()[g as int].live == old(physics).slots()[
                    g as int].live);
            }
        }
        assert(final(physics).handle_map() =~= old(physics).handle_map());
    }
}

/// When record `i` does not steer any body, extending the scanned prefix by
/// one leaves every slot's classification unchanged.
proof fn lemma_upto_step_no_match(w: World, p0: Physics, p: Physics, i: int)
    requires
        0 <= i < w.records().len(),
        !(w.records()[i].player is Some && w.records()[i].handle is Some && (match w.records()[
            i
        ].handle {
            Some(h) => p0.live(h),
            None => false,
        })),
    ensures
        forall|g: u64|
            player_slot_upto(w, p0, g, i + 1) == player_slot_upto(w, p0, g, i),
{
    assert forall|g: u64|
        player_slot_upto(w, p0, g, i + 1) == player_slot_upto(w, p0, g, i) by {
        if player_slot_upto(w, p0, g, i + 1) && !player_slot_upto(w, p0, g, i) {
            let k = choose|k: int|
                0 <= k < i + 1 && k < w.records().len() && (#[trigger] w.records()[k]).player
                    is Some && w.records()[k].handle == Some(g) && p0.live(g);
            assert(k == i);
            assert(false);
        }
    }
}

/// The cooldown between shots, in milliseconds.
pub const COOLDOWN_MS: u64 = 300;

/// The magnitude of a bullet's initial velocity, in sub-units.
pub const BULLET_SPEED: i64 = 30_000;

/// The shooting system's local state: when the last bullet left, if any.
#[derive(Clone, Copy, Debug, Eq, PartialEq, Structural)]
pub struct ShootState {
    pub last_shot: Option<u64>,
}

/// Whether enough time has passed since the last shot. Before the first
/// shot the cooldown is ready.
pub open spec fn cooldown_ready(s: ShootState, now_ms: u64) -> bool {
    match s.last_shot {
        None => true,
        Some(t) => now_ms - t > COOLDOWN_MS,
    }
}

/// The first record carrying both the player marker and a transform.
pub open spec fn find_player(recs: Seq<EntityRecord>) -> Option<EntityRecord>
    decreases recs.len(),
{
    if recs.len() == 0 {
        None
    } else if recs[0].player is Some && recs[0].transform is Some {
        Some(recs[0])
    } else {
        find_player(recs.drop_first())
    }
}

/// A record's transform, if it has one, is within the fixed-point range.
pub open spec fn transform_ok(r: EntityRecord) -> bool {
    match r.transform {
        Some(t) => t.wf(),
        None => true,
    }
}

/// Every transform in the store is within the fixed-point range.
pub open spec fn transforms_wf(w: World) -> bool {
    forall|i: int| 0 <= i < w.records().len() ==> transform_ok(#[trigger] w.records()[i])
}

/// Whether this tick fires a bullet: there is a player with a pose, the
/// fire key is held, the cooldown has elapsed, and the pose leaves room to
/// spawn ahead of it.
pub open spec fn shoot_fires(w: World, inp: InputState, s: ShootState, now_ms: u64) -> bool {
    match find_player(w.records()) {
        Some(r) => inp.spec_pressed(Key::Space) && cooldown_ready(s, now_ms) && spawn_clearance(
            r.transform->0,
        ),
        None => false,
    }
}

/// Find the first record with both the player marker and a transform.
fn find_player_exec(world: &World) -> (r: Option<EntityRecord>)
    ensures
        r == find_player(world.records()),
{
    let n = world.len();
    proof {
        assert(world.records().subrange(0, n as int) =~= world.records());
    }
    let mut i: usize = 0;
    while i < n
        invariant
            n == world.records().len(),
            0 <= i <= n,
            find_player(world.records()) == find_player(
                world.records().subrange(i as int, n as int),
            ),
        decreases n - i,
    {
        proof {
            let tail = world.records().subrange(i as int, n as int);
            assert(tail[0] == world.records()[i as int]);
            assert(tail.drop_first() =~= world.records().subrange(i + 1, n as int));
        }
        let r = world.record_at(i);
        let is_player = match r.player {
            Some(_) => true,
            None => false,
        };
        let has_transform = match r.transform {
            Some(_) => true,
            None => false,
        };
        if is_player && has_transform {
            return Some(r);
        }
        i = i + 1;
    }
    proof {
        assert(world.records().subrange(n as int, n as int) =~= Seq::<EntityRecord>::empty());
    }
    None
}

/// Fire a bullet from the player's pose when the fire key is held and the
/// cooldown has elapsed, and reset the cooldown. Runs after player input
/// (it uses this tick's pose) and before the physics step.
pub fn player_shoot(
    world: &mut World,
    physics: &mut Physics,
    input_state: &InputState,
    shoot: &mut ShootState,
    now_ms: u64,
)
    requires
        old(world).wf(),
        old(physics).wf(),
        transforms_wf(*old(world)),
        old(world).spec_next_id() + 1 <= u64::MAX,
        old(world).records().len() + 1 <= usize::MAX,
        old(physics).slots().len() + 1 <= 0x1000_0000_0000_0000,
    ensures
        ({
            let fire = shoot_fires(*old(world), *input_state, *old(shoot), now_ms);
            let t = find_player(old(world).records())->0.transform->0;
            let t2 = bullet_transform(t);
            let vel = bullet_velocity(t, BULLET_SPEED as int);
            &&& !fire ==> *final(world) == *old(world) && *final(physics) == *old(physics)
                && *final(shoot) == *old(shoot)
            &&& fire ==> {
                &&& final(world).records() == old(world).records().push(
                    built_record(
                        bullet_template(t2),
                        old(world).spec_next_id(),
                        old(physics).slots().len() as u64,
                    ),
                )
                &&& final(world).spec_next_id() == old(world).spec_next_id() + 1
                &&& final(physics).slots() == old(physics).slots().push(
                    BodySlot {
                        live: true,
                        entity: old(world).spec_next_id(),
                        body: bullet_body(t2, vel).build(),
                    },
                )
                &&& final(physics).colliders() == old(physics).colliders().push(
                    ColliderRecord {
                        handle: old(physics).slots().len() as u64,
                        collider: bullet_collider(),
                    },
                )
                &&& *final(shoot) == (ShootState { last_shot: Some(now_ms) })
            }
        }),
        final(world).wf(),
        final(physics).wf(),
        transforms_wf(*final(world)),
        final(physics).contacts_buffered() == old(physics).contacts_buffered(),
        final(physics).proximities_buffered() == old(physics).proximities_buffered(),
{
    let player = find_player_exec(world);
    proof {
        lemma_find_player_in(world.records());
    }
    match player {
        Some(r) => {
            let t = match r.transform {
                Some(t) => t,
                None => {
                    proof {
                        assert(false);
                    }
                    Transform::new()
                },
            };
            let pressed = input_state.is_pressed(Key::Space);
            let ready = match shoot.last_shot {
                None => true,
                Some(last) => now_ms > last && now_ms - last > COOLDOWN_MS,
            };
            let clear = -COORD_LIMIT + BULLET_OFFSET <= t.pos.x && t.pos.x <= COORD_LIMIT
                - BULLET_OFFSET && -COORD_LIMIT + BULLET_OFFSET <= t.pos.y && t.pos.y
                <= COORD_LIMIT - BULLET_OFFSET;
            if pressed && ready && clear {
                proof {
                    assert(old(world).records().contains(r));
                    let k = choose|k: int|
                        0 <= k < old(world).records().len() && (#[trigger] old(
                            world,
                        ).records()[k]) == r;
                    assert(transform_ok(old(world).records()[k]));
                    assert(t.wf());
                }
                let builder = BulletBuilder::starting_from(t, BULLET_SPEED);
                builder.create(world, physics);
                shoot.last_shot = Some(now_ms);
                proof {
                    let t2 = bullet_transform(t);
                    let vel = bullet_velocity(t, BULLET_SPEED as int);
                    assert(builder.component_sets() =~= seq![bullet_template(t2)]);
                    assert(builder.body_plans() =~= seq![
                        (bullet_body(t2, vel), bullet_collider()),
                    ]);
                    assert(final(world).records() =~= old(world).records().push(
                        built_record(
                            bullet_template(t2),
                            old(world).spec_next_id(),
                            old(physics).slots().len() as u64,
                        ),
                    ));
                    assert(final(physics).slots() =~= old(physics).slots().push(
                        BodySlot {
                            live: true,
                            entity: old(world).spec_next_id(),
                            body: bullet_body(t2, vel).build(),
                        },
                    ));
                    assert(final(physics).colliders() =~= old(physics).colliders().push(
                        ColliderRecord {
                            handle: old(physics).slots().len() as u64,
                            collider: bullet_collider(),
                        },
                    ));
                    assert forall|i: int|
                        0 <= i < final(world).records().len() implies transform_ok(
                        #[trigger] final(world).records()[i],
                    ) by {
                        if i < old(world).records().len() {
                            assert(final(world).records()[i] == old(world).records()[i]);
                        } else {
                            assert(final(world).records()[i].transform == Some(t2));
                        }
                    }
                }
            }
        },
        None => {},
    }
}

/// A record found by `find_player` is one of the records, with the player
/// marker and a transform.
pub proof fn lemma_find_player_in(recs: Seq<EntityRecord>)
    ensures
        match find_player(recs) {
            Some(r) => recs.contains(r) && r.player is Some && r.transform is Some,
            None => true,
        },
    decreases recs.len(),
{
    if recs.len() > 0 {
        if recs[0].player is Some && recs[0].transform is Some {
            assert(recs.contains(recs[0]));
        } else {
            lemma_find_player_in(recs.drop_first());
            match find_player(recs.drop_first()) {
                Some(r) => {
                    let k = choose|k: int|
                        0 <= k < recs.drop_first().len() && recs.drop_first()[k] == r;
                    assert(recs[k + 1] == r);
                    assert(recs.contains(r));
                },
                None => {},
            }
        }
    }
}

/// A shot recorded at `t1` blocks every shot until more than `COOLDOWN_MS`
/// later: with the fire key held continuously, shots are always more than
/// one cooldown apart.
pub proof fn lemma_cooldown_spacing(t1: u64, now_ms: u64)
    requires
        cooldown_ready(ShootState { last_shot: Some(t1) }, now_ms),
    ensures
        now_ms > t1 + COOLDOWN_MS,
{
}

/// A record with the pose of its live rigid body copied into its transform;
/// a record without body or transform, or with a stale handle, is untouched.
pub open spec fn synced_record(r: EntityRecord, p: Physics) -> EntityRecord {
    match (r.handle, r.transform) {
        (Some(h), Some(t)) => if p.live(h) {
            EntityRecord {
                transform: Some(
                    Transform {
                        pos: p.slots()[h as int].body.pos,
                        angle: p.slots()[h as int].body.angle,
                        forward: p.slots()[h as int].body.forward,
                        scale: t.scale,
                    },
                ),
                ..r
            }
        } else {
            r
        },
        _ => r,
    }
}

/// Copy each simulated entity's rigid-body pose into its transform. Runs
/// after the physics step: the transform is a read-only projection of body
/// state for every other system and for rendering.
pub fn physics_transform(world: &mut World, physics: &Physics)
    requires
        old(world).wf(),
        physics.wf(),
        transforms_wf(*old(world)),
    ensures
        final(world).records() == old(world).records().map_values(
            |r: EntityRecord| synced_record(r, *physics),
        ),
        final(world).spec_next_id() == old(world).spec_next_id(),
        final(world).wf(),
        transforms_wf(*final(world)),
{
    let n = world.len();
    let ghost target = old(world).records().map_values(
        |r: EntityRecord| synced_record(r, *physics),
    );
    let mut i: usize = 0;
    while i < n
        invariant
            physics.wf(),
            transforms_wf(*old(world)),
            n == old(world).records().len(),
            0 <= i <= n,
            world.wf(),
            world.records().len() == n,
            world.spec_next_id() == old(world).spec_next_id(),
            target == old(world).records().map_values(
                |r: EntityRecord| synced_record(r, *physics),
            ),
            forall|j: int| 0 <= j < i ==> (#[trigger] world.records()[j]) == target[j],
            forall|j: int|
                i <= j < n ==> (#[trigger] world.records()[j]) == old(world).records()[j],
        decreases n - i,
    {
        let r = world.record_at(i);
        let has_both = match (r.handle, r.transform) {
            (Some(_), Some(_)) => true,
            _ => false,
        };
        if has_both {
            let h = match r.handle {
                Some(h) => h,
                None => 0,
            };
            let t = match r.transform {
                Some(t) => t,
                None => Transform::new(),
            };
            match physics.body_of(h) {
                Ok(b) => {
                    let mut nt = t;
                    nt.set_pose(b.pos, b.angle, b.forward);
                    world.set_at(i, EntityRecord { transform: Some(nt), ..r });
                },
                Err(_) => {},
            }
        }
        i = i + 1;
    }
    proof {
        assert(final(world).records() =~= target);
        assert forall|i2: int|
            0 <= i2 < final(world).records().len() implies transform_ok(
            #[trigger] final(world).records()[i2],
        ) by {
            assert(final(world).records()[i2] == synced_record(
                old(world).records()[i2],
                *physics,
            ));
            let r = old(world).records()[i2];
            match (r.handle, r.transform) {
                (Some(h), Some(t)) => {
                    if physics.live(h) {
                        assert(physics.slots()[h as int].body.bounded());
                    }
                },
                _ => {},
            }
        }
    }
}

/// Recompute the camera from the player's transform; without a player the
/// view is unchanged.
pub fn player_position(world: &World, view: &mut Camera)
    requires
        world.wf(),
    ensures
        *final(view) == match find_player(world.records()) {
            Some(r) => Camera { origin: r.transform->0.pos },
            None => *old(view),
        },
{
    let player = find_player_exec(world);
    proof {
        lemma_find_player_in(world.records());
    }
    match player {
        Some(r) => {
            match r.transform {
                Some(t) => {
                    view.origin = t.pos;
                },
                None => {
                    proof {
                        assert(false);
                    }
                },
            }
        },
        None => {},
    }
}

/// A body re-projected into the toroidal world: each position axis is
/// folded modulo the bound; velocity, heading and everything else are kept.
pub open spec fn wrapped_body(b: Body, bounds: WorldBounds) -> Body {
    Body {
        pos: Vec2 {
            x: wrap_spec(b.pos.x as int, bounds.w as int) as i64,
            y: wrap_spec(b.pos.y as int, bounds.h as int) as i64,
        },
        ..b
    }
}

/// Re-project every live body into the world bounds. A physics-level
/// mutation: the position is written back into the body, after the step and
/// before rendering, so a wrapped body keeps its physical continuity —
/// velocity preserved, only the position folded.
pub fn world_wrap(physics: &mut Physics, bounds: &WorldBounds)
    requires
        old(physics).wf(),
        bounds.wf(),
    ensures
        final(physics).slots().len() == old(physics).slots().len(),
        forall|h: int|
            0 <= h < old(physics).slots().len() ==> (#[trigger] final(physics).slots()[h]) == (
            if old(physics).slots()[h].live {
                BodySlot {
                    body: wrapped_body(old(physics).slots()[h].body, *bounds),
                    ..old(physics).slots()[h]
                }
            } else {
                old(physics).slots()[h]
            }),
        forall|h: int|
            0 <= h < final(physics).slots().len() && final(physics).slots()[h].live ==> {
                &&& 0 <= (#[trigger] final(physics).slots()[h]).body.pos.x < bounds.w
                &&& 0 <= final(physics).slots()[h].body.pos.y < bounds.h
                &&& final(physics).slots()[h].body.linvel == old(physics).slots()[h].body.linvel
                &&& final(physics).slots()[h].body.angvel == old(physics).slots()[h].body.angvel
            },
        final(physics).colliders() == old(physics).colliders(),
        final(physics).contacts_buffered() == old(physics).contacts_buffered(),
        final(physics).proximities_buffered() == old(physics).proximities_buffered(),
        final(physics).wf(),
        final(physics).handle_map() =~= old(physics).handle_map(),
{
    let n = physics.num_bodies();
    proof {
        physics.lemma_slots_len_bound();
    }
    let mut i: usize = 0;
    while i < n
        invariant
            old(physics).wf(),
            bounds.wf(),
            n == old(physics).slots().len(),
            0 <= i <= n,
            physics.slots().len() == n,
            forall|h: int|
                0 <= h < i ==> (#[trigger] physics.slots()[h]) == (if old(
                    physics,
                ).slots()[h].live {
                    BodySlot {
                        body: wrapped_body(old(physics).slots()[h].body, *bounds),
                        ..old(physics).slots()[h]
                    }
                } else {
                    old(physics).slots()[h]
                }),
            forall|h: int|
                i <= h < n ==> (#[trigger] physics.slots()[h]) == old(physics).slots()[h],
            physics.colliders() == old(physics).colliders(),
            physics.contacts_buffered() == old(physics).contacts_buffered(),
            physics.proximities_buffered() == old(physics).proximities_buffered(),
            physics.wf(),
        decreases n - i,
    {
        let s = physics.slot_at(i);
        if s.live {
            let b = s.body;
            let nx = wrap_coord(b.pos.x, bounds.w);
            let ny = wrap_coord(b.pos.y, bounds.h);
            let nb = Body { pos: Vec2 { x: nx, y: ny }, ..b };
            physics.set_body(i as u64, nb);
        }
        i = i + 1;
    }
    proof {
        assert forall|g: u64| #[trigger] final(physics).live(g) == old(physics).live(g) by {
            if (g as int) < old(physics).slots().len() {
                assert(final(physics).slots()[g as int].live == old(physics).slots()[
                    g as int].live);
            }
        }
        assert(final(physics).handle_map() =~= old(physics).handle_map());
    }
}

/// Half the visible width, in sub-units: the orthographic projection shows
/// this many sub-units on each side of the camera.
pub const SPRITES_PER_HALF_SCREEN: i64 = 15_000;

/// Half the visible height, in sub-units: the half width over the window's
/// aspect ratio.
pub open spec fn view_half_height(dims: WindowDimensions) -> int {
    (SPRITES_PER_HALF_SCREEN * dims.h as int) / (dims.w as int)
}

/// Whether a world position projects outside the visible region around the
/// camera.
pub open spec fn out_of_view(pos: Vec2, origin: Vec2, hy: int) -> bool {
    ||| pos.x - origin.x < -SPRITES_PER_HALF_SCREEN
    ||| pos.x - origin.x > SPRITES_PER_HALF_SCREEN
    ||| pos.y - origin.y < -hy
    ||| pos.y - origin.y > hy
}

/// Whether culling removes this record: it is marked transient and its
/// view-projected position leaves the visible region. The view-relative
/// position does not account for the world wrap, so an entity that wraps
/// before the camera does may be culled early; a tolerated approximation.
pub open spec fn culled(r: EntityRecord, cam: Camera, dims: WindowDimensions) -> bool {
    &&& r.cull is Some
    &&& match r.transform {
        Some(t) => out_of_view(t.pos, cam.origin, view_half_height(dims)),
        None => false,
    }
}

/// Whether some culled record owns the body behind `h`.
pub open spec fn culled_handle(
    recs: Seq<EntityRecord>,
    cam: Camera,
    dims: WindowDimensions,
    h: u64,
) -> bool {
    exists|i: int|
        0 <= i < recs.len() && culled(#[trigger] recs[i], cam, dims) && recs[i].handle == Some(h)
}

/// An element mapped to `Some` is in the `filter_map` image.
proof fn lemma_filter_map_covers<A, B>(s: Seq<A>, f: spec_fn(A) -> Option<B>, i: int)
    requires
        0 <= i < s.len(),
        f(s[i]) is Some,
    ensures
        s.filter_map(f).contains(f(s[i])->0),
    decreases s.len(),
{
    if i == s.len() - 1 {
        assert(s.drop_last().filter_map(f) + seq![f(s[i])->0] == s.filter_map(f));
        let m = s.filter_map(f);
        assert(m[m.len() - 1] == f(s[i])->0);
    } else {
        lemma_filter_map_covers(s.drop_last(), f, i);
        let m = s.drop_last().filter_map(f);
        let k = choose|k: int| 0 <= k < m.len() && m[k] == f(s[i])->0;
        assert(s.filter_map(f)[k] == f(s[i])->0);
    }
}

/// Remove every transient entity whose view-projected position left the
/// visible region, and release its rigid body. Deferred: the records to
/// drop are collected first, then removed, never while the store is
/// iterated.
pub fn culling(world: &mut World, physics: &mut Physics, dims: &WindowDimensions, view: &Camera)
    requires
        old(world).wf(),
        old(physics).wf(),
        transforms_wf(*old(world)),
        dims.wf(),
        view.origin.bounded(),
    ensures
        final(world).records() == old(world).records().filter(
            |r: EntityRecord| !culled(r, *view, *dims),
        ),
        final(world).spec_next_id() == old(world).spec_next_id(),
        final(world).wf(),
        transforms_wf(*final(world)),
        final(physics).slots().len() == old(physics).slots().len(),
        forall|h: int|
            0 <= h < old(physics).slots().len() ==> (#[trigger] final(physics).slots()[h]) == (
            if old(physics).slots()[h].live && culled_handle(
                old(world).records(),
                *view,
                *dims,
                h as u64,
            ) {
                BodySlot { live: false, ..old(physics).slots()[h] }
            } else {
                old(physics).slots()[h]
            }),
        final(physics).colliders() == old(physics).colliders(),
        final(physics).contacts_buffered() == old(physics).contacts_buffered(),
        final(physics).proximities_buffered() == old(physics).proximities_buffered(),
        final(physics).wf(),
{
    let ghost cpred = |r: EntityRecord| culled(r, *view, *dims);
    let hy = (SPRITES_PER_HALF_SCREEN * (dims.h as i64)) / (dims.w as i64);
    proof {
        assert(SPRITES_PER_HALF_SCREEN * (dims.h as int) >= 0 && SPRITES_PER_HALF_SCREEN * (
        dims.h as int) <= 15_000 * 0xFFFF_FFFF) by (nonlinear_arith)
            requires
                0 < dims.h <= 0xFFFF_FFFF,
        ;
        assert(hy == view_half_height(*dims));
    }
    let n = world.len();
    let mut ids: Vec<u64> = Vec::new();
    let mut handles: Vec<u64> = Vec::new();
    let mut i: usize = 0;
    while i < n
        invariant
            world.wf(),
            transforms_wf(*world),
            dims.wf(),
            view.origin.bounded(),
            n == world.records().len(),
            0 <= i <= n,
            cpred == (|r: EntityRecord| culled(r, *view, *dims)),
            hy == view_half_height(*dims),
            ids@ == world.records().subrange(0, i as int).filter(cpred).map_values(
                |r: EntityRecord| r.id,
            ),
            handles@ == world.records().subrange(0, i as int).filter(cpred).filter_map(
                |r: EntityRecord| r.handle,
            ),
        decreases n - i,
    {
        proof {
            let pre = world.records().subrange(0, i as int);
            let post = world.records().subrange(0, i + 1);
            assert(post.drop_last() =~= pre);
            assert(post.last() == world.records()[i as int]);
            reveal(Seq::filter);
        }
        let r = world.record_at(i);
        let is_cull = match r.cull {
            Some(_) => true,
            None => false,
        };
        let is_out = match r.transform {
            Some(t) => {
                proof {
                    assert(transform_ok(world.records()[i as int]));
                }
                t.pos.x - view.origin.x < -SPRITES_PER_HALF_SCREEN || t.pos.x - view.origin.x
                    > SPRITES_PER_HALF_SCREEN || t.pos.y - view.origin.y < -hy || t.pos.y
                    - view.origin.y > hy
            },
            None => false,
        };
        if is_cull && is_out {
            ids.push(r.id);
            match r.handle {
                Some(h) => handles.push(h),
                None => {},
            }
            proof {
                let pre = world.records().subrange(0, i as int);
                let prefil = pre.filter(cpred);
                assert(ids@ =~= prefil.push(r).map_values(|r: EntityRecord| r.id));
                assert(prefil.push(r) =~= prefil + seq![r]);
                assert((prefil + seq![r]).drop_last() =~= prefil);
                assert(handles@ =~= (prefil + seq![r]).filter_map(
                    |r: EntityRecord| r.handle,
                ));
            }
        }
        i = i + 1;
    }
    proof {
        assert(world.records().subrange(0, n as int) =~= world.records());
    }
    let ghost recs0 = world.records();
    let ghost culled_seq = recs0.filter(cpred);
    world.remove_ids(&ids);
    proof {
        // A record is listed in `ids` exactly when it is culled, so the two
        // filters agree.
        assert forall|k: int|
            0 <= k < recs0.len() implies (ids@.contains((#[trigger] recs0[k]).id) == cpred(
            recs0[k],
        )) by {
            if cpred(recs0[k]) {
                recs0.lemma_filter_contains(cpred, k);
                let j = choose|j: int| 0 <= j < culled_seq.len() && culled_seq[j] == recs0[k];
                assert(ids@[j] == recs0[k].id);
            }
            if ids@.contains(recs0[k].id) {
                let j = choose|j: int| 0 <= j < ids@.len() && ids@[j] == recs0[k].id;
                assert(culled_seq[j].id == recs0[k].id);
                recs0.lemma_filter_contains_rev(cpred, culled_seq[j]);
                let m = choose|m: int| 0 <= m < recs0.len() && recs0[m] == culled_seq[j];
                old(world).lemma_id_determines_index(m, k);
                recs0.lemma_filter_pred(cpred, j);
            }
        }
        lemma_filter_congruent(
            recs0,
            |r: EntityRecord| !ids@.contains(r.id),
            |r: EntityRecord| !culled(r, *view, *dims),
        );
        // Every kept record comes from the original store.
        assert forall|k: int|
            0 <= k < world.records().len() implies transform_ok(
            #[trigger] world.records()[k],
        ) by {
            let kept = recs0.filter(|r: EntityRecord| !culled(r, *view, *dims));
            assert(kept.contains(kept[k]));
            recs0.lemma_filter_contains_rev(|r: EntityRecord| !culled(r, *view, *dims), kept[k]);
            let m = choose|m: int| 0 <= m < recs0.len() && recs0[m] == kept[k];
            assert(transform_ok(recs0[m]));
        }
    }
    let ghost p0 = *physics;
    let m = handles.len();
    proof {
        physics.lemma_slots_len_bound();
    }
    let mut j: usize = 0;
    while j < m
        invariant
            p0.wf(),
            m == handles@.len(),
            0 <= j <= m,
            p0.slots().len() <= usize::MAX,
            physics.slots().len() == p0.slots().len(),
            forall|h: int|
                0 <= h < p0.slots().len() ==> (#[trigger] physics.slots()[h]) == (if p0.slots()[
                    h
                ].live && handles@.subrange(0, j as int).contains(h as u64) {
                    BodySlot { live: false, ..p0.slots()[h] }
                } else {
                    p0.slots()[h]
                }),
            physics.colliders() == p0.colliders(),
            physics.contacts_buffered() == p0.contacts_buffered(),
            physics.proximities_buffered() == p0.proximities_buffered(),
            physics.wf(),
        decreases m - j,
    {
        let h = handles[j];
        let _ = physics.remove(h);
        proof {
            assert forall|g: int|
                0 <= g < p0.slots().len() implies (#[trigger] physics.slots()[g]) == (if p0.slots()[
                    g
                ].live && handles@.subrange(0, j + 1).contains(g as u64) {
                    BodySlot { live: false, ..p0.slots()[g] }
                } else {
                    p0.slots()[g]
                }) by {
                let sub1 = handles@.subrange(0, j as int);
                let sub2 = handles@.subrange(0, j + 1);
                assert(sub2.drop_last() =~= sub1);
                assert(sub2.last() == h);
                if sub2.contains(g as u64) && !sub1.contains(g as u64) {
                    let w = choose|w: int| 0 <= w < sub2.len() && sub2[w] == g as u64;
                    if w < j {
                        assert(sub1[w] == g as u64);
                    }
                    assert(g as u64 == h);
                }
                if sub1.contains(g as u64) {
                    let w = choose|w: int| 0 <= w < sub1.len() && sub1[w] == g as u64;
                    assert(sub2[w] == g as u64);
                }
            }
        }
        j = j + 1;
    }
    proof {
        assert(handles@.subrange(0, m as int) =~= handles@);
        // A handle is listed exactly when a culled record owns it.
        assert forall|h: int|
            0 <= h < p0.slots().len() implies (#[trigger] handles@.contains(h as u64)
                == culled_handle(old(world).records(), *view, *dims, h as u64)) by {
            if handles@.contains(h as u64) {
                culled_seq.lemma_filter_map_contains(|r: EntityRecord| r.handle, h as u64);
                let t = choose|t: EntityRecord|
                    #![auto]
                    culled_seq.contains(t) && (|r: EntityRecord| r.handle)(t) == Some(h as u64);
                let w = choose|w: int| 0 <= w < culled_seq.len() && culled_seq[w] == t;
                recs0.lemma_filter_pred(cpred, w);
                recs0.lemma_filter_contains_rev(cpred, t);
                let k = choose|k: int| 0 <= k < recs0.len() && recs0[k] == t;
                assert(culled(recs0[k], *view, *dims) && recs0[k].handle == Some(h as u64));
            }
            if culled_handle(old(world).records(), *view, *dims, h as u64) {
                let k = choose|k: int|
                    0 <= k < recs0.len() && culled(#[trigger] recs0[k], *view, *dims) && recs0[
                        k
                    ].handle == Some(h as u64);
                recs0.lemma_filter_contains(cpred, k);
                let w = choose|w: int| 0 <= w < culled_seq.len() && culled_seq[w] == recs0[k];
                lemma_filter_map_covers(culled_seq, |r: EntityRecord| r.handle, w);
            }
        }
    }
}


/// Filters under pointwise-equivalent predicates are equal.
pub proof fn lemma_filter_congruent<A>(s: Seq<A>, p: spec_fn(A) -> bool, q: spec_fn(A) -> bool)
    requires
        forall|i: int| 0 <= i < s.len() ==> p(#[trigger] s[i]) == q(s[i]),
    ensures
        s.filter(p) =~= s.filter(q),
    decreases s.len(),
{
    reveal(Seq::filter);
    if s.len() > 0 {
        assert(s[s.len() - 1] == s.last());
        assert(forall|i: int| 0 <= i < s.drop_last().len() ==> p(#[trigger] s.drop_last()[i]) == q(
            s.drop_last()[i],
        ));
        lemma_filter_congruent(s.drop_last(), p, q);
    }
}

/// The entity a proximity event damages, if any: when a projectile and an
/// asteroid meet, the asteroid is hit. An event naming an entity no longer
/// in the store is dropped, so a removal earlier in the tick cannot make
/// dispatch fail.
pub open spec fn hit_target(w: World, e: EntityProximityEvent) -> Option<u64> {
    if w.spec_contains(e.e1) && w.spec_contains(e.e2) {
        let t1 = w.spec_get(e.e1).tag;
        let t2 = w.spec_get(e.e2).tag;
        if t1 == Some(EntityTag(TAG_PROJECTILE)) && t2 == Some(EntityTag(TAG_ASTEROID)) {
            Some(e.e2)
        } else if t1 == Some(EntityTag(TAG_ASTEROID)) && t2 == Some(EntityTag(TAG_PROJECTILE)) {
            Some(e.e1)
        } else {
            None
        }
    } else {
        None
    }
}

/// Dispatch this tick's proximity events: the entities hit by a projectile,
/// in event order. Events naming removed entities are skipped.
pub fn resolve_hits(world: &World, events: &Vec<EntityProximityEvent>) -> (r: Vec<u64>)
    requires
        world.wf(),
    ensures
        r@ == events@.filter_map(|e: EntityProximityEvent| hit_target(*world, e)),
{
    let ghost f = |e: EntityProximityEvent| hit_target(*world, e);
    let n = events.len();
    let mut out: Vec<u64> = Vec::new();
    let mut i: usize = 0;
    while i < n
        invariant
            world.wf(),
            n == events@.len(),
            0 <= i <= n,
            f == (|e: EntityProximityEvent| hit_target(*world, e)),
            out@ == events@.subrange(0, i as int).filter_map(f),
        decreases n - i,
    {
        proof {
            let pre = events@.subrange(0, i as int);
            let post = events@.subrange(0, i + 1);
            assert(post.drop_last() =~= pre);
            assert(post.last() == events@[i as int]);
        }
        let e = events[i];
        let r1 = world.get(e.e1);
        let r2 = world.get(e.e2);
        match (r1, r2) {
            (Some(rec1), Some(rec2)) => {
                let tag1 = match rec1.tag {
                    Some(t) => t.0,
                    None => 0,
                };
                let tag2 = match rec2.tag {
                    Some(t) => t.0,
                    None => 0,
                };
                let has1 = match rec1.tag {
                    Some(_) => true,
                    None => false,
                };
                let has2 = match rec2.tag {
                    Some(_) => true,
                    None => false,
                };
                if has1 && has2 && tag1 == TAG_PROJECTILE && tag2 == TAG_ASTEROID {
                    out.push(e.e2);
                } else if has1 && has2 && tag1 == TAG_ASTEROID && tag2 == TAG_PROJECTILE {
                    out.push(e.e1);
                }
            },
            _ => {},
        }
        i = i + 1;
    }
    proof {
        assert(events@.subrange(0, n as int) =~= events@);
    }
    out
}

} // verus!
