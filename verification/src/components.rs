use vstd::prelude::*;

verus! {

use crate::math::{Vec2, COORD_LIMIT, SCALE};

/// A bitset classifying an entity (player / enemy / asteroid / projectile,
/// plus OR-combinations), used for collision-response dispatch.
#[derive(Clone, Copy, Debug, Eq, PartialEq, Structural)]
pub struct EntityTag(pub u32);

pub const TAG_PLAYER: u32 = 0b00000001;

pub const TAG_ENEMY: u32 = 0b00000010;

pub const TAG_ASTEROID: u32 = 0b00000100;

pub const TAG_PROJECTILE: u32 = 0b00001000;

pub const TAG_ENEMY_OR_ASTEROID: u32 = 0b00000110;

pub const TAG_PLAYER_OR_ASTEROID: u32 = 0b00000101;

impl EntityTag {
    /// Whether the two classifications share a bit.
    pub fn intersects(&self, other: &EntityTag) -> (r: bool)
        ensures
            r == ((self.0 & other.0) != 0),
    {
        (self.0 & other.0) != 0
    }
}

/// Marks the player-controlled entity.
#[derive(Clone, Copy, Debug, Eq, PartialEq, Structural)]
pub struct Player;

/// Projectile metadata: which classifications it may damage, and how much.
#[derive(Clone, Copy, Debug, Eq, PartialEq, Structural)]
pub struct Projectile {
    pub can_hit: EntityTag,
    pub damage: u32,
}

/// Marks an entity to be removed once it leaves the visible region.
#[derive(Clone, Copy, Debug, Eq, PartialEq, Structural)]
pub struct Cull;

/// Remaining hit points.
#[derive(Clone, Copy, Debug, Eq, PartialEq, Structural)]
pub struct Health(pub u32);

/// An RGB tint with 8-bit channels.
#[derive(Clone, Copy, Debug, Eq, PartialEq, Structural)]
pub struct Rgb {
    pub red: u8,
    pub green: u8,
    pub blue: u8,
}

/// A sprite cell index into the fixed spritesheet grid, plus an RGB tint.
/// Purely a rendering attribute; no simulation role.
#[derive(Clone, Copy, Debug, Eq, PartialEq, Structural)]
pub struct Sprite {
    pub index: usize,
    pub color: Rgb,
}

/// An entity's pose for rendering: a projection of its rigid body's state.
/// For a physically simulated entity this is derived state — only the
/// physics-transform step writes it back from the body.
#[derive(Clone, Copy, Debug, Eq, PartialEq, Structural)]
pub struct Transform {
    /// Position in fixed-point sub-units.
    pub pos: Vec2,
    /// Orientation in fixed-point milliradians.
    pub angle: i64,
    /// The unit "up" direction rotated by `angle`, scaled by `SCALE`.
    pub forward: Vec2,
    /// Non-uniform scale in fixed-point sub-units per unit.
    pub scale: Vec2,
}

impl Transform {
    /// Every coordinate of the pose is within the fixed-point range.
    pub open spec fn wf(self) -> bool {
        &&& self.pos.bounded()
        &&& self.forward.bounded()
        &&& self.scale.bounded()
        &&& -COORD_LIMIT <= self.angle <= COORD_LIMIT
    }

    /// The identity pose: at the origin, unrotated, unit scale.
    pub open spec fn identity() -> Transform {
        Transform {
            pos: Vec2 { x: 0, y: 0 },
            angle: 0,
            forward: Vec2 { x: 0, y: SCALE },
            scale: Vec2 { x: SCALE, y: SCALE },
        }
    }

    pub fn new() -> (r: Transform)
        ensures
            r == Transform::identity(),
    {
        Transform {
            pos: Vec2 { x: 0, y: 0 },
            angle: 0,
            forward: Vec2 { x: 0, y: SCALE },
            scale: Vec2 { x: SCALE, y: SCALE },
        }
    }

    pub fn with_translation(self, pos: Vec2) -> (r: Transform)
        ensures
            r == (Transform { pos, ..self }),
    {
        Transform { pos, ..self }
    }

    pub fn with_scale(self, scale: Vec2) -> (r: Transform)
        ensures
            r == (Transform { scale, ..self }),
    {
        Transform { scale, ..self }
    }

    /// Shift the pose left along the x axis.
    pub fn move_left(&mut self, val: i64)
        requires
            i64::MIN <= old(self).pos.x - val <= i64::MAX,
        ensures
            *final(self) == (Transform {
                pos: Vec2 { x: (old(self).pos.x - val) as i64, ..old(self).pos },
                ..*old(self)
            }),
    {
        self.pos.x = self.pos.x - val;
    }

    /// Shift the pose right along the x axis.
    pub fn move_right(&mut self, val: i64)
        requires
            i64::MIN <= old(self).pos.x + val <= i64::MAX,
        ensures
            *final(self) == (Transform {
                pos: Vec2 { x: (old(self).pos.x + val) as i64, ..old(self).pos },
                ..*old(self)
            }),
    {
        self.pos.x = self.pos.x + val;
    }

    /// Overwrite the pose from a rigid body's position, orientation and
    /// heading, keeping the scale.
    pub fn set_pose(&mut self, pos: Vec2, angle: i64, forward: Vec2)
        ensures
            *final(self) == (Transform { pos, angle, forward, scale: old(self).scale }),
    {
        self.pos = pos;
        self.angle = angle;
        self.forward = forward;
    }
}

impl Default for Transform {
    fn default() -> (r: Transform)
        ensures
            r == Transform::identity(),
    {
        Transform::new()
    }
}

} // verus!
