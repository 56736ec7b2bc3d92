use vstd::prelude::*;

verus! {

use crate::math::{Vec2, COORD_LIMIT, SCALE};

/// The fixed rectangular extent of the toroidal world, in fixed-point
/// sub-units. Read-only after initialization.
#[derive(Clone, Copy, Debug, Eq, PartialEq, Structural)]
pub struct WorldBounds {
    pub w: i64,
    pub h: i64,
}

impl WorldBounds {
    /// Both extents are positive and small enough for the fixed-point
    /// arithmetic.
    pub open spec fn wf(self) -> bool {
        &&& 0 < self.w <= COORD_LIMIT
        &&& 0 < self.h <= COORD_LIMIT
    }

    /// The midpoint of the extent, where the player starts.
    pub fn center(&self) -> (r: Vec2)
        requires
            self.wf(),
        ensures
            r.x == self.w / 2,
            r.y == self.h / 2,
            r.bounded(),
    {
        Vec2 { x: self.w / 2, y: self.h / 2 }
    }
}

impl Default for WorldBounds {
    /// A world of 100 by 50 units.
    fn default() -> (r: WorldBounds)
        ensures
            r.w == 100 * SCALE,
            r.h == 50 * SCALE,
            r.wf(),
    {
        WorldBounds { w: 100 * SCALE, h: 50 * SCALE }
    }
}

/// The window's pixel dimensions; the aspect ratio `w / h` shapes the
/// visible region used for culling.
#[derive(Clone, Copy, Debug, Eq, PartialEq, Structural)]
pub struct WindowDimensions {
    pub w: u32,
    pub h: u32,
}

impl WindowDimensions {
    /// Both pixel extents are positive, so the aspect ratio is meaningful.
    pub open spec fn wf(self) -> bool {
        &&& 0 < self.w
        &&& 0 < self.h
    }
}

impl Default for WindowDimensions {
    fn default() -> (r: WindowDimensions)
        ensures
            r.w == 960,
            r.h == 540,
            r.wf(),
    {
        WindowDimensions { w: 960, h: 540 }
    }
}

} // verus!
