use vstd::prelude::*;

verus! {

use crate::event_queue::SharedEventQueue;
use crate::input::InputEvent;
use crate::math::Vec2;

/// The queue of raw platform events, drained fully once per tick.
pub type InputEventQueue = SharedEventQueue<InputEvent>;

/// The camera: the world position the view is centered on, taken from the
/// player's transform each tick. The view transformation is the translation
/// by its negation.
#[derive(Clone, Copy, Debug, Eq, PartialEq, Structural)]
pub struct Camera {
    pub origin: Vec2,
}

impl Default for Camera {
    fn default() -> (r: Camera)
        ensures
            r.origin == (Vec2 { x: 0, y: 0 }),
    {
        Camera { origin: Vec2 { x: 0, y: 0 } }
    }
}

} // verus!
