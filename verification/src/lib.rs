//! The simulation core of a 2D arcade game: a player-controlled ship,
//! asteroids and projectiles moving in a toroidal world. The library owns
//! the entity store, the physics bridge (handle stability, the
//! handle-to-entity reverse map, event translation), the input state
//! machine, the entity builders, and the fixed per-tick system schedule.
//! Rendering, the window event loop and the rigid-body solver's numeric
//! integration are external collaborators: a caller feeds raw input events
//! in, runs the solver between the two tick phases, and draws from the
//! final transforms. All quantities are fixed-point integers, `SCALE`
//! sub-units per world unit.

use vstd::prelude::*;

pub mod components;
pub mod event_queue;
pub mod factories;
pub mod game;
pub mod input;
pub mod math;
pub mod physics;
pub mod resources;
pub mod store;
pub mod systems;
pub mod types;

verus! {

} // verus!
