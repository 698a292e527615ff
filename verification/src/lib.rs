//! Simulation core for a top-down ball-sports match: fixed-point vector
//! geometry, axis-aligned ball physics with bounce and drag, a pass-target
//! heuristic, and the ball ownership state machine.
//!
//! All world quantities (positions, velocities, distances) are fixed-point
//! integers: one world unit is `geom::SCALE` ticks. Directions are eighth
//! turns (0 = facing up, clockwise).

pub mod ball;
pub mod geom;
pub mod physics;
pub mod player;
pub mod target;
