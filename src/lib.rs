//! A two-dimensional gravity simulation: a fixed primary body, satellites that
//! spawn at the edges of a region, fall under the primary's gravity, collide,
//! leave the region, or are captured as moons once their orbit is elliptical.
//!
//! All quantities are integers: lengths in micro-pixels, times in
//! milliseconds, velocities in micro-pixels per millisecond, angles in
//! micro-radians. `systems::step` advances the world by one tick.

pub mod components;
pub mod laws;
pub mod physics;
mod random;
pub mod resources;
pub mod systems;
pub mod traits;
pub mod world;
