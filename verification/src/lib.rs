//! A verified boids flocking simulation core.
//!
//! Agents move through a bounded 3D volume, each steering by three local
//! rules (separation, alignment, cohesion) plus a boundary force and a
//! drag force that softly caps speed. All state is held in fixed-point
//! integer coordinates so that every step of the per-tick computation is
//! specified and proved exactly.

pub mod flock;
pub mod laws;
pub mod math;
pub mod spawn;
