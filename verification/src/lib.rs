//! A verified simulation core for evolving vehicle agents on procedurally
//! generated closed-loop tracks.
//!
//! Coordinates, velocities and angles are plain `i64` values in a fixed-point
//! encoding: one whole unit of the trigonometric and time scales is
//! [`geom::FP`]. Callers that work in floating point convert at the boundary.

pub mod car;
pub mod geom;
pub mod rng;
pub mod select;
pub mod sensor;
pub mod track;
