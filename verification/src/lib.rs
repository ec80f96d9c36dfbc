//! Core of a fixed-step 2D platformer simulation: a curve sampler that turns
//! elapsed time into eased scalars, axis-aligned collider geometry, a layered
//! index of static entities with an incremental sweep collision query, and the
//! player state machine that integrates motion against that index.
//!
//! All quantities are integers: positions and sizes are whole pixels, and time
//! is counted in units of one third of a millisecond, so that the waveform
//! sample period of 1000/30 ms is exactly 100 units.

pub mod collider;
pub mod entity;
pub mod geom;
pub mod player;
pub mod static_layers;
pub mod tween;
