//! Fixed-point core of an interactive 3D vector-field visualizer: point-charge
//! superposition, lattice sampling with normalization, arrow transforms with
//! replay, and camera projection onto a 2D viewport.
//!
//! All lengths, charges, field values and colors are fixed-point integers in
//! units of `1 / SCALE` (see [`fixed`]).

pub mod fixed;
pub mod geometry;
pub mod charge;
pub mod arrow;
pub mod field;
pub mod view;
