//! A fixed-tick breakout simulation over integer fixed-point geometry.
//!
//! Positions are measured in micro-units (one arena unit is `SCALE`
//! micro-units) and a direction of length one has length `SCALE`.

mod outside;
pub mod geometry;
pub mod entities;
pub mod systems;
