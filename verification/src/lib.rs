//! A real-time two-dimensional incompressible-flow solver on a fixed
//! staggered grid. Velocity, pressure and a passive smoke density advance
//! one timestep at a time, subject to solid obstacles and scene presets.
//!
//! All field values are fixed-point numbers: an `i64` holds the value times
//! `fixed::FP_ONE`, and every arithmetic helper saturates at
//! `fixed::FP_SAT`, so no step of the simulation can overflow or panic.

pub mod fixed;
pub mod fluid;
pub mod scene;
pub mod laws;

use vstd::prelude::*;

verus! {

} // verus!
