//! A 2D flocking ("boids") simulation core over exact integer arithmetic.
//!
//! Positions, velocities, radii and weights are `i64` values; distances are
//! compared through their squares, averages use division truncated toward
//! zero, and the speed cap rescales through an integer ceiling square root.
//! Every step of the per-tick computation is specified against a
//! mathematical model over unbounded integers.

pub mod boids;
pub mod components;
pub mod entities;
pub mod laws;
pub mod mouse;
pub mod math;
pub mod physics;
mod rng;
pub mod world;

use vstd::prelude::*;

verus! {

/// Largest magnitude allowed for a position coordinate or a radius.
pub const P_MAX: i64 = 1099511627776;

/// Largest magnitude allowed for a velocity coordinate or a maximum speed.
pub const V_MAX: i64 = 1048576;

/// Largest magnitude allowed for a steering weight (in hundredths).
pub const W_MAX: i64 = 1024;

/// Largest tick duration accepted by the integrator.
pub const DT_MAX: i64 = 1024;

/// Weights are stored in hundredths: a stored weight of 100 scales by one.
pub const WEIGHT_SCALE: i64 = 100;

/// Largest obstacle population accepted by the avoidance pass.
pub const N_MAX: usize = 1024;

/// Positions at most this far from the origin can be integrated for one
/// tick without leaving the `P_MAX` box: `P_MAX - V_MAX * DT_MAX`.
pub const P_ROOM: i64 = 1098437885952;

/// Scale of the stored cosine of a field-of-view half-angle: a stored
/// value of `ANG_SCALE` is a cosine of one.
pub const ANG_SCALE: i64 = 1024;

/// Largest magnitude of an accumulated obstacle-avoidance coordinate:
/// `N_MAX` obstacles, each contributing at most `2 * P_MAX * W_MAX`.
pub const AV_MAX: i64 = 0x2000_0000_0000_0000;

} // verus!
