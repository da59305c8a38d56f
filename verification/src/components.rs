//! Per-agent data: the tunable parameter sets carried by boids and
//! obstacles, and the position / velocity components.
//!
//! Weights are stored in hundredths (a stored `100` scales by one), so
//! the original fractional tunables keep their exact values in the
//! integer model. A field-of-view half-angle is stored as its cosine
//! scaled by `ANG_SCALE`; `None` means no angular restriction.

use crate::math::{in_box, norm2, Vec2};
use vstd::prelude::*;

verus! {

/// Per-boid tunables.
#[derive(Clone, Copy, Debug)]
pub struct BoidData {
    pub separation_weight: i64,
    pub alignment_weight: i64,
    pub cohesion_weight: i64,
    pub noise_weight: i64,
    pub separation_radius: i64,
    pub alignment_radius: i64,
    pub cohesion_radius: i64,
    pub separation_fov: Option<i64>,
    pub alignment_fov: Option<i64>,
    pub cohesion_fov: Option<i64>,
    pub max_speed: i64,
}

/// Per-obstacle tunables.
#[derive(Clone, Copy, Debug)]
pub struct ObstacleData {
    pub separation_weight: i64,
    pub separation_radius: i64,
}

/// A world position.
#[derive(Clone, Copy, Debug)]
pub struct Position(pub Vec2);

/// A velocity: heading times speed.
#[derive(Clone, Copy, Debug)]
pub struct Velocity(pub Vec2);

pub open spec fn weight_ok(w: int) -> bool {
    -(crate::W_MAX as int) <= w <= crate::W_MAX as int
}

pub open spec fn radius_ok(r: int) -> bool {
    0 <= r <= crate::P_MAX as int
}

/// A stored field-of-view cosine lies within the cosine scale.
pub open spec fn fov_ok(f: Option<i64>) -> bool {
    match f {
        Option::None => true,
        Option::Some(c) => -(crate::ANG_SCALE as int) <= c as int <= crate::ANG_SCALE as int,
    }
}

pub open spec fn boid_data_ok(d: BoidData) -> bool {
    &&& weight_ok(d.separation_weight as int)
    &&& weight_ok(d.alignment_weight as int)
    &&& weight_ok(d.cohesion_weight as int)
    &&& weight_ok(d.noise_weight as int)
    &&& radius_ok(d.separation_radius as int)
    &&& radius_ok(d.alignment_radius as int)
    &&& radius_ok(d.cohesion_radius as int)
    &&& fov_ok(d.separation_fov)
    &&& fov_ok(d.alignment_fov)
    &&& fov_ok(d.cohesion_fov)
    &&& 0 <= d.max_speed <= crate::V_MAX
}

pub open spec fn obstacle_data_ok(d: ObstacleData) -> bool {
    weight_ok(d.separation_weight as int) && radius_ok(d.separation_radius as int)
}

/// The parameter set a freshly placed boid receives.
pub open spec fn default_boid_data() -> BoidData {
    BoidData {
        separation_weight: 10i64,
        alignment_weight: 2i64,
        cohesion_weight: 100i64,
        noise_weight: 10i64,
        separation_radius: 75i64,
        alignment_radius: 150i64,
        cohesion_radius: 150i64,
        separation_fov: Option::None,
        alignment_fov: Option::None,
        cohesion_fov: Option::None,
        max_speed: 500i64,
    }
}

impl Default for BoidData {
    /// Weights of 0.10, 0.02, 1.00 and 0.10 in hundredths; radii of 75,
    /// 150 and 150; no angular restriction; a top speed of 500.
    fn default() -> (d: BoidData)
        ensures
            d == default_boid_data(),
            boid_data_ok(d),
    {
        BoidData {
            separation_weight: 10,
            alignment_weight: 2,
            cohesion_weight: 100,
            noise_weight: 10,
            separation_radius: 75,
            alignment_radius: 150,
            cohesion_radius: 150,
            separation_fov: None,
            alignment_fov: None,
            cohesion_fov: None,
            max_speed: 500,
        }
    }
}

/// The parameter set a perimeter obstacle receives.
pub open spec fn default_obstacle_data() -> ObstacleData {
    ObstacleData { separation_weight: 20i64, separation_radius: 200i64 }
}

impl Default for ObstacleData {
    /// A weight of 0.20 in hundredths and a radius of 200.
    fn default() -> (d: ObstacleData)
        ensures
            d == default_obstacle_data(),
            obstacle_data_ok(d),
    {
        ObstacleData { separation_weight: 20, separation_radius: 200 }
    }
}

/// A velocity whose squared norm is within `m * m` stays inside the box
/// of side `m`.
pub proof fn lemma_norm_in_box(v: Vec2, m: int)
    requires
        norm2(v) <= m * m,
        m >= 0,
    ensures
        in_box(v, m),
{
    assert(-m <= v.x <= m && -m <= v.y <= m) by (nonlinear_arith)
        requires
            v.x * v.x + v.y * v.y <= m * m,
            m >= 0,
    ;
}

} // verus!
