//! Model constants and the planar geometry shared by every component.
//!
//! All lengths are fixed-point subunits: one coordinate unit of the model
//! equals `SCALE` subunits, so the domain of 200 units is
//! `SIMULATION_LENGTH` subunits on each side.  Speeds are subunits per time
//! unit, and one physical tick advances time by `1 / TIME_STEP_DIVISOR` of a
//! time unit.

use vstd::prelude::*;
use crate::math::{is_sqrt_floor, sqrt_floor, isqrt};

verus! {

/// Fixed-point subunits in one coordinate unit.
pub const SCALE: i64 = 10_000;

/// Side length of the square domain (200 units).
pub const SIMULATION_LENGTH: i64 = 2_000_000;

/// Smallest collision radius of an individual (0.1 unit).
pub const MIN_PARTICLE_RADIUS: i64 = 1_000;

/// Largest collision radius of an individual (0.37 unit).
pub const MAX_PARTICLE_RADIUS: i64 = 3_700;

/// Cap on an individual's walking speed (2 units per time unit).
pub const MAX_DESIRED_VELOCITY: i64 = 20_000;

/// One tick lasts `MIN_PARTICLE_RADIUS / (2 * MAX_DESIRED_VELOCITY)` of a
/// time unit, so positions advance by `velocity / TIME_STEP_DIVISOR`.
pub const TIME_STEP_DIVISOR: i64 = 40;

/// Per-tick growth of a collision-free radius: the radius climbs from zero
/// to `MAX_PARTICLE_RADIUS` over half a time unit, that is twenty ticks.
pub const RADIUS_INCREMENT: i64 = 185;

/// Radius of a destination circle (0.3 unit).
pub const TARGET_RADIUS: i64 = 3_000;

/// Probabilities are carried as parts per million.
pub const PPM: u32 = 1_000_000;

/// Fixed-point denominator of the speed-curve fraction: the exponent 9/10
/// is carried out on fractions with this denominator.
pub const SPEED_CURVE_DENOM: i64 = 4096;

/// A point of the plane, in fixed-point subunits.
pub type Location = (i64, i64);

/// True when `p` lies inside the square domain.
pub open spec fn in_domain(p: Location) -> bool {
    0 <= p.0 <= SIMULATION_LENGTH && 0 <= p.1 <= SIMULATION_LENGTH
}

/// Square of the Euclidean distance between two points.
pub open spec fn dist_sq(a: Location, b: Location) -> int {
    (a.0 - b.0) * (a.0 - b.0) + (a.1 - b.1) * (a.1 - b.1)
}

/// The squared distance of two in-domain points fits comfortably in `i64`.
pub proof fn lemma_dist_sq_bounds(a: Location, b: Location)
    requires
        in_domain(a),
        in_domain(b),
    ensures
        0 <= dist_sq(a, b) <= 8_000_000_000_000,
        0 <= (a.0 - b.0) * (a.0 - b.0) <= 4_000_000_000_000,
        0 <= (a.1 - b.1) * (a.1 - b.1) <= 4_000_000_000_000,
{
    let dx = a.0 - b.0;
    let dy = a.1 - b.1;
    assert(0 <= dx * dx <= 4_000_000_000_000) by (nonlinear_arith)
        requires
            -2_000_000 <= dx <= 2_000_000,
    ;
    assert(0 <= dy * dy <= 4_000_000_000_000) by (nonlinear_arith)
        requires
            -2_000_000 <= dy <= 2_000_000,
    ;
}

/// Euclidean distance between two in-domain points, rounded down to a whole
/// number of subunits.
pub fn distance(this: Location, other: Location) -> (r: i64)
    requires
        in_domain(this),
        in_domain(other),
    ensures
        r == sqrt_floor(dist_sq(this, other)),
        is_sqrt_floor(r as int, dist_sq(this, other)),
        0 <= r <= 3_000_000,
{
    let dx = this.0 - other.0;
    let dy = this.1 - other.1;
    proof {
        lemma_dist_sq_bounds(this, other);
    }
    let d2 = dx * dx + dy * dy;
    let r = isqrt(d2);
    proof {
        assert(3_000_000 * 3_000_000 > 8_000_000_000_000);
        if r > 3_000_000 {
            assert(r * r >= 3_000_001 * 3_000_001) by (nonlinear_arith)
                requires
                    r >= 3_000_001,
            ;
        }
    }
    r
}

} // verus!
