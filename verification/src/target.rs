//! Destination circles: random waypoints and the final go-home target of an
//! individual's daily itinerary.

use vstd::prelude::*;
use crate::constants::{
    Location, MIN_PARTICLE_RADIUS, SIMULATION_LENGTH, TARGET_RADIUS, dist_sq, in_domain,
};
use crate::individual::Individual;
use crate::math::sq;
use crate::rng::sample_range_i64;

verus! {

/// A circular destination, owned by exactly one individual.
#[derive(Clone, Copy, Debug)]
pub struct Target {
    pub location: Location,
    pub radius: i64,
}

/// A target lies in the domain and its radius is a destination radius.
pub open spec fn target_wf(t: Target) -> bool {
    &&& in_domain(t.location)
    &&& 0 <= t.radius <= TARGET_RADIUS
}

/// True when the circle around `t.location` of radius `t.radius` overlaps the
/// circle around the individual's position of radius `i.radius`.
pub open spec fn in_target_spec(t: Target, i: Individual) -> bool {
    dist_sq(t.location, (i.x, i.y)) <= sq(t.radius + i.radius)
}

impl Target {
    /// A target of the given radius at a location drawn uniformly at random
    /// within the domain, a `MIN_PARTICLE_RADIUS` margin off every wall.
    pub fn new(radius: i64) -> (t: Target)
        requires
            0 <= radius <= TARGET_RADIUS,
        ensures
            target_wf(t),
            t.radius == radius,
            MIN_PARTICLE_RADIUS <= t.location.0 <= SIMULATION_LENGTH - MIN_PARTICLE_RADIUS,
            MIN_PARTICLE_RADIUS <= t.location.1 <= SIMULATION_LENGTH - MIN_PARTICLE_RADIUS,
    {
        let x = sample_range_i64(MIN_PARTICLE_RADIUS, SIMULATION_LENGTH - MIN_PARTICLE_RADIUS);
        let y = sample_range_i64(MIN_PARTICLE_RADIUS, SIMULATION_LENGTH - MIN_PARTICLE_RADIUS);
        Target { location: (x, y), radius }
    }

    /// The circle-circle overlap test between this target and an individual.
    pub fn in_target(&self, individual: &Individual) -> (r: bool)
        requires
            target_wf(*self),
            individual.wf(),
        ensures
            r == in_target_spec(*self, *individual),
    {
        let coords = individual.get_coordinates();
        let dx = self.location.0 - coords.0;
        let dy = self.location.1 - coords.1;
        proof {
            crate::constants::lemma_dist_sq_bounds(self.location, coords);
        }
        let d2 = dx * dx + dy * dy;
        let rsum = self.radius + individual.get_radius();
        assert(0 <= rsum * rsum <= 6700 * 6700) by (nonlinear_arith)
            requires
                0 <= rsum <= 6700,
        ;
        d2 <= rsum * rsum
    }
}

/// The itinerary of one simulated day: two random waypoints, then home.
/// The residence target comes last, since reaching it ends the day.
pub fn generate_targets(last: Location) -> (ts: [Target; 3])
    requires
        in_domain(last),
    ensures
        target_wf(ts[0]),
        target_wf(ts[1]),
        target_wf(ts[2]),
        ts[0].radius == TARGET_RADIUS,
        ts[1].radius == TARGET_RADIUS,
        ts[2].radius == TARGET_RADIUS,
        ts[2].location == last,
{
    let first = Target::new(TARGET_RADIUS);
    let second = Target::new(TARGET_RADIUS);
    let home = Target { location: last, radius: TARGET_RADIUS };
    [first, second, home]
}

} // verus!
