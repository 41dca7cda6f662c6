//! One simulated person: physical state (position, velocity, growing range
//! radius, daily itinerary) and epidemiological state.

use vstd::prelude::*;
use crate::constants::{
    Location, MAX_DESIRED_VELOCITY, MAX_PARTICLE_RADIUS, MIN_PARTICLE_RADIUS, RADIUS_INCREMENT,
    SCALE, SIMULATION_LENGTH, SPEED_CURVE_DENOM, TIME_STEP_DIVISOR, dist_sq,
    in_domain, lemma_dist_sq_bounds,
};
use crate::math::{
    div_trunc, iroot10, is_sqrt_floor, isqrt, lemma_component_le_sqrt, lemma_pow10_strictly_increases,
    lemma_sdiv_bound, pow9_spec, pow10_spec, root10_floor, sdiv, sq, sqrt_floor,
};
use crate::target::{Target, target_wf, in_target_spec, generate_targets};

verus! {

/// The stage of the disease an individual is in.  A dead individual is not a
/// state: it is removed from the living population.
#[derive(Clone, Copy, Debug, PartialEq, Eq, Structural)]
pub enum InfectionState {
    Susceptible,
    /// Carries the number of days left before the infection resolves.
    Infected(usize),
    Recovered,
}

/// One member of the population.
///
/// `radius` is both the collision footprint and a proxy for walking
/// confidence: it resets to `MIN_PARTICLE_RADIUS` on any collision and grows
/// by `RADIUS_INCREMENT` for every collision-free tick.
#[derive(Clone, Copy, Debug)]
pub struct Individual {
    /// Stable identity, unique within a run.
    pub id: usize,
    pub x: i64,
    pub y: i64,
    pub vx: i64,
    pub vy: i64,
    pub radius: i64,
    pub state: InfectionState,
    /// Number of contacts with infected individuals today, consumed by the
    /// end-of-day epidemiological update.
    pub to_infect: u64,
    /// The fixed home point, set at creation and never moved.
    pub residence: Location,
    /// Today's itinerary: two waypoints, then a target at the residence.
    pub targets: [Target; 3],
    /// Index of the destination currently walked toward.
    pub target_idx: usize,
    /// True once the individual has reached home and left today's physics.
    pub day_done: bool,
}

impl Individual {
    /// Physical well-formedness: every mutating method preserves it.
    pub open spec fn wf(self) -> bool {
        &&& in_domain((self.x, self.y))
        &&& MIN_PARTICLE_RADIUS <= self.radius <= MAX_PARTICLE_RADIUS
        &&& -MAX_DESIRED_VELOCITY <= self.vx <= MAX_DESIRED_VELOCITY
        &&& -MAX_DESIRED_VELOCITY <= self.vy <= MAX_DESIRED_VELOCITY
        &&& in_domain(self.residence)
        &&& self.target_idx < 3
        &&& target_wf(self.targets[0])
        &&& target_wf(self.targets[1])
        &&& target_wf(self.targets[2])
        &&& self.targets[2].location == self.residence
    }

    /// A new individual at its residence: at rest, smallest radius,
    /// susceptible, with a freshly drawn itinerary.
    pub fn new(id: usize, residence: Location) -> (i: Individual)
        requires
            in_domain(residence),
        ensures
            i.wf(),
            i.id == id,
            (i.x, i.y) == residence,
            i.vx == 0 && i.vy == 0,
            i.radius == MIN_PARTICLE_RADIUS,
            i.state == InfectionState::Susceptible,
            i.to_infect == 0,
            i.residence == residence,
            i.target_idx == 0,
            !i.day_done,
    {
        Individual {
            id,
            x: residence.0,
            y: residence.1,
            vx: 0,
            vy: 0,
            radius: MIN_PARTICLE_RADIUS,
            state: InfectionState::Susceptible,
            to_infect: 0,
            residence,
            targets: generate_targets(residence),
            target_idx: 0,
            day_done: false,
        }
    }

    /// Makes the individual infected for the given number of days.
    pub fn infect(&mut self, infected_period: usize)
        ensures
            *final(self) == (Individual {
                state: InfectionState::Infected(infected_period),
                ..*old(self)
            }),
    {
        self.state = InfectionState::Infected(infected_period);
    }

    /// True while the individual carries the infection.
    pub fn is_infected(&self) -> (r: bool)
        ensures
            r == (self.state is Infected),
    {
        matches!(self.state, InfectionState::Infected(_))
    }

    /// Moves the individual back home for the night; motion stops with the
    /// day, so the velocity is cleared as well.
    pub fn reset_to_residence(&mut self)
        ensures
            *final(self) == (Individual {
                x: old(self).residence.0,
                y: old(self).residence.1,
                vx: 0,
                vy: 0,
                ..*old(self)
            }),
    {
        self.x = self.residence.0;
        self.y = self.residence.1;
        self.vx = 0;
        self.vy = 0;
    }

    /// Draws a fresh itinerary for a new day and clears the day-scoped
    /// state: exposure count, itinerary index and the home flag.
    pub fn recreate_random_target(&mut self)
        requires
            old(self).wf(),
        ensures
            final(self).wf(),
            final(self).id == old(self).id,
            final(self).x == old(self).x && final(self).y == old(self).y,
            final(self).vx == old(self).vx && final(self).vy == old(self).vy,
            final(self).radius == old(self).radius,
            final(self).state == old(self).state,
            final(self).residence == old(self).residence,
            final(self).to_infect == 0,
            final(self).target_idx == 0,
            !final(self).day_done,
    {
        self.targets = generate_targets(self.residence);
        self.target_idx = 0;
        self.to_infect = 0;
        self.day_done = false;
    }

    /// True when the two collision circles overlap: the distance between the
    /// positions is at most the sum of the two radii.
    pub open spec fn colliding_spec(self, other: Individual) -> bool {
        dist_sq((self.x, self.y), (other.x, other.y)) <= sq(self.radius + other.radius)
    }

    /// The circle-circle overlap test between two individuals.
    pub fn is_colliding(&self, other: &Individual) -> (r: bool)
        requires
            self.wf(),
            other.wf(),
        ensures
            r == self.colliding_spec(*other),
    {
        let dx = self.x - other.x;
        let dy = self.y - other.y;
        proof {
            lemma_dist_sq_bounds((self.x, self.y), (other.x, other.y));
        }
        let d2 = dx * dx + dy * dy;
        let rsum = self.radius + other.radius;
        assert(0 <= rsum * rsum <= 7400 * 7400) by (nonlinear_arith)
            requires
                0 <= rsum <= 7400,
        ;
        d2 <= rsum * rsum
    }

    /// The wall collision points of this individual: for each axis whose
    /// boundary the leading edge (`position +- radius`) has crossed, the
    /// nearest boundary point on that axis.  X-axis walls come first.
    pub open spec fn wall_points_spec(self) -> Seq<Location> {
        let xs = if self.x - self.radius <= 0 {
            seq![(0 as i64, self.y)]
        } else if self.x + self.radius >= SIMULATION_LENGTH {
            seq![(SIMULATION_LENGTH, self.y)]
        } else {
            Seq::<Location>::empty()
        };
        let ys = if self.y - self.radius <= 0 {
            seq![(self.x, 0 as i64)]
        } else if self.y + self.radius >= SIMULATION_LENGTH {
            seq![(self.x, SIMULATION_LENGTH)]
        } else {
            Seq::<Location>::empty()
        };
        xs + ys
    }

    /// Zero, one, or two wall collision points (two at a domain corner).
    pub fn check_wall_collisions(&self) -> (v: Vec<Location>)
        requires
            self.wf(),
        ensures
            v@ == self.wall_points_spec(),
    {
        let mut wall_collisions: Vec<Location> = Vec::new();

        if self.x - self.radius <= 0 {
            wall_collisions.push((0, self.y));
        } else if self.x + self.radius >= SIMULATION_LENGTH {
            wall_collisions.push((SIMULATION_LENGTH, self.y));
        }

        if self.y - self.radius <= 0 {
            wall_collisions.push((self.x, 0));
        } else if self.y + self.radius >= SIMULATION_LENGTH {
            wall_collisions.push((self.x, SIMULATION_LENGTH));
        }

        proof {
            assert(wall_collisions@ =~= self.wall_points_spec());
        }
        wall_collisions
    }

    /// A coordinate confined to the domain: integration never carries an
    /// individual through a wall, so a step that would cross the boundary
    /// stops on it.
    pub open spec fn clamp_domain(v: int) -> int {
        if v < 0 {
            0
        } else if v > SIMULATION_LENGTH {
            SIMULATION_LENGTH as int
        } else {
            v
        }
    }

    /// The value of an individual after one integration step.
    pub open spec fn step_spec(a: Individual) -> Individual {
        Individual {
            x: Self::clamp_domain(a.x + sdiv(a.vx as int, TIME_STEP_DIVISOR as int)) as i64,
            y: Self::clamp_domain(a.y + sdiv(a.vy as int, TIME_STEP_DIVISOR as int)) as i64,
            ..a
        }
    }

    /// Integrates the position over one tick: `position += velocity * dt`.
    pub fn step(&mut self)
        requires
            old(self).wf(),
        ensures
            *final(self) == Self::step_spec(*old(self)),
            final(self).wf(),
    {
        proof {
            lemma_sdiv_bound(old(self).vx as int, TIME_STEP_DIVISOR as int, 500);
            lemma_sdiv_bound(old(self).vy as int, TIME_STEP_DIVISOR as int, 500);
        }
        let dx = div_trunc(self.vx, TIME_STEP_DIVISOR);
        let dy = div_trunc(self.vy, TIME_STEP_DIVISOR);
        let nx = self.x + dx;
        let ny = self.y + dy;
        self.x = if nx < 0 {
            0
        } else if nx > SIMULATION_LENGTH {
            SIMULATION_LENGTH
        } else {
            nx
        };
        self.y = if ny < 0 {
            0
        } else if ny > SIMULATION_LENGTH {
            SIMULATION_LENGTH
        } else {
            ny
        };
    }

    /// The desired walking speed at a given radius:
    /// `MAX_DESIRED_VELOCITY * ((radius - MIN) / (MAX - MIN))^(9/10)`,
    /// carried out on fixed-point fractions with denominator
    /// `SPEED_CURVE_DENOM`.  The speed climbs smoothly from zero at the
    /// smallest radius to the cap at the largest.
    pub open spec fn speed_of(radius: int) -> int {
        let t = radius - MIN_PARTICLE_RADIUS;
        let u = t * SPEED_CURVE_DENOM / (MAX_PARTICLE_RADIUS - MIN_PARTICLE_RADIUS);
        let y = root10_floor(SPEED_CURVE_DENOM * pow9_spec(u));
        MAX_DESIRED_VELOCITY * y / (SPEED_CURVE_DENOM as int)
    }

    /// The speed curve, evaluated in integer arithmetic: the tenth root
    /// comes from `iroot10`, everything else is exact.
    pub fn calculate_desired_velocity(radius: i64) -> (v: i64)
        requires
            MIN_PARTICLE_RADIUS <= radius <= MAX_PARTICLE_RADIUS,
        ensures
            v == Self::speed_of(radius as int),
            0 <= v <= MAX_DESIRED_VELOCITY,
    {
        let t = radius - MIN_PARTICLE_RADIUS;
        assert(0 <= t * SPEED_CURVE_DENOM <= 11_059_200) by (nonlinear_arith)
            requires
                0 <= t <= 2700,
        ;
        let u = (t * SPEED_CURVE_DENOM) / (MAX_PARTICLE_RADIUS - MIN_PARTICLE_RADIUS);
        assert(0 <= u <= 4096) by (nonlinear_arith)
            requires
                0 <= t * SPEED_CURVE_DENOM <= 11_059_200,
                u == t * SPEED_CURVE_DENOM / 2700,
        ;
        let u1 = u as i128;
        assert(0 <= u1 * u1 <= 16_777_216) by (nonlinear_arith)
            requires
                0 <= u1 <= 4096,
        ;
        let u2 = u1 * u1;
        assert(0 <= u2 * u2 <= 16_777_216 * 16_777_216) by (nonlinear_arith)
            requires
                0 <= u2 <= 16_777_216,
        ;
        let u4 = u2 * u2;
        assert(0 <= u4 * u4 <= (16_777_216 * 16_777_216) * (16_777_216 * 16_777_216)) by (
        nonlinear_arith)
            requires
                0 <= u4 <= 16_777_216 * 16_777_216,
        ;
        let u8 = u4 * u4;
        assert(0 <= u8 * u1 <= ((16_777_216 * 16_777_216) * (16_777_216 * 16_777_216)) * 4096) by (
        nonlinear_arith)
            requires
                0 <= u8 <= (16_777_216 * 16_777_216) * (16_777_216 * 16_777_216),
                0 <= u1 <= 4096,
        ;
        let u9 = u8 * u1;
        assert(u9 == pow9_spec(u as int));
        let m = 4096 * u9;
        proof {
            lemma_pow10_strictly_increases(u as int, 4097);
            assert(SPEED_CURVE_DENOM * pow9_spec(u as int) < pow10_spec(4097)) by (nonlinear_arith)
                requires
                    0 <= pow9_spec(u as int),
                    pow9_spec(u as int) < pow9_spec(4097),
                    pow10_spec(4097) == sq(sq(sq(4097))) * sq(4097),
                    pow9_spec(4097) == sq(sq(sq(4097))) * 4097,
                    sq(4097) == 4097 * 4097,
                    0 <= sq(sq(sq(4097))),
            ;
        }
        let y = iroot10(m);
        let v = (MAX_DESIRED_VELOCITY * y) / SPEED_CURVE_DENOM;
        assert(0 <= MAX_DESIRED_VELOCITY * y && MAX_DESIRED_VELOCITY * y <= 81_920_000) by (
        nonlinear_arith)
            requires
                0 <= y <= 4096,
        ;
        assert(0 <= v <= MAX_DESIRED_VELOCITY) by (nonlinear_arith)
            requires
                0 <= MAX_DESIRED_VELOCITY * y <= 81_920_000,
                v == (MAX_DESIRED_VELOCITY * y) / (SPEED_CURVE_DENOM as int),
        ;
        v
    }

    /// The value of an individual after a collision-free tick: the radius
    /// grows by `RADIUS_INCREMENT` up to `MAX_PARTICLE_RADIUS`, and the
    /// velocity points toward the current itinerary target with magnitude
    /// `speed_of` the new radius.  An individual standing exactly on its
    /// target comes to rest (the direction is undefined there).
    pub open spec fn desired_spec(a: Individual) -> Individual {
        let radius = if a.radius + RADIUS_INCREMENT > MAX_PARTICLE_RADIUS {
            MAX_PARTICLE_RADIUS as int
        } else {
            a.radius + RADIUS_INCREMENT
        };
        let tloc = a.targets[a.target_idx as int].location;
        let dx = tloc.0 - a.x;
        let dy = tloc.1 - a.y;
        let n = sqrt_floor(dist_sq(tloc, (a.x, a.y)));
        let sp = Self::speed_of(radius);
        if n == 0 {
            Individual { radius: radius as i64, vx: 0, vy: 0, ..a }
        } else {
            Individual {
                radius: radius as i64,
                vx: sdiv(sp * dx, n) as i64,
                vy: sdiv(sp * dy, n) as i64,
                ..a
            }
        }
    }

    /// One collision-free tick: grow the radius and walk toward the
    /// current target.
    pub fn update_desired(&mut self)
        requires
            old(self).wf(),
        ensures
            *final(self) == Self::desired_spec(*old(self)),
            final(self).wf(),
    {
        if self.radius + RADIUS_INCREMENT > MAX_PARTICLE_RADIUS {
            self.radius = MAX_PARTICLE_RADIUS;
        } else {
            self.radius = self.radius + RADIUS_INCREMENT;
        }
        let desired_velocity = Self::calculate_desired_velocity(self.radius);

        let target_location = self.targets[self.target_idx].location;
        let dx = target_location.0 - self.x;
        let dy = target_location.1 - self.y;
        proof {
            lemma_dist_sq_bounds(target_location, (self.x, self.y));
        }
        let d2 = dx * dx + dy * dy;
        let n = isqrt(d2);
        if n == 0 {
            self.vx = 0;
            self.vy = 0;
        } else {
            proof {
                assert(dy * dy >= 0 && dx * dx >= 0) by (nonlinear_arith);
                lemma_component_le_sqrt(dx as int, (dy * dy) as int, n as int);
                assert(is_sqrt_floor(n as int, dy * dy + dx * dx));
                lemma_component_le_sqrt(dy as int, (dx * dx) as int, n as int);
                assert(-40_000_000_000 <= desired_velocity * dx <= 40_000_000_000
                    && -(desired_velocity * (n as int)) <= desired_velocity * dx <= desired_velocity
                    * (n as int) && -(20_000 * (n as int)) <= desired_velocity * dx <= 20_000 * (
                n as int)) by (nonlinear_arith)
                    requires
                        0 <= desired_velocity <= 20_000,
                        -2_000_000 <= dx <= 2_000_000,
                        -(n as int) <= dx <= n as int,
                        1 <= n,
                ;
                assert(-40_000_000_000 <= desired_velocity * dy <= 40_000_000_000 && -(20_000 * (
                n as int)) <= desired_velocity * dy <= 20_000 * (n as int)) by (nonlinear_arith)
                    requires
                        0 <= desired_velocity <= 20_000,
                        -2_000_000 <= dy <= 2_000_000,
                        -(n as int) <= dy <= n as int,
                        1 <= n,
                ;
                lemma_sdiv_bound(desired_velocity * dx, n as int, 20_000);
                lemma_sdiv_bound(desired_velocity * dy, n as int, 20_000);
            }
            let num_x = desired_velocity * dx;
            let num_y = desired_velocity * dy;
            self.vx = div_trunc(num_x, n);
            self.vy = div_trunc(num_y, n);
        }
    }

    /// The sum, over a sequence of collision points, of the unit vectors
    /// (scaled by `SCALE`) pointing from each point toward `pos`.  A point
    /// that coincides with `pos` has no direction and contributes nothing.
    pub open spec fn escape_sum(pts: Seq<Location>, pos: Location) -> (int, int)
        decreases pts.len(),
    {
        if pts.len() == 0 {
            (0, 0)
        } else {
            let rest = Self::escape_sum(pts.drop_last(), pos);
            let p = pts.last();
            let n = sqrt_floor(dist_sq(pos, p));
            if n == 0 {
                rest
            } else {
                (
                    rest.0 + sdiv((pos.0 - p.0) * SCALE, n),
                    rest.1 + sdiv((pos.1 - p.1) * SCALE, n),
                )
            }
        }
    }

    /// The value of an individual after a colliding tick: the radius resets
    /// to `MIN_PARTICLE_RADIUS` and the velocity points away from the
    /// aggregate of the collision points at full speed.  When the summed
    /// escape directions cancel exactly, the direction is undefined and the
    /// previous velocity is retained.
    pub open spec fn escape_spec(a: Individual, pts: Seq<Location>) -> Individual {
        let s = Self::escape_sum(pts, (a.x, a.y));
        let n = sqrt_floor(s.0 * s.0 + s.1 * s.1);
        if n == 0 {
            Individual { radius: MIN_PARTICLE_RADIUS, ..a }
        } else {
            Individual {
                radius: MIN_PARTICLE_RADIUS,
                vx: sdiv(MAX_DESIRED_VELOCITY * s.0, n) as i64,
                vy: sdiv(MAX_DESIRED_VELOCITY * s.1, n) as i64,
                ..a
            }
        }
    }

    /// One colliding tick: flinch (radius back to the minimum) and flee the
    /// aggregate direction of all simultaneous collision points.
    pub fn update_escape(&mut self, collision_points: &Vec<Location>)
        requires
            old(self).wf(),
            collision_points@.len() <= 100_001,
            forall|i: int|
                0 <= i < collision_points@.len() ==> in_domain(#[trigger] collision_points@[i]),
        ensures
            *final(self) == Self::escape_spec(*old(self), collision_points@),
            final(self).wf(),
    {
        self.radius = MIN_PARTICLE_RADIUS;

        let px = self.x;
        let py = self.y;
        let ghost pos: Location = (px, py);
        let mut sx: i64 = 0;
        let mut sy: i64 = 0;
        let mut idx: usize = 0;
        while idx < collision_points.len()
            invariant
                idx <= collision_points@.len() <= 100_001,
                pos == (px, py),
                in_domain(pos),
                forall|i: int|
                    0 <= i < collision_points@.len() ==> in_domain(
                        #[trigger] collision_points@[i],
                    ),
                (sx as int, sy as int) == Self::escape_sum(
                    collision_points@.take(idx as int),
                    pos,
                ),
                -(idx * SCALE) <= sx <= idx * SCALE,
                -(idx * SCALE) <= sy <= idx * SCALE,
            decreases collision_points@.len() - idx,
        {
            let p = collision_points[idx];
            let ddx = px - p.0;
            let ddy = py - p.1;
            proof {
                lemma_dist_sq_bounds(pos, p);
            }
            let d2 = ddx * ddx + ddy * ddy;
            let n = isqrt(d2);
            if n > 0 {
                proof {
                    assert(ddy * ddy >= 0 && ddx * ddx >= 0) by (nonlinear_arith);
                    lemma_component_le_sqrt(ddx as int, (ddy * ddy) as int, n as int);
                    assert(is_sqrt_floor(n as int, ddy * ddy + ddx * ddx));
                    lemma_component_le_sqrt(ddy as int, (ddx * ddx) as int, n as int);
                    assert(-20_000_000_000 <= ddx * SCALE <= 20_000_000_000 && -(SCALE * (
                    n as int)) <= ddx * SCALE <= SCALE * (n as int)) by (nonlinear_arith)
                        requires
                            -2_000_000 <= ddx <= 2_000_000,
                            -(n as int) <= ddx <= n as int,
                            1 <= n,
                            SCALE == 10_000,
                    ;
                    assert(-20_000_000_000 <= ddy * SCALE <= 20_000_000_000 && -(SCALE * (
                    n as int)) <= ddy * SCALE <= SCALE * (n as int)) by (nonlinear_arith)
                        requires
                            -2_000_000 <= ddy <= 2_000_000,
                            -(n as int) <= ddy <= n as int,
                            1 <= n,
                            SCALE == 10_000,
                    ;
                    lemma_sdiv_bound(ddx * SCALE, n as int, SCALE as int);
                    lemma_sdiv_bound(ddy * SCALE, n as int, SCALE as int);
                }
                let ux = div_trunc(ddx * SCALE, n);
                let uy = div_trunc(ddy * SCALE, n);
                sx = sx + ux;
                sy = sy + uy;
            }
            proof {
                assert(collision_points@.take(idx as int + 1).drop_last() =~= collision_points@
                    .take(idx as int));
                assert(collision_points@.take(idx as int + 1).last() == collision_points@[
                idx as int]);
            }
            idx = idx + 1;
        }
        proof {
            assert(collision_points@.take(collision_points@.len() as int) =~= collision_points@);
            assert(sx * sx + sy * sy <= 4_000_000_000_000_000_000 && sx * sx >= 0 && sy * sy >= 0)
                by (nonlinear_arith)
                requires
                    -1_010_000_000 <= sx <= 1_010_000_000,
                    -1_010_000_000 <= sy <= 1_010_000_000,
            ;
        }
        let s2 = sx * sx + sy * sy;
        let n = isqrt(s2);
        if n > 0 {
            proof {
                lemma_component_le_sqrt(sx as int, (sy * sy) as int, n as int);
                assert(is_sqrt_floor(n as int, sy * sy + sx * sx));
                lemma_component_le_sqrt(sy as int, (sx * sx) as int, n as int);
                assert(-20_200_000_000_000 <= MAX_DESIRED_VELOCITY * sx <= 20_200_000_000_000 && -(
                20_000 * (n as int)) <= MAX_DESIRED_VELOCITY * sx <= 20_000 * (n as int)) by (
                nonlinear_arith)
                    requires
                        -1_010_000_000 <= sx <= 1_010_000_000,
                        -(n as int) <= sx <= n as int,
                        1 <= n,
                        MAX_DESIRED_VELOCITY == 20_000,
                ;
                assert(-20_200_000_000_000 <= MAX_DESIRED_VELOCITY * sy <= 20_200_000_000_000 && -(
                20_000 * (n as int)) <= MAX_DESIRED_VELOCITY * sy <= 20_000 * (n as int)) by (
                nonlinear_arith)
                    requires
                        -1_010_000_000 <= sy <= 1_010_000_000,
                        -(n as int) <= sy <= n as int,
                        1 <= n,
                        MAX_DESIRED_VELOCITY == 20_000,
                ;
                lemma_sdiv_bound(MAX_DESIRED_VELOCITY * sx, n as int, 20_000);
                lemma_sdiv_bound(MAX_DESIRED_VELOCITY * sy, n as int, 20_000);
            }
            self.vx = div_trunc(MAX_DESIRED_VELOCITY * sx, n);
            self.vy = div_trunc(MAX_DESIRED_VELOCITY * sy, n);
        }
    }

    /// The value of an individual after the destination-arrival check: when
    /// the current target contains the position, the itinerary advances, and
    /// arriving at the last entry (home) marks the day as done.
    pub open spec fn update_target_spec(a: Individual) -> Individual {
        if in_target_spec(a.targets[a.target_idx as int], a) {
            if a.target_idx == 2 {
                Individual { day_done: true, ..a }
            } else {
                Individual { target_idx: (a.target_idx + 1) as usize, ..a }
            }
        } else {
            a
        }
    }

    /// Advances the itinerary on arrival; true iff the individual has now
    /// reached (or had already reached) its final destination, home.
    pub fn update_target(&mut self) -> (reached_home: bool)
        requires
            old(self).wf(),
        ensures
            *final(self) == Self::update_target_spec(*old(self)),
            final(self).wf(),
            reached_home == final(self).day_done,
    {
        let t = self.targets[self.target_idx];
        if t.in_target(&*self) {
            if self.target_idx == 2 {
                self.day_done = true;
            } else {
                self.target_idx = self.target_idx + 1;
            }
        }
        self.day_done
    }

    pub fn get_velocities(&self) -> (r: (i64, i64))
        ensures
            r == (self.vx, self.vy),
    {
        (self.vx, self.vy)
    }

    pub fn get_coordinates(&self) -> (r: Location)
        ensures
            r == (self.x, self.y),
    {
        (self.x, self.y)
    }

    pub fn set_coordinates(&mut self, coords: Location)
        requires
            in_domain(coords),
        ensures
            *final(self) == (Individual { x: coords.0, y: coords.1, ..*old(self) }),
    {
        self.x = coords.0;
        self.y = coords.1;
    }

    pub fn get_radius(&self) -> (r: i64)
        ensures
            r == self.radius,
    {
        self.radius
    }
}

} // verus!
