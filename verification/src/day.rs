//! The physical tick loop of one simulated day.
//!
//! Each tick: wall collisions for every individual, the pairwise collision
//! pass (the O(n^2) heart of the contact network, which also records
//! exposure of susceptible individuals to infected ones), the velocity
//! update (free motion or escape), the integration step, and the
//! destination-arrival check.  An individual that reaches its final
//! destination (home) leaves the day's physics but stays in the population.

use vstd::prelude::*;
use crate::constants::{Location, MAX_PARTICLE_RADIUS, MIN_PARTICLE_RADIUS, in_domain};
use crate::individual::{Individual, InfectionState};

verus! {

/// Saturating addition of an exposure count.
pub open spec fn sat_add_u64(a: u64, b: u64) -> u64 {
    if a + b > u64::MAX {
        u64::MAX
    } else {
        (a + b) as u64
    }
}

/// The positions of the individuals among the first `upto` that are still in
/// today's physics and collide with individual `i`, in index order.
pub open spec fn neighbor_pts_spec(s: Seq<Individual>, i: int, upto: int) -> Seq<Location>
    decreases upto,
{
    if upto <= 0 {
        Seq::<Location>::empty()
    } else {
        let rest = neighbor_pts_spec(s, i, upto - 1);
        let k = upto - 1;
        if k != i && !s[k].day_done && s[i].colliding_spec(s[k]) {
            rest + seq![(s[k].x, s[k].y)]
        } else {
            rest
        }
    }
}

/// Everything individual `i` collides with this tick: wall points first,
/// then the positions of colliding neighbours in index order.
pub open spec fn collision_pts_spec(s: Seq<Individual>, i: int) -> Seq<Location> {
    s[i].wall_points_spec() + neighbor_pts_spec(s, i, s.len() as int)
}

/// How many of the first `upto` individuals are infected, still in today's
/// physics, and in contact with individual `i` this tick.
pub open spec fn contact_count_spec(s: Seq<Individual>, i: int, upto: int) -> nat
    decreases upto,
{
    if upto <= 0 {
        0
    } else {
        let rest = contact_count_spec(s, i, upto - 1);
        let k = upto - 1;
        if k != i && !s[k].day_done && s[i].colliding_spec(s[k]) && s[k].state is Infected {
            rest + 1
        } else {
            rest
        }
    }
}

/// The colliding neighbours among the first `upto` never include `i`
/// itself, so there are at most `upto - 1` of them.
pub proof fn lemma_neighbor_pts_len(s: Seq<Individual>, i: int, upto: int)
    requires
        0 <= upto,
    ensures
        neighbor_pts_spec(s, i, upto).len() <= upto,
        0 <= i < upto ==> neighbor_pts_spec(s, i, upto).len() <= upto - 1,
    decreases upto,
{
    if upto > 0 {
        lemma_neighbor_pts_len(s, i, upto - 1);
    }
}

/// The value of individual `i` after one tick of the whole population:
/// exposure is recorded from the contact counts, then the velocity update
/// (free motion when nothing collides, escape otherwise), the integration
/// step, and the arrival check.  An individual already home is untouched.
pub open spec fn agent_tick_spec(s: Seq<Individual>, i: int) -> Individual {
    let a = s[i];
    if a.day_done {
        a
    } else {
        let pts = collision_pts_spec(s, i);
        let c = contact_count_spec(s, i, s.len() as int);
        let a1 = if a.state is Susceptible {
            Individual { to_infect: sat_add_u64(a.to_infect, c as u64), ..a }
        } else {
            a
        };
        let a2 = if pts.len() == 0 {
            Individual::desired_spec(a1)
        } else {
            Individual::escape_spec(a1, pts)
        };
        let a3 = Individual::step_spec(a2);
        Individual::update_target_spec(a3)
    }
}

/// One physical tick of the whole population.
pub open spec fn tick_spec(s: Seq<Individual>) -> Seq<Individual> {
    Seq::new(s.len(), |i: int| agent_tick_spec(s, i))
}

/// True when every individual has finished its itinerary.
pub open spec fn all_done(s: Seq<Individual>) -> bool {
    forall|i: int| 0 <= i < s.len() ==> (#[trigger] s[i]).day_done
}

/// The population after up to `steps` ticks, stopping early once everyone
/// is home.
pub open spec fn run_spec(s: Seq<Individual>, steps: nat) -> Seq<Individual>
    decreases steps,
{
    if steps == 0 || all_done(s) {
        s
    } else {
        run_spec(tick_spec(s), (steps - 1) as nat)
    }
}

/// The collision points of individual `i` this tick: its wall points, then
/// the positions of all colliding active neighbours in index order.
fn collision_points_for(individuals: &Vec<Individual>, i: usize) -> (pts: Vec<Location>)
    requires
        forall|j: int|
            0 <= j < individuals@.len() ==> (#[trigger] individuals@[j]).wf(),
        i < individuals@.len(),
    ensures
        pts@ == collision_pts_spec(individuals@, i as int),
        pts@.len() <= individuals@.len() + 1,
        forall|j: int| 0 <= j < pts@.len() ==> in_domain(#[trigger] pts@[j]),
{
    let me = individuals[i];
    let mut pts = me.check_wall_collisions();
    let ghost wall = pts@;
    assert(wall.len() <= 2);
    let n = individuals.len();
    let mut k: usize = 0;
    while k < n
        invariant
            k <= n == individuals@.len(),
            i < n,
            me == individuals@[i as int],
            forall|j: int| 0 <= j < n ==> (#[trigger] individuals@[j]).wf(),
            pts@ == wall + neighbor_pts_spec(individuals@, i as int, k as int),
            wall == individuals@[i as int].wall_points_spec(),
            wall.len() <= 2,
            forall|j: int| 0 <= j < pts@.len() ==> in_domain(#[trigger] pts@[j]),
        decreases n - k,
    {
        if k != i {
            let other = &individuals[k];
            if !other.day_done && me.is_colliding(other) {
                let coords = other.get_coordinates();
                pts.push(coords);
            }
        }
        k = k + 1;
    }
    proof {
        lemma_neighbor_pts_len(individuals@, i as int, n as int);
    }
    pts
}

/// The number of infected active individuals in contact with individual `i`
/// this tick.
fn count_infected_contacts(individuals: &Vec<Individual>, i: usize) -> (c: u64)
    requires
        forall|j: int|
            0 <= j < individuals@.len() ==> (#[trigger] individuals@[j]).wf(),
        i < individuals@.len(),
        individuals@.len() <= 100_000,
    ensures
        c == contact_count_spec(individuals@, i as int, individuals@.len() as int),
{
    let me = individuals[i];
    let n = individuals.len();
    let mut c: u64 = 0;
    let mut k: usize = 0;
    while k < n
        invariant
            k <= n == individuals@.len() <= 100_000,
            i < n,
            me == individuals@[i as int],
            forall|j: int| 0 <= j < n ==> (#[trigger] individuals@[j]).wf(),
            c == contact_count_spec(individuals@, i as int, k as int),
            c <= k,
        decreases n - k,
    {
        if k != i {
            let other = &individuals[k];
            if !other.day_done && me.is_colliding(other) && other.is_infected() {
                c = c + 1;
            }
        }
        k = k + 1;
    }
    c
}

/// One physical tick of the whole population, in place.  The collision
/// lists and contact counts are computed from the state at the start of the
/// tick, then every active individual is advanced.
pub fn tick(individuals: &mut Vec<Individual>)
    requires
        forall|j: int|
            0 <= j < old(individuals)@.len() ==> (#[trigger] old(individuals)@[j]).wf(),
        old(individuals)@.len() <= 100_000,
    ensures
        final(individuals)@ == tick_spec(old(individuals)@),
        final(individuals)@.len() == old(individuals)@.len(),
        forall|j: int|
            0 <= j < final(individuals)@.len() ==> (#[trigger] final(individuals)@[j]).wf(),
{
    let ghost s0 = individuals@;
    let n = individuals.len();

    let mut all_pts: Vec<Vec<Location>> = Vec::new();
    let mut counts: Vec<u64> = Vec::new();
    let mut i: usize = 0;
    while i < n
        invariant
            i <= n == s0.len() <= 100_000,
            individuals@ == s0,
            forall|j: int| 0 <= j < n ==> (#[trigger] s0[j]).wf(),
            all_pts@.len() == i,
            counts@.len() == i,
            forall|j: int|
                0 <= j < i ==> (#[trigger] all_pts@[j])@ == collision_pts_spec(s0, j),
            forall|j: int| 0 <= j < i ==> (#[trigger] all_pts@[j])@.len() <= n + 1,
            forall|j: int, p: int|
                0 <= j < i && 0 <= p < all_pts@[j]@.len() ==> in_domain(
                    #[trigger] all_pts@[j]@[p],
                ),
            forall|j: int|
                0 <= j < i ==> (#[trigger] counts@[j]) == contact_count_spec(s0, j, n as int),
        decreases n - i,
    {
        let pts = collision_points_for(individuals, i);
        let c = count_infected_contacts(individuals, i);
        all_pts.push(pts);
        counts.push(c);
        i = i + 1;
    }

    let mut i: usize = 0;
    while i < n
        invariant
            i <= n == s0.len() <= 100_000,
            individuals@.len() == n,
            forall|j: int| 0 <= j < n ==> (#[trigger] s0[j]).wf(),
            forall|j: int|
                0 <= j < i ==> individuals@[j] == agent_tick_spec(s0, j) && (
                #[trigger] individuals@[j]).wf(),
            forall|j: int| i <= j < n ==> (#[trigger] individuals@[j]) == s0[j],
            all_pts@.len() == n,
            counts@.len() == n,
            forall|j: int|
                0 <= j < n ==> (#[trigger] all_pts@[j])@ == collision_pts_spec(s0, j),
            forall|j: int| 0 <= j < n ==> (#[trigger] all_pts@[j])@.len() <= n + 1,
            forall|j: int, p: int|
                0 <= j < n && 0 <= p < all_pts@[j]@.len() ==> in_domain(
                    #[trigger] all_pts@[j]@[p],
                ),
            forall|j: int|
                0 <= j < n ==> (#[trigger] counts@[j]) == contact_count_spec(s0, j, n as int),
        decreases n - i,
    {
        let mut a = individuals[i];
        if !a.day_done {
            if matches!(a.state, InfectionState::Susceptible) {
                a.to_infect = a.to_infect.saturating_add(counts[i]);
            }
            let pts_i = &all_pts[i];
            if pts_i.len() == 0 {
                a.update_desired();
            } else {
                a.update_escape(pts_i);
            }
            a.step();
            a.update_target();
            individuals[i] = a;
        }
        i = i + 1;
    }
    proof {
        assert(individuals@ =~= tick_spec(s0));
    }
}

/// Whether every individual has finished its itinerary and gone home.
fn all_done_exec(individuals: &Vec<Individual>) -> (r: bool)
    ensures
        r == all_done(individuals@),
{
    let n = individuals.len();
    let mut i: usize = 0;
    while i < n
        invariant
            i <= n == individuals@.len(),
            forall|j: int| 0 <= j < i ==> (#[trigger] individuals@[j]).day_done,
        decreases n - i,
    {
        if !individuals[i].day_done {
            return false;
        }
        i = i + 1;
    }
    true
}

/// One simulated day.  The living population is owned by the simulation and
/// borrowed by `run` for the duration of the day's ticks.
pub struct Day {
    /// Chance of transmission per exposure, in parts per million; recorded
    /// with the day and consumed by the end-of-day epidemiological update.
    pub transmission_rate: u32,
    /// Elapsed physical ticks.
    pub time: u64,
}

impl Day {
    pub fn new(transmission_rate: u32) -> (d: Day)
        ensures
            d.transmission_rate == transmission_rate,
            d.time == 0,
    {
        Day { transmission_rate, time: 0 }
    }

    /// Advances the population by up to `steps` physical ticks, stopping
    /// early once everyone is home; true iff everyone is home afterwards.
    /// The caller re-invokes `run` until it returns true, so that the day
    /// only ends once every itinerary is complete.
    pub fn run(&mut self, individuals: &mut Vec<Individual>, steps: usize) -> (done: bool)
        requires
            forall|j: int|
                0 <= j < old(individuals)@.len() ==> (#[trigger] old(individuals)@[j]).wf(),
            old(individuals)@.len() <= 100_000,
        ensures
            final(individuals)@ == run_spec(old(individuals)@, steps as nat),
            done == all_done(final(individuals)@),
            final(individuals)@.len() == old(individuals)@.len(),
            forall|j: int|
                0 <= j < final(individuals)@.len() ==> (#[trigger] final(individuals)@[j]).wf(),
            forall|j: int|
                0 <= j < final(individuals)@.len() ==> MIN_PARTICLE_RADIUS <= (
                #[trigger] final(individuals)@[j]).radius <= MAX_PARTICLE_RADIUS,
            final(self).transmission_rate == old(self).transmission_rate,
    {
        let ghost s0 = individuals@;
        let mut done = all_done_exec(individuals);
        let mut step_i: usize = 0;
        while step_i < steps && !done
            invariant
                step_i <= steps,
                individuals@.len() == s0.len() <= 100_000,
                forall|j: int|
                    0 <= j < individuals@.len() ==> (#[trigger] individuals@[j]).wf(),
                run_spec(s0, steps as nat) == run_spec(individuals@, (steps - step_i) as nat),
                done == all_done(individuals@),
            decreases steps - step_i,
        {
            tick(individuals);
            done = all_done_exec(individuals);
            step_i = step_i + 1;
        }
        self.time = self.time.saturating_add(step_i as u64);
        done
    }
}

} // verus!
