//! The top-level driver: population construction, the day-by-day loop, and
//! the end-of-day epidemiological update.

use vstd::prelude::*;
use crate::constants::{
    Location, MIN_PARTICLE_RADIUS, PPM, SIMULATION_LENGTH, dist_sq, in_domain,
};
use crate::day::Day;
use crate::individual::{Individual, InfectionState};
use crate::rng::sample_range_i64;

verus! {

/// Columns (and rows) of the residence grid: every individual draws its
/// residence inside its own cell, so two residences are never closer than
/// `MIN_PARTICLE_RADIUS`.
pub const RESIDENCE_GRID_COLS: i64 = 320;

/// Side of one residence grid cell.
pub const RESIDENCE_CELL_SIDE: i64 = 6243;

/// The sampled part of a cell leaves a `MIN_PARTICLE_RADIUS` gap to the
/// next cell: `RESIDENCE_CELL_SIDE - MIN_PARTICLE_RADIUS`.
pub const RESIDENCE_CELL_SPAN: i64 = 5243;

/// The point `p` lies in the sampled part of grid cell `idx`.
pub open spec fn in_residence_cell(p: Location, idx: int) -> bool {
    let col = idx % (RESIDENCE_GRID_COLS as int);
    let row = idx / (RESIDENCE_GRID_COLS as int);
    &&& MIN_PARTICLE_RADIUS + col * RESIDENCE_CELL_SIDE <= p.0 <= MIN_PARTICLE_RADIUS + col
        * RESIDENCE_CELL_SIDE + RESIDENCE_CELL_SPAN
    &&& MIN_PARTICLE_RADIUS + row * RESIDENCE_CELL_SIDE <= p.1 <= MIN_PARTICLE_RADIUS + row
        * RESIDENCE_CELL_SIDE + RESIDENCE_CELL_SPAN
}

/// Points of two distinct grid cells are at least `MIN_PARTICLE_RADIUS`
/// apart.
pub proof fn lemma_residence_cells_apart(p: Location, q: Location, i: int, j: int)
    requires
        0 <= i,
        0 <= j,
        i != j,
        in_residence_cell(p, i),
        in_residence_cell(q, j),
    ensures
        dist_sq(p, q) >= MIN_PARTICLE_RADIUS * MIN_PARTICLE_RADIUS,
{
    let ci = i % 320;
    let ri = i / 320;
    let cj = j % 320;
    let rj = j / 320;
    assert(i == ri * 320 + ci && j == rj * 320 + cj) by (nonlinear_arith)
        requires
            ci == i % 320 && ri == i / 320 && cj == j % 320 && rj == j / 320,
            0 <= i,
            0 <= j,
    ;
    let dx = p.0 - q.0;
    let dy = p.1 - q.1;
    assert(dx * dx >= 0 && dy * dy >= 0) by (nonlinear_arith);
    if ci != cj {
        if ci < cj {
            assert((cj - ci) * RESIDENCE_CELL_SIDE >= RESIDENCE_CELL_SIDE) by (nonlinear_arith)
                requires
                    cj - ci >= 1,
            ;
        } else {
            assert((ci - cj) * RESIDENCE_CELL_SIDE >= RESIDENCE_CELL_SIDE) by (nonlinear_arith)
                requires
                    ci - cj >= 1,
            ;
        }
        assert(dx >= 1000 || dx <= -1000);
        assert(dx * dx >= 1_000_000) by (nonlinear_arith)
            requires
                dx >= 1000 || dx <= -1000,
        ;
    } else {
        assert(ri != rj);
        if ri < rj {
            assert((rj - ri) * RESIDENCE_CELL_SIDE >= RESIDENCE_CELL_SIDE) by (nonlinear_arith)
                requires
                    rj - ri >= 1,
            ;
        } else {
            assert((ri - rj) * RESIDENCE_CELL_SIDE >= RESIDENCE_CELL_SIDE) by (nonlinear_arith)
                requires
                    ri - rj >= 1,
            ;
        }
        assert(dy >= 1000 || dy <= -1000);
        assert(dy * dy >= 1_000_000) by (nonlinear_arith)
            requires
                dy >= 1000 || dy <= -1000,
        ;
    }
}

/// How many of the individuals are susceptible.
pub open spec fn count_susceptible(s: Seq<Individual>) -> nat
    decreases s.len(),
{
    if s.len() == 0 {
        0
    } else {
        count_susceptible(s.drop_last()) + (if s.last().state is Susceptible {
            1nat
        } else {
            0nat
        })
    }
}

/// How many of the individuals are infected.
pub open spec fn count_infected(s: Seq<Individual>) -> nat
    decreases s.len(),
{
    if s.len() == 0 {
        0
    } else {
        count_infected(s.drop_last()) + (if s.last().state is Infected {
            1nat
        } else {
            0nat
        })
    }
}

/// How many of the individuals are recovered.
pub open spec fn count_recovered(s: Seq<Individual>) -> nat
    decreases s.len(),
{
    if s.len() == 0 {
        0
    } else {
        count_recovered(s.drop_last()) + (if s.last().state is Recovered {
            1nat
        } else {
            0nat
        })
    }
}

/// Every individual is in exactly one of the three states.
pub proof fn lemma_counts_partition(s: Seq<Individual>)
    ensures
        count_susceptible(s) + count_infected(s) + count_recovered(s) == s.len(),
    decreases s.len(),
{
    if s.len() > 0 {
        lemma_counts_partition(s.drop_last());
    }
}

/// The population-wide tally recomputed once per day.
#[derive(Clone, Copy, Debug, PartialEq, Eq, Structural)]
pub struct InfectionStatus {
    pub susceptible: usize,
    pub infected: usize,
    pub recovered: usize,
    pub dead: usize,
}

/// The tally a living population and the historical total determine:
/// the dead are those no longer among the living.
pub open spec fn status_spec(s: Seq<Individual>, initial: int) -> InfectionStatus {
    InfectionStatus {
        susceptible: count_susceptible(s) as usize,
        infected: count_infected(s) as usize,
        recovered: count_recovered(s) as usize,
        dead: (initial - s.len()) as usize,
    }
}

impl InfectionStatus {
    /// Tallies the living population; the four counts always add up to the
    /// initial population.
    pub fn new(individuals: &Vec<Individual>, initial_count: usize) -> (r: InfectionStatus)
        requires
            individuals@.len() <= initial_count,
        ensures
            r == status_spec(individuals@, initial_count as int),
            r.susceptible + r.infected + r.recovered + r.dead == initial_count,
            r.infected == count_infected(individuals@),
    {
        let n = individuals.len();
        let mut susceptible: usize = 0;
        let mut infected: usize = 0;
        let mut recovered: usize = 0;
        let mut i: usize = 0;
        while i < n
            invariant
                i <= n == individuals@.len(),
                susceptible == count_susceptible(individuals@.take(i as int)),
                infected == count_infected(individuals@.take(i as int)),
                recovered == count_recovered(individuals@.take(i as int)),
                susceptible + infected + recovered == i,
            decreases n - i,
        {
            proof {
                assert(individuals@.take(i as int + 1).drop_last() =~= individuals@.take(
                    i as int,
                ));
                assert(individuals@.take(i as int + 1).last() == individuals@[i as int]);
            }
            match individuals[i].state {
                InfectionState::Susceptible => {
                    susceptible = susceptible + 1;
                },
                InfectionState::Infected(_) => {
                    infected = infected + 1;
                },
                InfectionState::Recovered => {
                    recovered = recovered + 1;
                },
            }
            i = i + 1;
        }
        proof {
            assert(individuals@.take(n as int) =~= individuals@);
        }
        InfectionStatus { susceptible, infected, recovered, dead: initial_count - n }
    }
}

/// One Bernoulli trial with success probability `rate_ppm` parts per
/// million, decided by one uniform draw.
fn bernoulli_ppm(rate_ppm: u32) -> (r: bool)
    requires
        rate_ppm <= PPM,
    ensures
        rate_ppm == 0 ==> !r,
        rate_ppm == PPM ==> r,
{
    let p = sample_range_i64(0, 999_999);
    p < rate_ppm as i64
}

/// The non-random frame of the end-of-day update of one survivor: back
/// home at rest, day-scoped state cleared, identity, radius and residence
/// kept, and a fresh well-formed itinerary.
pub open spec fn survivor_frame_ok(a: Individual, b: Individual) -> bool {
    &&& b.wf()
    &&& b.id == a.id
    &&& b.residence == a.residence
    &&& (b.x, b.y) == a.residence
    &&& b.vx == 0 && b.vy == 0
    &&& b.radius == a.radius
    &&& b.to_infect == 0
    &&& b.target_idx == 0
    &&& !b.day_done
}

/// The epidemiological transition of one survivor, for every outcome of
/// the transmission trials: an exposed susceptible may become infected
/// (certainly at rate one, never at rate zero), an infected counts down
/// and recovers at zero, a recovered stays recovered.
pub open spec fn state_evolves(a: Individual, b: Individual, period: usize, rate: u32) -> bool {
    match a.state {
        InfectionState::Susceptible => {
            if a.to_infect == 0 || rate == 0 {
                b.state == InfectionState::Susceptible
            } else if rate >= PPM {
                b.state == InfectionState::Infected(period)
            } else {
                b.state == InfectionState::Susceptible || b.state == InfectionState::Infected(
                    period,
                )
            }
        },
        InfectionState::Infected(n) => {
            if n > 0 {
                b.state == InfectionState::Infected((n - 1) as usize)
            } else {
                b.state == InfectionState::Recovered
            }
        },
        InfectionState::Recovered => b.state == InfectionState::Recovered,
    }
}

/// Only an individual whose infectious period has run out can die, and
/// only when the mortality rate allows it.
pub open spec fn may_die(a: Individual, mortality: u32) -> bool {
    a.state == InfectionState::Infected(0usize) && mortality > 0
}

/// Relates a population to its possible values after one end-of-day
/// update, for every outcome of the random draws: order is kept, each
/// individual either dies (allowed only at the end of its infectious
/// period, never at mortality zero, certain at mortality one) or survives
/// with `survivor_frame_ok` and `state_evolves`.
pub open spec fn epi_evolves(
    s: Seq<Individual>,
    t: Seq<Individual>,
    period: usize,
    rate: u32,
    mortality: u32,
) -> bool
    decreases s.len(),
{
    if s.len() == 0 {
        t.len() == 0
    } else {
        let a = s.last();
        ||| (may_die(a, mortality) && epi_evolves(s.drop_last(), t, period, rate, mortality))
        ||| (t.len() > 0 && (a.state == InfectionState::Infected(0usize) ==> mortality < PPM)
            && survivor_frame_ok(a, t.last()) && state_evolves(a, t.last(), period, rate)
            && epi_evolves(s.drop_last(), t.drop_last(), period, rate, mortality))
    }
}

/// The simulation: the living population and the run's parameters.
pub struct Simulation {
    pub individuals: Vec<Individual>,
    /// The initial population count; the difference to the living count is
    /// the death toll.
    pub individual_count: usize,
    /// Completed days.
    pub date: usize,
    /// Chance of transmission per exposure, parts per million.
    pub transmission_rate: u32,
    /// Days an infection lasts.
    pub infectious_period: usize,
    /// Chance of death at the end of the infectious period, parts per
    /// million.
    pub mortality_rate: u32,
    pub infection_status: InfectionStatus,
}

impl Simulation {
    /// The simulation's invariant: a well-formed living population no
    /// larger than the initial one, rates within range, and a tally that
    /// matches the population.
    pub open spec fn wf(self) -> bool {
        &&& forall|i: int|
            0 <= i < self.individuals@.len() ==> (#[trigger] self.individuals@[i]).wf()
        &&& self.individuals@.len() <= self.individual_count <= 100_000
        &&& self.transmission_rate <= PPM
        &&& self.mortality_rate <= PPM
        &&& self.infection_status == status_spec(
            self.individuals@,
            self.individual_count as int,
        )
    }

    /// Builds the population.  Each individual draws its residence inside
    /// its own cell of a coarse grid, so no two residences are closer than
    /// `MIN_PARTICLE_RADIUS`; individual zero is the seed infection.
    pub fn new(
        individual_count: usize,
        transmission_rate: u32,
        infectious_period: usize,
        mortality_rate: u32,
    ) -> (sim: Simulation)
        requires
            1 <= individual_count <= 100_000,
            transmission_rate <= PPM,
            mortality_rate <= PPM,
        ensures
            sim.wf(),
            sim.individuals@.len() == individual_count,
            sim.individual_count == individual_count,
            sim.date == 0,
            sim.transmission_rate == transmission_rate,
            sim.infectious_period == infectious_period,
            sim.mortality_rate == mortality_rate,
            sim.individuals@[0].state == InfectionState::Infected(infectious_period),
            forall|i: int|
                1 <= i < individual_count ==> (#[trigger] sim.individuals@[i]).state
                    is Susceptible,
            forall|i: int|
                0 <= i < individual_count ==> (#[trigger] sim.individuals@[i]).id == i,
            forall|i: int, j: int|
                0 <= i < individual_count && 0 <= j < individual_count && i != j ==> dist_sq(
                    #[trigger] sim.individuals@[i].residence,
                    #[trigger] sim.individuals@[j].residence,
                ) >= MIN_PARTICLE_RADIUS * MIN_PARTICLE_RADIUS,
            forall|i: int|
                0 <= i < individual_count ==> ((#[trigger] sim.individuals@[i]).x,
                sim.individuals@[i].y) == sim.individuals@[i].residence && sim.individuals@[i]
                    .to_infect == 0 && !sim.individuals@[i].day_done,
    {
        let mut individuals: Vec<Individual> = Vec::new();
        let mut i: usize = 0;
        while i < individual_count
            invariant
                i <= individual_count <= 100_000,
                individuals@.len() == i,
                forall|j: int| 0 <= j < i ==> (#[trigger] individuals@[j]).wf(),
                forall|j: int|
                    0 <= j < i ==> in_residence_cell(
                        (#[trigger] individuals@[j]).residence,
                        j,
                    ),
                forall|j: int| 0 <= j < i ==> (#[trigger] individuals@[j]).id == j,
                forall|j: int|
                    0 <= j < i ==> (#[trigger] individuals@[j]).state
                        == InfectionState::Susceptible,
                forall|j: int|
                    0 <= j < i ==> ((#[trigger] individuals@[j]).x, individuals@[j].y)
                        == individuals@[j].residence && individuals@[j].to_infect == 0
                        && !individuals@[j].day_done,
            decreases individual_count - i,
        {
            let col = (i as i64) % RESIDENCE_GRID_COLS;
            let row = (i as i64) / RESIDENCE_GRID_COLS;
            assert(0 <= col < 320 && 0 <= row <= 312) by (nonlinear_arith)
                requires
                    0 <= i < 100_000,
                    col == (i as i64) % 320,
                    row == (i as i64) / 320,
            ;
            assert(0 <= col * RESIDENCE_CELL_SIDE <= 1_991_517 && 0 <= row * RESIDENCE_CELL_SIDE
                <= 1_947_816) by (nonlinear_arith)
                requires
                    0 <= col < 320,
                    0 <= row <= 312,
            ;
            let base_x = MIN_PARTICLE_RADIUS + col * RESIDENCE_CELL_SIDE;
            let base_y = MIN_PARTICLE_RADIUS + row * RESIDENCE_CELL_SIDE;
            let off_x = sample_range_i64(0, RESIDENCE_CELL_SPAN);
            let off_y = sample_range_i64(0, RESIDENCE_CELL_SPAN);
            let residence = (base_x + off_x, base_y + off_y);
            let person = Individual::new(i, residence);
            individuals.push(person);
            i = i + 1;
        }

        let mut seed = individuals[0];
        seed.infect(infectious_period);
        individuals[0] = seed;

        let infection_status = InfectionStatus::new(&individuals, individual_count);

        proof {
            assert forall|i: int, j: int|
                0 <= i < individual_count && 0 <= j < individual_count && i != j implies dist_sq(
                #[trigger] individuals@[i].residence,
                #[trigger] individuals@[j].residence,
            ) >= MIN_PARTICLE_RADIUS * MIN_PARTICLE_RADIUS by {
                lemma_residence_cells_apart(
                    individuals@[i].residence,
                    individuals@[j].residence,
                    i,
                    j,
                );
            }
        }

        Simulation {
            individuals,
            individual_count,
            date: 0,
            transmission_rate,
            infectious_period,
            mortality_rate,
            infection_status,
        }
    }

    /// Starts the next day while anyone is still infected; `None` ends the
    /// run.
    pub fn next_day(&mut self) -> (d: Option<Day>)
        requires
            old(self).wf(),
            old(self).date < usize::MAX,
        ensures
            final(self).wf(),
            (d is Some) <==> old(self).infection_status.infected > 0,
            d is Some ==> *final(self) == (Simulation {
                date: (old(self).date + 1) as usize,
                ..*old(self)
            }),
            d is Some ==> d->Some_0.transmission_rate == old(self).transmission_rate
                && d->Some_0.time == 0,
            d is None ==> *final(self) == *old(self),
    {
        if self.infection_status.infected > 0 {
            self.date = self.date + 1;
            Some(Day::new(self.transmission_rate))
        } else {
            None
        }
    }

    /// The end-of-day epidemiological update: exposed susceptibles face one
    /// transmission trial per recorded exposure, infections count down,
    /// resolve into recovery or death, and every survivor goes home with a
    /// fresh itinerary.  The tally is then recomputed.
    pub fn update_infection(&mut self)
        requires
            old(self).wf(),
        ensures
            final(self).wf(),
            epi_evolves(
                old(self).individuals@,
                final(self).individuals@,
                old(self).infectious_period,
                old(self).transmission_rate,
                old(self).mortality_rate,
            ),
            final(self).individual_count == old(self).individual_count,
            final(self).date == old(self).date,
            final(self).transmission_rate == old(self).transmission_rate,
            final(self).infectious_period == old(self).infectious_period,
            final(self).mortality_rate == old(self).mortality_rate,
            final(self).infection_status == status_spec(
                final(self).individuals@,
                final(self).individual_count as int,
            ),
            final(self).infection_status.susceptible + final(self).infection_status.infected
                + final(self).infection_status.recovered + final(self).infection_status.dead
                == final(self).individual_count,
            old(self).transmission_rate == 0 ==> final(self).infection_status.infected <= old(
                self,
            ).infection_status.infected,
    {
        let ghost s0 = self.individuals@;
        let n = self.individuals.len();
        let mut survivors: Vec<Individual> = Vec::new();
        let mut i: usize = 0;
        while i < n
            invariant
                i <= n == s0.len(),
                self.individuals@ == s0,
                forall|j: int| 0 <= j < n ==> (#[trigger] s0[j]).wf(),
                self.transmission_rate <= PPM,
                self.mortality_rate <= PPM,
                survivors@.len() <= i,
                forall|j: int| 0 <= j < survivors@.len() ==> (#[trigger] survivors@[j]).wf(),
                epi_evolves(
                    s0.take(i as int),
                    survivors@,
                    self.infectious_period,
                    self.transmission_rate,
                    self.mortality_rate,
                ),
            decreases n - i,
        {
            proof {
                assert(s0.take(i as int + 1).drop_last() =~= s0.take(i as int));
                assert(s0.take(i as int + 1).last() == s0[i as int]);
            }
            let mut a = self.individuals[i];
            let mut dies = false;
            match a.state {
                InfectionState::Susceptible => {
                    let mut trials = a.to_infect;
                    let mut got = false;
                    while trials > 0 && !got
                        invariant
                            self.transmission_rate <= PPM,
                            self.transmission_rate == 0 ==> !got,
                            a.to_infect == 0 ==> !got,
                            self.transmission_rate >= PPM && trials < a.to_infect ==> got,
                            trials <= a.to_infect,
                        decreases trials,
                    {
                        if bernoulli_ppm(self.transmission_rate) {
                            got = true;
                        }
                        trials = trials - 1;
                    }
                    if got {
                        a.infect(self.infectious_period);
                    }
                },
                InfectionState::Infected(days_left) => {
                    if days_left == 0 {
                        if bernoulli_ppm(self.mortality_rate) {
                            dies = true;
                        } else {
                            a.state = InfectionState::Recovered;
                        }
                    } else {
                        a.state = InfectionState::Infected(days_left - 1);
                    }
                },
                InfectionState::Recovered => {},
            }
            let ghost pre = survivors@;
            if !dies {
                a.reset_to_residence();
                a.recreate_random_target();
                survivors.push(a);
                proof {
                    assert(survivors@.drop_last() =~= pre);
                    assert(survivors@.last() == a);
                    assert(survivor_frame_ok(s0[i as int], a));
                    assert(state_evolves(
                        s0[i as int],
                        a,
                        self.infectious_period,
                        self.transmission_rate,
                    ));
                }
            } else {
                proof {
                    assert(may_die(s0[i as int], self.mortality_rate));
                }
            }
            i = i + 1;
        }
        proof {
            assert(s0.take(n as int) =~= s0);
        }
        self.individuals = survivors;
        self.infection_status = InfectionStatus::new(&self.individuals, self.individual_count);
        proof {
            if old(self).transmission_rate == 0 {
                crate::laws::lemma_no_new_infections_at_rate_zero(
                    s0,
                    self.individuals@,
                    self.infectious_period,
                    self.mortality_rate,
                );
                lemma_counts_partition(s0);
                lemma_counts_partition(self.individuals@);
            }
        }
    }
}

} // verus!
