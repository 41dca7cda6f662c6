//! Population-wide laws of the model, proved from the same specifications
//! the executable functions are verified against.

use vstd::prelude::*;
use crate::constants::{MIN_PARTICLE_RADIUS, MAX_PARTICLE_RADIUS, SCALE, dist_sq};
use crate::individual::{Individual, InfectionState};
use crate::math::{
    is_root10, is_sqrt_floor, lemma_pow10_strictly_increases, lemma_root10_exists,
    lemma_sqrt_floor_is, pow10_spec, root10_floor, sq,
};
use crate::day::{run_spec, tick_spec, all_done};
use crate::simulation::{count_infected, epi_evolves, may_die, state_evolves};

verus! {

/// Collision is symmetric: `a` collides with `b` exactly when `b` collides
/// with `a`, whatever the positions and radii.
pub proof fn lemma_is_colliding_symmetric(a: Individual, b: Individual)
    ensures
        a.colliding_spec(b) == b.colliding_spec(a),
{
    assert(dist_sq((a.x, a.y), (b.x, b.y)) == dist_sq((b.x, b.y), (a.x, a.y))) by (
    nonlinear_arith);
    assert(sq(a.radius + b.radius) == sq(b.radius + a.radius));
}

/// At transmission rate zero no susceptible individual ever becomes
/// infected, so across an end-of-day update the number of infected can
/// only fall.
pub proof fn lemma_no_new_infections_at_rate_zero(
    s: Seq<Individual>,
    t: Seq<Individual>,
    period: usize,
    mortality: u32,
)
    requires
        epi_evolves(s, t, period, 0, mortality),
    ensures
        count_infected(t) <= count_infected(s),
    decreases s.len(),
{
    if s.len() > 0 {
        let a = s.last();
        if may_die(a, mortality) && epi_evolves(s.drop_last(), t, period, 0, mortality) {
            lemma_no_new_infections_at_rate_zero(s.drop_last(), t, period, mortality);
        } else {
            lemma_no_new_infections_at_rate_zero(s.drop_last(), t.drop_last(), period, mortality);
        }
    }
}

/// At mortality zero nobody dies: the end-of-day update maps the
/// population element by element, and every individual's new state follows
/// `state_evolves` from its old one.
pub proof fn lemma_no_mortality_keeps_everyone(
    s: Seq<Individual>,
    t: Seq<Individual>,
    period: usize,
    rate: u32,
)
    requires
        epi_evolves(s, t, period, rate, 0),
    ensures
        t.len() == s.len(),
        forall|i: int|
            0 <= i < s.len() ==> state_evolves(#[trigger] s[i], t[i], period, rate),
    decreases s.len(),
{
    if s.len() > 0 {
        assert(!may_die(s.last(), 0));
        lemma_no_mortality_keeps_everyone(s.drop_last(), t.drop_last(), period, rate);
        assert forall|i: int| 0 <= i < s.len() implies state_evolves(
            #[trigger] s[i],
            t[i],
            period,
            rate,
        ) by {
            if i < s.len() - 1 {
                assert(s.drop_last()[i] == s[i] && t.drop_last()[i] == t[i]);
            }
        }
    }
}

/// In a population of one, an end-of-day update either removes the one
/// individual (possible only at the end of an infectious period, and never
/// at mortality zero) or steps its state by `state_evolves`.
pub proof fn lemma_single_agent_update(
    s: Seq<Individual>,
    t: Seq<Individual>,
    period: usize,
    rate: u32,
    mortality: u32,
)
    requires
        epi_evolves(s, t, period, rate, mortality),
        s.len() == 1,
    ensures
        t.len() <= 1,
        t.len() == 0 ==> may_die(s[0], mortality),
        t.len() == 1 ==> state_evolves(s[0], t[0], period, rate),
{
    reveal_with_fuel(epi_evolves, 2);
    if s.len() > 0 && !(may_die(s.last(), mortality) && epi_evolves(
        s.drop_last(),
        t,
        period,
        rate,
        mortality,
    )) {
        assert(t.drop_last().len() == 0);
    }
}

/// An infected survivor counts down one day at a time: after `j` surviving
/// days it has `n - j` days left.
pub proof fn lemma_infected_counts_down(
    chain: Seq<Individual>,
    period: usize,
    rate: u32,
    n: usize,
    j: int,
)
    requires
        forall|k: int|
            0 <= k < chain.len() - 1 ==> state_evolves(
                #[trigger] chain[k],
                chain[k + 1],
                period,
                rate,
            ),
        chain.len() > 0,
        chain[0].state == InfectionState::Infected(n),
        0 <= j <= n,
        j < chain.len(),
    ensures
        chain[j].state == InfectionState::Infected((n - j) as usize),
    decreases j,
{
    if j > 0 {
        lemma_infected_counts_down(chain, period, rate, n, j - 1);
        assert(state_evolves(chain[j - 1], chain[j], period, rate));
    }
}

/// An individual seeded with `Infected(n)` that survives `n + 1` daily
/// updates is recovered afterwards: the infection resolves on schedule and
/// never lingers.  (The only other way out of `Infected` is death, which
/// removes the individual from the chain of survivors.)
pub proof fn lemma_infection_resolves(chain: Seq<Individual>, period: usize, rate: u32, n: usize)
    requires
        forall|k: int|
            0 <= k < chain.len() - 1 ==> state_evolves(
                #[trigger] chain[k],
                chain[k + 1],
                period,
                rate,
            ),
        chain.len() > n + 1,
        chain[0].state == InfectionState::Infected(n),
    ensures
        chain[n + 1].state == InfectionState::Recovered,
{
    lemma_infected_counts_down(chain, period, rate, n, n as int);
    assert(state_evolves(chain[n as int], chain[n + 1], period, rate));
}

/// Recovery is permanent: a recovered survivor is still recovered any
/// number of daily updates later.
pub proof fn lemma_recovered_stays(chain: Seq<Individual>, period: usize, rate: u32, m: int, j: int)
    requires
        forall|k: int|
            0 <= k < chain.len() - 1 ==> state_evolves(
                #[trigger] chain[k],
                chain[k + 1],
                period,
                rate,
            ),
        0 <= m <= j,
        j < chain.len(),
        chain[m].state == InfectionState::Recovered,
    ensures
        chain[j].state == InfectionState::Recovered,
    decreases j - m,
{
    if m < j {
        assert(state_evolves(chain[m], chain[m + 1], period, rate));
        lemma_recovered_stays(chain, period, rate, m + 1, j);
    }
}

/// No two individuals share an identity.
pub open spec fn distinct_ids(s: Seq<Individual>) -> bool {
    forall|i: int, j: int| 0 <= i < j < s.len() ==> (#[trigger] s[i]).id != (#[trigger] s[j]).id
}

/// One physical tick never changes who an individual is or how ill it is:
/// identity, residence and disease state pass through untouched.
pub proof fn lemma_tick_keeps_identity(s: Seq<Individual>, i: int)
    requires
        0 <= i < s.len(),
    ensures
        tick_spec(s).len() == s.len(),
        tick_spec(s)[i].id == s[i].id,
        tick_spec(s)[i].state == s[i].state,
        tick_spec(s)[i].residence == s[i].residence,
{
}

/// A whole day of physics never changes who an individual is or how ill it
/// is, however many ticks it runs.
pub proof fn lemma_run_keeps_identity(s: Seq<Individual>, steps: nat, i: int)
    requires
        0 <= i < s.len(),
    ensures
        run_spec(s, steps).len() == s.len(),
        run_spec(s, steps)[i].id == s[i].id,
        run_spec(s, steps)[i].state == s[i].state,
        run_spec(s, steps)[i].residence == s[i].residence,
    decreases steps,
{
    if steps > 0 && !all_done(s) {
        lemma_tick_keeps_identity(s, i);
        lemma_run_keeps_identity(tick_spec(s), (steps - 1) as nat, i);
    }
}

/// Every survivor of an end-of-day update was in the population before it.
pub proof fn lemma_epi_keeps_ids(
    s: Seq<Individual>,
    t: Seq<Individual>,
    period: usize,
    rate: u32,
    mortality: u32,
    j: int,
)
    requires
        epi_evolves(s, t, period, rate, mortality),
        0 <= j < t.len(),
    ensures
        exists|k: int| 0 <= k < s.len() && (#[trigger] s[k]).id == t[j].id,
    decreases s.len(),
{
    let a = s.last();
    if may_die(a, mortality) && epi_evolves(s.drop_last(), t, period, rate, mortality) {
        lemma_epi_keeps_ids(s.drop_last(), t, period, rate, mortality, j);
        let k = choose|k: int|
            0 <= k < s.drop_last().len() && (#[trigger] s.drop_last()[k]).id == t[j].id;
        assert(s[k].id == t[j].id);
    } else {
        if j == t.len() - 1 {
            assert(s[s.len() - 1].id == t[j].id);
        } else {
            lemma_epi_keeps_ids(s.drop_last(), t.drop_last(), period, rate, mortality, j);
            let k = choose|k: int|
                0 <= k < s.drop_last().len() && (#[trigger] s.drop_last()[k]).id == t.drop_last()[
                j].id;
            assert(s[k].id == t[j].id);
        }
    }
}

/// Distinct identities stay distinct across an end-of-day update: nobody is
/// duplicated by survival.
pub proof fn lemma_epi_keeps_distinct_ids(
    s: Seq<Individual>,
    t: Seq<Individual>,
    period: usize,
    rate: u32,
    mortality: u32,
)
    requires
        epi_evolves(s, t, period, rate, mortality),
        distinct_ids(s),
    ensures
        distinct_ids(t),
    decreases s.len(),
{
    if s.len() > 0 {
        let a = s.last();
        assert(distinct_ids(s.drop_last()));
        if may_die(a, mortality) && epi_evolves(s.drop_last(), t, period, rate, mortality) {
            lemma_epi_keeps_distinct_ids(s.drop_last(), t, period, rate, mortality);
        } else {
            lemma_epi_keeps_distinct_ids(
                s.drop_last(),
                t.drop_last(),
                period,
                rate,
                mortality,
            );
            assert forall|i: int, j: int| 0 <= i < j < t.len() implies (#[trigger] t[i]).id != (
            #[trigger] t[j]).id by {
                if j == t.len() - 1 {
                    lemma_epi_keeps_ids(
                        s.drop_last(),
                        t.drop_last(),
                        period,
                        rate,
                        mortality,
                        i,
                    );
                    let k = choose|k: int|
                        0 <= k < s.drop_last().len() && (#[trigger] s.drop_last()[k]).id == t
                            .drop_last()[i].id;
                    assert(s[k].id == t[i].id && k < s.len() - 1);
                    assert(t[j].id == s[s.len() - 1].id);
                } else {
                    assert(t.drop_last()[i].id != t.drop_last()[j].id);
                }
            }
        }
    }
}

/// Once the radius has grown past its minimum, the desired speed is
/// positive, so a collision-free individual keeps moving toward its
/// target.
pub proof fn lemma_desired_speed_positive(radius: int)
    requires
        MIN_PARTICLE_RADIUS < radius <= MAX_PARTICLE_RADIUS,
    ensures
        Individual::speed_of(radius) >= 9,
{
    let t = radius - MIN_PARTICLE_RADIUS;
    assert(1 <= t <= 2700);
    assert(t * 4096 / 2700 >= 1 && t * 4096 / 2700 <= 4096) by (nonlinear_arith)
        requires
            1 <= t <= 2700,
    ;
    let u = t * 4096 / 2700;
    assert(sq(u) >= 1 && sq(u) <= 4096 * 4096) by (nonlinear_arith)
        requires
            1 <= u <= 4096,
            sq(u) == u * u,
    ;
    assert(sq(sq(u)) >= 1) by (nonlinear_arith)
        requires
            1 <= sq(u),
            sq(sq(u)) == sq(u) * sq(u),
    ;
    assert(sq(sq(sq(u))) >= 1) by (nonlinear_arith)
        requires
            1 <= sq(sq(u)),
            sq(sq(sq(u))) == sq(sq(u)) * sq(sq(u)),
    ;
    assert(sq(sq(sq(u))) * u >= 1) by (nonlinear_arith)
        requires
            1 <= sq(sq(sq(u))),
            1 <= u,
    ;
    let m = 4096 * crate::math::pow9_spec(u);
    assert(m >= 4096);
    lemma_root10_exists(m as nat);
    let y = root10_floor(m);
    assert(is_root10(y, m));
    if y < 2 {
        assert(pow10_spec(1) == 1 && pow10_spec(2) == 1024) by (nonlinear_arith)
            requires
                pow10_spec(1) == sq(sq(sq(1))) * sq(1),
                sq(1) == 1 * 1,
                sq(sq(1)) == sq(1) * sq(1),
                sq(sq(sq(1))) == sq(sq(1)) * sq(sq(1)),
                pow10_spec(2) == sq(sq(sq(2))) * sq(2),
                sq(2) == 2 * 2,
                sq(sq(2)) == sq(2) * sq(2),
                sq(sq(sq(2))) == sq(sq(2)) * sq(sq(2)),
        ;
        lemma_pow10_strictly_increases(y + 1, 2);
        assert(false);
    }
    assert(20_000 * y >= 40_000) by (nonlinear_arith)
        requires
            y >= 2,
    ;
    assert(20_000 * y / 4096 >= 9) by (nonlinear_arith)
        requires
            20_000 * y >= 40_000,
    ;
}

/// Two collision points placed symmetrically about the individual cancel
/// exactly: the summed escape direction is the zero vector, the radius
/// still resets, and the velocity stays defined by keeping its previous
/// value.
pub proof fn lemma_escape_symmetric_cancels(a: Individual, c: i64)
    requires
        1 <= c,
        a.x - c >= i64::MIN,
        a.x + c <= i64::MAX,
    ensures
        Individual::escape_spec(
            a,
            seq![((a.x - c) as i64, a.y), ((a.x + c) as i64, a.y)],
        ) == (Individual { radius: MIN_PARTICLE_RADIUS, ..a }),
{
    let pos = (a.x, a.y);
    let p0 = ((a.x - c) as i64, a.y);
    let p1 = ((a.x + c) as i64, a.y);
    let pts = seq![p0, p1];
    reveal_with_fuel(Individual::escape_sum, 3);
    assert(pts.drop_last() =~= seq![p0]);
    assert(seq![p0].drop_last() =~= Seq::<crate::constants::Location>::empty());

    assert(pos.0 - p0.0 == c && pos.1 - p0.1 == 0);
    assert(pos.0 - p1.0 == -c && pos.1 - p1.1 == 0);
    assert(dist_sq(pos, p0) == c * c) by (nonlinear_arith)
        requires
            pos.0 - p0.0 == c,
            pos.1 - p0.1 == 0,
            dist_sq(pos, p0) == (pos.0 - p0.0) * (pos.0 - p0.0) + (pos.1 - p0.1) * (pos.1
                - p0.1),
    ;
    assert(dist_sq(pos, p1) == c * c) by (nonlinear_arith)
        requires
            pos.0 - p1.0 == -c,
            pos.1 - p1.1 == 0,
            dist_sq(pos, p1) == (pos.0 - p1.0) * (pos.0 - p1.0) + (pos.1 - p1.1) * (pos.1
                - p1.1),
    ;
    assert(is_sqrt_floor(c as int, c * c)) by (nonlinear_arith)
        requires
            1 <= c,
    ;
    lemma_sqrt_floor_is(c as int, c * c);
    assert((c * SCALE) / (c as int) == SCALE && 0int / (c as int) == 0) by (nonlinear_arith)
        requires
            1 <= c,
            SCALE == 10_000,
    ;
    assert(Individual::escape_sum(seq![p0], pos) == (SCALE as int, 0int));
    assert(Individual::escape_sum(pts, pos) == (0int, 0int));
    assert(is_sqrt_floor(0, 0));
    lemma_sqrt_floor_is(0, 0);
}

} // verus!
