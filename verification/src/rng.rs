//! The one gateway to randomness: every stochastic draw of the simulation
//! (waypoint placement, residence offsets, Bernoulli trials) goes through
//! `sample_range_i64`.

use vstd::prelude::*;

verus! {

/// Relies on rand's `Rng::gen_range` on `thread_rng` over an inclusive
/// integer range: it returns a value inside the given non-empty bounds
/// (and panics on an empty range, which the precondition rules out).
#[verifier::external_body]
pub(crate) fn sample_range_i64(lo: i64, hi: i64) -> (r: i64)
    requires
        lo <= hi,
    ensures
        lo <= r <= hi,
{
    rand::Rng::gen_range(&mut rand::thread_rng(), lo..=hi)
}

} // verus!
