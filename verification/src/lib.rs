//! An epidemic simulation over mobile agents in a bounded square domain.
//!
//! Agents walk from their residence toward a sequence of destinations while
//! avoiding walls and each other; physical contact between a susceptible and
//! an infected agent spreads the disease.  All geometry is carried in
//! fixed-point subunits (see `constants`), so every physical and
//! epidemiological computation is exact integer arithmetic.

pub mod constants;
pub mod day;
pub mod individual;
pub mod laws;
pub mod math;
pub mod rng;
pub mod simulation;
pub mod target;
