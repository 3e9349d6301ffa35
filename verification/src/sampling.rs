//! Random draws for the engine, behind trusted wrappers around `rand` and
//! `rand_distr`.
//!
//! The engine itself is verified for every value these draws can take: no
//! contract here claims more of a random result than the range its
//! documentation promises.

use vstd::prelude::*;

verus! {

#[verifier::external_type_specification]
#[verifier::external_body]
pub struct ExStdRng(rand::rngs::StdRng);

/// Relies on `rand::SeedableRng::seed_from_u64` to build a generator from a
/// 64-bit seed.
#[verifier::external_body]
pub fn rng_from_seed(seed: u64) -> rand::rngs::StdRng {
    <rand::rngs::StdRng as rand::SeedableRng>::seed_from_u64(seed)
}

/// Relies on `rand::SeedableRng::from_entropy` to build a generator from
/// operating-system entropy.
#[verifier::external_body]
pub fn rng_from_entropy() -> rand::rngs::StdRng {
    <rand::rngs::StdRng as rand::SeedableRng>::from_entropy()
}

/// Relies on `rand::Rng::gen_range`: a draw from `lo..=hi` lies between the
/// two bounds. `gen_range` panics on an empty range, so `lo <= hi` is
/// demanded here.
#[verifier::external_body]
pub fn sample_uniform_inclusive(rng: &mut rand::rngs::StdRng, lo: u64, hi: u64) -> (r: u64)
    requires
        lo <= hi,
    ensures
        lo <= r <= hi,
{
    rand::Rng::gen_range(rng, lo..=hi)
}

/// Relies on `rand_distr::Exp`: one exponentially distributed inter-arrival
/// gap, in microseconds, for a rate given in millionths of an arrival per
/// second. `Exp::new` accepts any non-negative rate, and the sample is
/// non-negative, so the cast to `u64` can yield anything from zero to
/// `u64::MAX`; callers must hold up under every such value.
#[verifier::external_body]
pub fn sample_arrival_gap(rng: &mut rand::rngs::StdRng, lambda_micro: u64) -> u64 {
    // a rate in millionths per second, read as a count of microseconds, is
    // exactly the per-second rate
    let per_second = std::time::Duration::from_micros(lambda_micro).as_secs_f64();
    let gap_seconds = rand_distr::Distribution::sample(
        &rand_distr::Exp::new(per_second).unwrap(),
        rng,
    );
    (gap_seconds / std::time::Duration::from_micros(1).as_secs_f64()) as u64
}

} // verus!
