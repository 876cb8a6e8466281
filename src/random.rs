//! The seeded random source threaded through every sampling decision.
use vstd::prelude::*;
use rand::rngs::StdRng;
use rand::{Rng, SeedableRng};
use crate::config::GenerationConfig;

verus! {

/// The seeded generator of the `rand` crate; opaque to proofs.
#[verifier::external_type_specification]
#[verifier::external_body]
pub struct ExStdRng(StdRng);

/// Relies on `SeedableRng::seed_from_u64`: a generator seeded from the
/// configuration's seed, so that equal seeds give equal draws.
#[verifier::external_body]
pub fn create_rng(config: &GenerationConfig) -> StdRng {
    StdRng::seed_from_u64(config.seed)
}

/// Relies on `Rng::gen_range` over a half-open range: a value in `[lo, hi)`;
/// it panics only on an empty range, which `requires` rules out.
#[verifier::external_body]
pub(crate) fn random_range(rng: &mut StdRng, lo: u64, hi: u64) -> (r: u64)
    requires
        lo < hi,
    ensures
        lo <= r < hi,
{
    rng.gen_range(lo..hi)
}

/// Relies on `Rng::gen_ratio`: `true` with probability
/// `numerator / denominator`, so never for a zero numerator and always when
/// both are equal; it panics only on a zero denominator or a numerator above
/// it, which `requires` rules out.
#[verifier::external_body]
pub(crate) fn random_ratio(rng: &mut StdRng, numerator: u32, denominator: u32) -> (r: bool)
    requires
        0 < denominator,
        numerator <= denominator,
    ensures
        numerator == 0 ==> !r,
        numerator == denominator ==> r,
{
    rng.gen_ratio(numerator, denominator)
}

} // verus!
