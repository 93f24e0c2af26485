//! The source of randomness behind tour construction: rand's standard
//! generator, seeded explicitly so that runs can be reproduced.
use vstd::prelude::*;

verus! {

#[verifier::external_type_specification]
#[verifier::external_body]
pub struct ExStdRng(rand::rngs::StdRng);

/// Relies on rand's `SeedableRng::seed_from_u64`: builds a generator whose
/// stream of draws is a fixed function of the seed, so two generators made
/// from the same seed behave identically.
#[verifier::external_body]
pub fn rng_from_seed(seed: u64) -> (r: rand::rngs::StdRng) {
    <rand::rngs::StdRng as rand::SeedableRng>::seed_from_u64(seed)
}

/// Relies on rand's `RngExt::random_range` over `0..bound`: the range is
/// non-empty, so the call does not panic and the draw is below `bound`.
/// Nothing else is assumed of the value drawn.
#[verifier::external_body]
pub fn draw_below(rng: &mut rand::rngs::StdRng, bound: u64) -> (r: u64)
    requires
        bound >= 1,
    ensures
        r < bound,
{
    rand::RngExt::random_range(rng, 0..bound)
}

} // verus!
