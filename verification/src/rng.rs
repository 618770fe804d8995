//! The pseudo-random source used for sampling.
//!
//! Each render worker owns one `SmallRng` instance; the library draws from
//! it only through the wrappers here, whose contracts state what holds of
//! every possible outcome (a range), never which outcome comes.

use vstd::prelude::*;

verus! {

#[verifier::external_type_specification]
#[verifier::external_body]
pub struct ExSmallRng(rand::rngs::SmallRng);

/// Relies on rand's SeedableRng::seed_from_u64 for SmallRng: builds a
/// generator from the given seed.
#[verifier::external_body]
pub fn new_rng(seed: u64) -> (r: rand::rngs::SmallRng) {
    <rand::rngs::SmallRng as rand::SeedableRng>::seed_from_u64(seed)
}

/// Relies on rand's Rng::gen_range: the draw lies in the requested range,
/// here one of the three axes.
#[verifier::external_body]
pub fn rng_axis(rng: &mut rand::rngs::SmallRng) -> (r: usize)
    ensures
        r < 3,
{
    rand::Rng::gen_range(rng, 0..3usize)
}

/// Relies on rand's Rng::gen_range: a fixed-point draw in [0, 1).
#[verifier::external_body]
pub fn rng_unit(rng: &mut rand::rngs::SmallRng) -> (r: i64)
    ensures
        0 <= r < 65536,
{
    rand::Rng::gen_range(rng, 0i64..65536)
}

} // verus!
