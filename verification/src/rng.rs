//! The explicitly seeded random generator, and the index draws the
//! reproduction step makes from it.
//!
//! A run keeps two independent ChaCha12 generators, one for the initial
//! population, one for all reproduction randomness, so that the two phases
//! are reproducible independently of each other. Coordinate draws are
//! numeric and are made by the caller; the draws made here are the parent
//! index picks of the reproduction step.

use vstd::prelude::*;
use rand::Rng;
use rand::SeedableRng;

verus! {

#[verifier::external_type_specification]
#[verifier::external_body]
pub struct ExChaCha12Rng(rand_chacha::ChaCha12Rng);

/// Relies on rand_core's `SeedableRng::seed_from_u64`, as implemented for
/// `rand_chacha::ChaCha12Rng`: a generator whose stream is a function of
/// the seed alone.
#[verifier::external_body]
pub fn chacha12_from_seed(seed: u64) -> (r: rand_chacha::ChaCha12Rng) {
    rand_chacha::ChaCha12Rng::seed_from_u64(seed)
}

/// Relies on rand's `Rng::random_range` over `0..bound`: it returns a value
/// of that range, and panics only when the range is empty, which the bound
/// on `bound` rules out.
#[verifier::external_body]
pub fn draw_index(rng: &mut rand_chacha::ChaCha12Rng, bound: usize) -> (r: usize)
    requires
        bound >= 1,
    ensures
        r < bound,
{
    rng.random_range(0..bound)
}

} // verus!
