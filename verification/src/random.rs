//! The source of random bits: a generator of `rand` that each source owns.
//!
//! Everything in this module is trusted. What a draw returns depends on
//! chance, so the contracts state only what holds of every outcome.

use crate::natural::value;
use num_bigint::{BigUint, RandomBits};
use rand::rngs::StdRng;
use rand::{Rng, SeedableRng};
use vstd::arithmetic::power2::pow2;
use vstd::prelude::*;

verus! {

#[verifier::external_type_specification]
#[verifier::external_body]
pub struct ExStdRng(rand::rngs::StdRng);

/// `StdRng::from_entropy` of `rand::SeedableRng`: a new generator with a
/// state of its own, seeded once from the operating system. Nothing is
/// claimed of it. The call panics where the operating system gives no seed;
/// no argument decides that.
#[verifier::external_body]
pub(crate) fn fresh_rng() -> (r: StdRng) {
    StdRng::from_entropy()
}

/// `Rng::sample` with the distribution `RandomBits::new(bits)` of
/// `num_bigint`: an integer of `bits` random bits, so one below `2^bits`.
/// Which one is left open. A `StdRng` is never seeded again after it is
/// made, and a draw from it has no failing path, so it does not panic.
#[verifier::external_body]
pub(crate) fn random_bits(rng: &mut StdRng, bits: usize) -> (r: BigUint)
    ensures
        value(r) < pow2(bits as nat),
    no_unwind
{
    rng.sample(RandomBits::new(bits as u64))
}

} // verus!
