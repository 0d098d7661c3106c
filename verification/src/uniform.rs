//! Uniformly random integers of an exact bit length.

use crate::bits::{bit_or, has_bit_length, lemma_or_commutes, lemma_or_disjoint};
use crate::error::{GenError, LengthParameter};
use crate::natural::{one, or, shl, value};
use crate::random::{fresh_rng, random_bits};
use num_bigint::BigUint;
use rand::rngs::StdRng;
use vstd::arithmetic::div_mod::lemma_mod_multiples_basic;
use vstd::arithmetic::power2::{lemma_pow2_pos, lemma_pow2_unfold, pow2};
use vstd::prelude::*;

verus! {

/// Sets bit `bits - 1` of `sample`.
///
/// For a `sample` of fewer than `bits` bits the result is `sample +
/// 2^(bits - 1)`, an integer of exactly `bits` bits.
pub fn with_top_bit(sample: &BigUint, bits: usize) -> (r: BigUint)
    requires
        bits >= 1,
    ensures
        value(r) == bit_or(value(*sample), pow2((bits - 1) as nat)),
        value(*sample) < pow2((bits - 1) as nat) ==> value(r) == value(*sample) + pow2(
            (bits - 1) as nat,
        ) && has_bit_length(value(r), bits as nat),
    no_unwind
{
    let top = shl(&one(), bits - 1);
    proof {
        let n: nat = (bits - 1) as nat;
        lemma_pow2_pos(n);
        lemma_pow2_unfold(bits as nat);
        if value(*sample) < pow2(n) {
            lemma_mod_multiples_basic(1, pow2(n) as int);
            lemma_or_disjoint(pow2(n), value(*sample), n);
            lemma_or_commutes(value(*sample), pow2(n));
        }
    }
    or(sample, &top)
}

/// A source of uniformly random integers of exactly `bits` bits. Each source
/// owns its generator of random bits: no two share a state.
#[derive(Debug)]
pub struct UniformGen {
    bits: usize,
    rng: StdRng,
}

impl UniformGen {
    #[verifier::type_invariant]
    spec fn well_formed(self) -> bool {
        self.bits >= 1
    }

    /// The bit length of the integers that this source produces.
    pub closed spec fn bit_length(&self) -> nat {
        self.bits as nat
    }

    /// Builds a source of integers of `bits` bits, with a generator of its
    /// own that is seeded from the operating system.
    ///
    /// Fails exactly when `bits` is zero. Where the operating system gives
    /// no seed, the seeding panics.
    pub fn new(bits: usize) -> (r: Result<UniformGen, GenError>)
        ensures
            bits >= 1 ==> r is Ok && r->Ok_0.bit_length() == bits,
            bits == 0 ==> r == Err::<UniformGen, GenError>(
                GenError::InvalidBitLength(LengthParameter::Bits),
            ),
    {
        if bits == 0 {
            return Err(GenError::InvalidBitLength(LengthParameter::Bits));
        }
        Ok(UniformGen { bits, rng: fresh_rng() })
    }

    /// The bit length of the integers that this source produces.
    pub fn bits(&self) -> (r: usize)
        ensures
            r == self.bit_length(),
            r >= 1,
    {
        proof {
            use_type_invariant(self);
        }
        self.bits
    }

    /// Draws `bits - 1` random bits and sets bit `bits - 1` above them: an
    /// integer in `[2^(bits - 1), 2^bits - 1]`. Only the random state of this
    /// source advances. A draw does not panic.
    pub fn next(&mut self) -> (r: BigUint)
        ensures
            final(self).bit_length() == old(self).bit_length(),
            has_bit_length(value(r), old(self).bit_length()),
        no_unwind
    {
        proof {
            use_type_invariant(&*self);
        }
        let low = random_bits(&mut self.rng, self.bits - 1);
        with_top_bit(&low, self.bits)
    }
}

} // verus!
