//! Expansion of a short random seed into a full-length integer.
//!
//! The seed is the most significant chunk. Each further chunk is the next
//! iterate of a permutation, started at the seed; the chunks are joined,
//! most significant first, until the integer has the wanted length. The last
//! chunk is cut to the bits that are still missing.

use crate::bits::{
    bit_or, has_bit_length, lemma_and_low_mask, lemma_or_disjoint, lemma_or_lower_bound,
    lemma_or_upper_bound,
};
use crate::error::{GenError, LengthParameter};
use crate::natural::{and, duplicate, one, or, shl, sub_small, value};
use crate::permutation::{Permutation, PermutationModel};
use crate::rotation::lemma_rotate_left_bound;
use crate::uniform::UniformGen;
use num_bigint::BigUint;
use vstd::arithmetic::div_mod::{
    lemma_fundamental_div_mod, lemma_fundamental_div_mod_converse, lemma_mod_bound,
    lemma_mod_multiples_basic,
};
use vstd::arithmetic::power2::{
    lemma_pow2_adds, lemma_pow2_pos, lemma_pow2_strictly_increases, pow2,
};
use vstd::prelude::*;

verus! {

/// The seed followed by `n` chunks of `seed_bits` bits each: chunk `i` is the
/// `i`-th iterate of `rule` on the seed, taken whole. An iterate that is
/// wider than `seed_bits` reaches into the chunks before it, where its bits
/// are OR-ed in.
pub open spec fn seed_and_chunks(rule: PermutationModel, seed_bits: nat, seed: nat, n: nat) -> nat
    decreases n,
{
    if n == 0 {
        seed
    } else {
        bit_or(
            seed_and_chunks(rule, seed_bits, seed, (n - 1) as nat) * pow2(seed_bits),
            rule.iterate(n, seed),
        )
    }
}

/// The integer that `seed` expands to when `bits` bits are asked for: the
/// seed, then as many whole chunks as fit, then the low bits of the next
/// iterate for what is left. It has exactly `bits` bits where every whole
/// chunk fits ([`lemma_expansion_bit_length`]).
pub open spec fn expansion(rule: PermutationModel, bits: nat, seed_bits: nat, seed: nat) -> nat {
    let extra: nat = (bits - seed_bits) as nat;
    let whole: nat = extra / seed_bits;
    let tail: nat = extra % seed_bits;
    let body: nat = seed_and_chunks(rule, seed_bits, seed, whole);
    if tail == 0 {
        body
    } else {
        body * pow2(tail) + rule.iterate(whole + 1, seed) % pow2(tail)
    }
}

/// Each of the first `n` whole chunks fits below the bits assembled before
/// it: the `i`-th iterate has at most `(i + 1) * seed_bits` bits.
pub open spec fn chunks_fit(rule: PermutationModel, seed_bits: nat, seed: nat, n: nat) -> bool {
    forall|i: nat| 1 <= i <= n ==> #[trigger] rule.iterate(i, seed) < pow2((i + 1) * seed_bits)
}

/// The permutation keeps every iterate of a seed of `seed_bits` bits narrow
/// enough for its chunk: it is the increment, or a rotation of a field that
/// is not wider than the seed.
pub open spec fn keeps_width(rule: PermutationModel, seed_bits: nat) -> bool {
    match rule {
        PermutationModel::Increment => true,
        PermutationModel::LeftRotate { total_bits, rot_amount } => total_bits <= seed_bits,
    }
}

/// Where the `n`-th iterate is no wider than a chunk, it does not reach into
/// the bits assembled before it, and joining it is adding it below them.
pub proof fn lemma_chunk_is_appended(rule: PermutationModel, seed_bits: nat, seed: nat, n: nat)
    requires
        n >= 1,
        rule.iterate(n, seed) < pow2(seed_bits),
    ensures
        seed_and_chunks(rule, seed_bits, seed, n) == seed_and_chunks(
            rule,
            seed_bits,
            seed,
            (n - 1) as nat,
        ) * pow2(seed_bits) + rule.iterate(n, seed),
{
    let before: nat = seed_and_chunks(rule, seed_bits, seed, (n - 1) as nat);
    lemma_pow2_pos(seed_bits);
    lemma_mod_multiples_basic(before as int, pow2(seed_bits) as int);
    lemma_or_disjoint(before * pow2(seed_bits), rule.iterate(n, seed), seed_bits);
}

/// `(n + 1) * seed_bits`, with the facts about it that the proofs need.
proof fn lemma_width_step(n: nat, seed_bits: nat)
    requires
        n >= 1,
    ensures
        (n + 1) * seed_bits == n * seed_bits + seed_bits,
        n * seed_bits == ((n - 1) as nat + 1) * seed_bits,
        n * seed_bits >= seed_bits,
{
    assert((n + 1) * seed_bits == n * seed_bits + seed_bits) by (nonlinear_arith);
    assert(n * seed_bits >= seed_bits) by (nonlinear_arith)
        requires
            n >= 1,
    ;
}

/// Shifting an integer of exactly `w` bits up by `c` places gives one of
/// exactly `w + c` bits.
proof fn lemma_shifted_bit_length(a: nat, w: nat, c: nat)
    requires
        has_bit_length(a, w),
    ensures
        has_bit_length(a * pow2(c), w + c),
        (a * pow2(c)) % pow2(c) == 0,
{
    lemma_pow2_pos(c);
    lemma_pow2_adds((w - 1) as nat, c);
    lemma_pow2_adds(w, c);
    assert(pow2((w - 1) as nat) * pow2(c) <= a * pow2(c) < pow2(w) * pow2(c))
        by (nonlinear_arith)
        requires
            pow2((w - 1) as nat) <= a < pow2(w),
            pow2(c) > 0,
    ;
    assert((w - 1) as nat + c == (w + c - 1) as nat);
    lemma_mod_multiples_basic(a as int, pow2(c) as int);
}

/// Where every whole chunk fits, the seed and `n` chunks make an integer of
/// exactly `(n + 1) * seed_bits` bits.
proof fn lemma_chunks_bit_length(rule: PermutationModel, seed_bits: nat, seed: nat, n: nat)
    requires
        has_bit_length(seed, seed_bits),
        chunks_fit(rule, seed_bits, seed, n),
    ensures
        has_bit_length(seed_and_chunks(rule, seed_bits, seed, n), (n + 1) * seed_bits),
    decreases n,
{
    if n == 0 {
        assert((0 + 1) * seed_bits == seed_bits) by (nonlinear_arith);
    } else {
        let before: nat = seed_and_chunks(rule, seed_bits, seed, (n - 1) as nat);
        let chunk: nat = rule.iterate(n, seed);
        lemma_width_step(n, seed_bits);
        assert(chunks_fit(rule, seed_bits, seed, (n - 1) as nat));
        lemma_chunks_bit_length(rule, seed_bits, seed, (n - 1) as nat);
        lemma_shifted_bit_length(before, n * seed_bits, seed_bits);
        assert(chunk < pow2((n + 1) * seed_bits));
        lemma_or_upper_bound(before * pow2(seed_bits), chunk, (n + 1) * seed_bits);
        lemma_or_lower_bound(before * pow2(seed_bits), chunk);
    }
}

/// Once a whole chunk does not fit, the seed and chunks are too long, and
/// stay so.
proof fn lemma_chunks_overflow(
    rule: PermutationModel,
    seed_bits: nat,
    seed: nat,
    n: nat,
    i: nat,
)
    requires
        1 <= i <= n,
        rule.iterate(i, seed) >= pow2((i + 1) * seed_bits),
    ensures
        seed_and_chunks(rule, seed_bits, seed, n) >= pow2((n + 1) * seed_bits),
    decreases n,
{
    let before: nat = seed_and_chunks(rule, seed_bits, seed, (n - 1) as nat);
    let chunk: nat = rule.iterate(n, seed);
    lemma_or_lower_bound(before * pow2(seed_bits), chunk);
    if i < n {
        lemma_chunks_overflow(rule, seed_bits, seed, (n - 1) as nat, i);
        lemma_width_step(n, seed_bits);
        lemma_pow2_adds(n * seed_bits, seed_bits);
        lemma_pow2_pos(seed_bits);
        assert(before * pow2(seed_bits) >= pow2(n * seed_bits) * pow2(seed_bits))
            by (nonlinear_arith)
            requires
                before >= pow2(n * seed_bits),
        ;
    }
}

/// The expansion of a seed of exactly `seed_bits` bits has exactly `bits`
/// bits if and only if every whole chunk fits below the bits assembled
/// before it. Where one does not, the expansion is longer than `bits`.
pub proof fn lemma_expansion_bit_length(
    rule: PermutationModel,
    bits: nat,
    seed_bits: nat,
    seed: nat,
)
    requires
        1 <= seed_bits <= bits,
        has_bit_length(seed, seed_bits),
    ensures
        has_bit_length(expansion(rule, bits, seed_bits, seed), bits) <==> chunks_fit(
            rule,
            seed_bits,
            seed,
            ((bits - seed_bits) / (seed_bits as int)) as nat,
        ),
        !chunks_fit(rule, seed_bits, seed, ((bits - seed_bits) / (seed_bits as int)) as nat)
            ==> expansion(rule, bits, seed_bits, seed) >= pow2(bits),
{
    let extra: nat = (bits - seed_bits) as nat;
    let whole: nat = extra / seed_bits;
    let tail: nat = extra % seed_bits;
    let body: nat = seed_and_chunks(rule, seed_bits, seed, whole);
    let low: nat = rule.iterate(whole + 1, seed) % pow2(tail);
    lemma_fundamental_div_mod(extra as int, seed_bits as int);
    lemma_mod_bound(extra as int, seed_bits as int);
    assert((whole + 1) * seed_bits == seed_bits * whole + seed_bits) by (nonlinear_arith);
    assert((whole + 1) * seed_bits + tail == bits);
    lemma_pow2_pos(tail);
    lemma_mod_bound(rule.iterate(whole + 1, seed) as int, pow2(tail) as int);
    if chunks_fit(rule, seed_bits, seed, whole) {
        lemma_chunks_bit_length(rule, seed_bits, seed, whole);
        if tail != 0 {
            lemma_shifted_bit_length(body, (whole + 1) * seed_bits, tail);
            lemma_pow2_adds((whole + 1) * seed_bits, tail);
            assert(body * pow2(tail) + pow2(tail) <= pow2((whole + 1) * seed_bits) * pow2(tail))
                by (nonlinear_arith)
                requires
                    body < pow2((whole + 1) * seed_bits),
            ;
        }
    } else {
        let i: nat = choose|i: nat|
            1 <= i <= whole && !(#[trigger] rule.iterate(i, seed) < pow2((i + 1) * seed_bits));
        lemma_chunks_overflow(rule, seed_bits, seed, whole, i);
        if tail != 0 {
            lemma_pow2_adds((whole + 1) * seed_bits, tail);
            assert(body * pow2(tail) >= pow2((whole + 1) * seed_bits) * pow2(tail))
                by (nonlinear_arith)
                requires
                    body >= pow2((whole + 1) * seed_bits),
            ;
        }
    }
}

/// The increment, applied `k` times, adds `k`.
pub proof fn lemma_increment_iterate(k: nat, x: nat)
    ensures
        PermutationModel::Increment.iterate(k, x) == x + k,
    decreases k,
{
    if k > 0 {
        lemma_increment_iterate((k - 1) as nat, x);
    }
}

/// Counting up from a seed of `seed_bits` bits, the `i`-th value has at most
/// `(i + 1) * seed_bits` bits.
proof fn lemma_increment_fits(seed_bits: nat, seed: nat, i: nat)
    requires
        seed_bits >= 1,
        seed < pow2(seed_bits),
        i >= 1,
    ensures
        PermutationModel::Increment.iterate(i, seed) < pow2((i + 1) * seed_bits),
    decreases i,
{
    lemma_increment_iterate(i, seed);
    lemma_width_step(i, seed_bits);
    lemma_pow2_strictly_increases(i * seed_bits, (i + 1) * seed_bits);
    if i == 1 {
        assert(1 * seed_bits == seed_bits) by (nonlinear_arith);
    } else {
        lemma_increment_iterate((i - 1) as nat, seed);
        lemma_increment_fits(seed_bits, seed, (i - 1) as nat);
    }
}

/// A rotation of a field that is not wider than `width` keeps every iterate
/// of a value below `2^width` below `2^width`.
proof fn lemma_rotation_stays_below(
    total_bits: nat,
    rot_amount: nat,
    width: nat,
    x: nat,
    i: nat,
)
    requires
        total_bits <= width,
        x < pow2(width),
    ensures
        (PermutationModel::LeftRotate { total_bits, rot_amount }).iterate(i, x) < pow2(width),
    decreases i,
{
    if i > 0 {
        let rule = PermutationModel::LeftRotate { total_bits, rot_amount };
        lemma_rotation_stays_below(total_bits, rot_amount, width, x, (i - 1) as nat);
        lemma_rotate_left_bound(rule.iterate((i - 1) as nat, x), total_bits, rot_amount, width);
    }
}

/// Under a permutation that keeps the width, every whole chunk fits.
pub proof fn lemma_keeps_width_fits(rule: PermutationModel, seed_bits: nat, seed: nat, n: nat)
    requires
        seed_bits >= 1,
        seed < pow2(seed_bits),
        keeps_width(rule, seed_bits),
    ensures
        chunks_fit(rule, seed_bits, seed, n),
{
    assert forall|i: nat| 1 <= i <= n implies #[trigger] rule.iterate(i, seed) < pow2(
        (i + 1) * seed_bits,
    ) by {
        match rule {
            PermutationModel::Increment => {
                lemma_increment_fits(seed_bits, seed, i);
            },
            PermutationModel::LeftRotate { total_bits, rot_amount } => {
                lemma_rotation_stays_below(total_bits, rot_amount, seed_bits, seed, i);
                lemma_width_step(i, seed_bits);
                lemma_pow2_strictly_increases(seed_bits, (i + 1) * seed_bits);
            },
        }
    }
}

/// Under the increment, and under a rotation of a field that is not wider
/// than the seed, the expansion of a seed of exactly `seed_bits` bits has
/// exactly `bits` bits.
pub proof fn lemma_expansion_exact_length(
    rule: PermutationModel,
    bits: nat,
    seed_bits: nat,
    seed: nat,
)
    requires
        1 <= seed_bits <= bits,
        has_bit_length(seed, seed_bits),
        keeps_width(rule, seed_bits),
    ensures
        has_bit_length(expansion(rule, bits, seed_bits, seed), bits),
{
    lemma_keeps_width_fits(
        rule,
        seed_bits,
        seed,
        ((bits - seed_bits) / (seed_bits as int)) as nat,
    );
    lemma_expansion_bit_length(rule, bits, seed_bits, seed);
}

/// What a permutation generator is made with.
pub struct ExpanderModel {
    /// The bit length of the generated integers.
    pub bits: nat,
    /// The bit length of the random seed.
    pub seed_bits: nat,
    /// The permutation that derives the chunks after the seed.
    pub rule: PermutationModel,
}

/// The expansion itself, on lengths that are valid: [`expand`] without the
/// test of the lengths. [`PermutationGen::next`] runs it on the seed that it
/// draws.
///
/// `acc` and `last` start as the seed. While bits are missing, `last`
/// becomes its image under the permutation, and `acc` is shifted up by the
/// width of the chunk and the chunk is OR-ed in: `last` whole for a chunk of
/// `seed_bits` bits, its low bits for a shorter last chunk.
pub fn stretch(seed: BigUint, bits: usize, seed_bits: usize, permutation: &Permutation) -> (r:
    BigUint)
    requires
        1 <= seed_bits <= bits,
    ensures
        value(r) == expansion(permutation@, bits as nat, seed_bits as nat, value(seed)),
{
    let ghost rule = permutation@;
    let ghost start: nat = value(seed);
    let ghost width: nat = seed_bits as nat;
    let ghost extra: nat = (bits - seed_bits) as nat;
    let ghost mut done: nat = 0;
    let mut last = duplicate(&seed);
    let mut acc = seed;
    let mut remaining: usize = bits - seed_bits;
    proof {
        assert(0 * width == 0) by (nonlinear_arith);
        if remaining == 0 {
            lemma_fundamental_div_mod_converse(extra as int, width as int, 0, 0);
        }
    }
    while remaining > 0
        invariant
            width == seed_bits >= 1,
            extra == bits - seed_bits,
            rule == permutation@,
            remaining > 0 ==> done * width + remaining == extra && value(acc) == seed_and_chunks(
                rule,
                width,
                start,
                done,
            ) && value(last) == rule.iterate(done, start),
            remaining == 0 ==> value(acc) == expansion(rule, bits as nat, width, start),
        decreases remaining,
    {
        let chunk_bits: usize = if seed_bits < remaining {
            seed_bits
        } else {
            remaining
        };
        let ghost before: nat = value(acc);
        remaining = remaining - chunk_bits;
        last = permutation.permute(&last);
        let chunk = if chunk_bits < seed_bits {
            proof {
                lemma_pow2_pos(chunk_bits as nat);
                lemma_and_low_mask(value(last), chunk_bits as nat);
            }
            and(&last, &sub_small(&shl(&one(), chunk_bits), 1))
        } else {
            duplicate(&last)
        };
        acc = or(&shl(&acc, chunk_bits), &chunk);
        proof {
            assert((done + 1) * width == done * width + width) by (nonlinear_arith);
            if chunk_bits < seed_bits {
                // the last chunk, cut to the bits that were missing
                lemma_fundamental_div_mod_converse(
                    extra as int,
                    width as int,
                    done as int,
                    chunk_bits as int,
                );
                lemma_mod_bound(value(last) as int, pow2(chunk_bits as nat) as int);
                lemma_mod_multiples_basic(before as int, pow2(chunk_bits as nat) as int);
                lemma_or_disjoint(
                    before * pow2(chunk_bits as nat),
                    value(chunk),
                    chunk_bits as nat,
                );
            } else {
                done = done + 1;
                if remaining == 0 {
                    lemma_fundamental_div_mod_converse(
                        extra as int,
                        width as int,
                        done as int,
                        0,
                    );
                }
            }
        }
    }
    acc
}

/// Expands `seed` to an integer of `bits` bits.
///
/// Starting from the seed, the permutation is applied to the whole previous
/// value for each further chunk; a chunk has `seed_bits` bits, but for the
/// last one, which has the low bits of its value that are still missing.
/// The accumulated integer is shifted up by the width of each chunk and the
/// chunk is OR-ed in.
///
/// Fails exactly when a length is invalid: `bits` is zero, or `seed_bits` is
/// zero or larger than `bits`.
pub fn expand(seed: BigUint, bits: usize, seed_bits: usize, permutation: &Permutation) -> (r:
    Result<BigUint, GenError>)
    ensures
        bits == 0 ==> r == Err::<BigUint, GenError>(
            GenError::InvalidBitLength(LengthParameter::Bits),
        ),
        bits >= 1 && (seed_bits == 0 || seed_bits > bits) ==> r == Err::<BigUint, GenError>(
            GenError::InvalidBitLength(LengthParameter::SeedBits),
        ),
        1 <= seed_bits <= bits ==> r is Ok && value(r->Ok_0) == expansion(
            permutation@,
            bits as nat,
            seed_bits as nat,
            value(seed),
        ),
{
    if bits == 0 {
        Err(GenError::InvalidBitLength(LengthParameter::Bits))
    } else if seed_bits == 0 || seed_bits > bits {
        Err(GenError::InvalidBitLength(LengthParameter::SeedBits))
    } else {
        Ok(stretch(seed, bits, seed_bits, permutation))
    }
}

/// A generator that expands a fresh uniform seed of `seed_bits` bits to an
/// integer of `bits` bits with a permutation.
#[derive(Debug)]
pub struct PermutationGen {
    bits: usize,
    seed: UniformGen,
    permutation: Permutation,
}

impl View for PermutationGen {
    type V = ExpanderModel;

    closed spec fn view(&self) -> ExpanderModel {
        ExpanderModel {
            bits: self.bits as nat,
            seed_bits: self.seed.bit_length(),
            rule: self.permutation@,
        }
    }
}

impl PermutationGen {
    #[verifier::type_invariant]
    spec fn well_formed(self) -> bool {
        1 <= self.seed.bit_length() <= self.bits
    }

    /// Builds the generator, with its own source of seeds.
    ///
    /// Fails exactly when a length is invalid: `bits` is zero, or `seed_bits`
    /// is zero or larger than `bits`.
    pub fn new(bits: usize, seed_bits: usize, permutation: Permutation) -> (r: Result<
        PermutationGen,
        GenError,
    >)
        ensures
            bits == 0 ==> r == Err::<PermutationGen, GenError>(
                GenError::InvalidBitLength(LengthParameter::Bits),
            ),
            bits >= 1 && (seed_bits == 0 || seed_bits > bits) ==> r == Err::<
                PermutationGen,
                GenError,
            >(GenError::InvalidBitLength(LengthParameter::SeedBits)),
            1 <= seed_bits <= bits ==> r is Ok && r->Ok_0@ == (ExpanderModel {
                bits: bits as nat,
                seed_bits: seed_bits as nat,
                rule: permutation@,
            }),
    {
        if bits == 0 {
            return Err(GenError::InvalidBitLength(LengthParameter::Bits));
        }
        if seed_bits > bits {
            return Err(GenError::InvalidBitLength(LengthParameter::SeedBits));
        }
        match UniformGen::new(seed_bits) {
            Ok(seed) => Ok(PermutationGen { bits, seed, permutation }),
            Err(_) => Err(GenError::InvalidBitLength(LengthParameter::SeedBits)),
        }
    }

    /// The bit length of the integers that this generator produces.
    pub fn bits(&self) -> (r: usize)
        ensures
            r == self@.bits,
            1 <= self@.seed_bits <= self@.bits,
    {
        proof {
            use_type_invariant(self);
        }
        self.bits
    }

    /// The bit length of the seeds that this generator draws.
    pub fn seed_bits(&self) -> (r: usize)
        ensures
            r == self@.seed_bits,
            1 <= self@.seed_bits <= self@.bits,
    {
        proof {
            use_type_invariant(self);
        }
        self.seed.bits()
    }

    /// Draws a seed of exactly `seed_bits` bits and returns its expansion.
    /// Only the random state advances.
    ///
    /// Where the permutation keeps the width, the result has exactly `bits`
    /// bits.
    pub fn next(&mut self) -> (r: BigUint)
        ensures
            final(self)@ == old(self)@,
            exists|seed: nat|
                has_bit_length(seed, old(self)@.seed_bits) && value(r) == #[trigger] expansion(
                    old(self)@.rule,
                    old(self)@.bits,
                    old(self)@.seed_bits,
                    seed,
                ),
            keeps_width(old(self)@.rule, old(self)@.seed_bits) ==> has_bit_length(
                value(r),
                old(self)@.bits,
            ),
    {
        proof {
            use_type_invariant(&*self);
        }
        let seed_bits: usize = self.seed.bits();
        let seed = self.seed.next();
        let ghost drawn: nat = value(seed);
        let r = stretch(seed, self.bits, seed_bits, &self.permutation);
        proof {
            assert(value(r) == expansion(
                old(self)@.rule,
                old(self)@.bits,
                old(self)@.seed_bits,
                drawn,
            ));
            if keeps_width(self.permutation@, seed_bits as nat) {
                lemma_expansion_exact_length(
                    self.permutation@,
                    self.bits as nat,
                    seed_bits as nat,
                    drawn,
                );
            }
        }
        r
    }
}

} // verus!
