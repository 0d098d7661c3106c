//! Permutations of fixed-width integers: increment and left rotation.

use crate::bits::lemma_and_low_mask;
use crate::error::GenError;
use crate::natural::{add_small, and, one, or, shl, shr, sub_small, value};
use crate::rotation::rotate_left;
use num_bigint::BigUint;
use vstd::arithmetic::power2::{lemma_pow2_pos, pow2};
use vstd::prelude::*;

verus! {

/// What a permutation is, apart from how it is stored.
pub enum PermutationModel {
    /// Adds one.
    Increment,
    /// Rotates a field of `total_bits` bits to the left by `rot_amount`.
    LeftRotate { total_bits: nat, rot_amount: nat },
}

impl PermutationModel {
    /// The image of `x`.
    pub open spec fn apply(self, x: nat) -> nat {
        match self {
            PermutationModel::Increment => x + 1,
            PermutationModel::LeftRotate { total_bits, rot_amount } => rotate_left(
                x,
                total_bits,
                rot_amount,
            ),
        }
    }

    /// The image of `x` under `k` applications.
    pub open spec fn iterate(self, k: nat, x: nat) -> nat
        decreases k,
    {
        if k == 0 {
            x
        } else {
            self.apply(self.iterate((k - 1) as nat, x))
        }
    }
}

/// The permutation `x -> x + 1`. It does not wrap: the image of the largest
/// value of a width is one bit longer.
#[derive(Clone, Copy, Debug)]
pub struct Increment;

impl View for Increment {
    type V = PermutationModel;

    open spec fn view(&self) -> PermutationModel {
        PermutationModel::Increment
    }
}

impl Increment {
    /// Returns `x + 1`.
    pub fn permute(&self, x: &BigUint) -> (r: BigUint)
        ensures
            value(r) == value(*x) + 1,
            value(r) == self@.apply(value(*x)),
    {
        add_small(x, 1)
    }
}

/// Left rotation of a field of `total_bits` bits by `rot_amount` places,
/// with `0 < rot_amount < total_bits`.
#[derive(Debug)]
pub struct LeftRotate {
    total_bits: usize,
    rot_amount: usize,
    mask: BigUint,
}

impl View for LeftRotate {
    type V = PermutationModel;

    closed spec fn view(&self) -> PermutationModel {
        PermutationModel::LeftRotate {
            total_bits: self.total_bits as nat,
            rot_amount: self.rot_amount as nat,
        }
    }
}

impl LeftRotate {
    #[verifier::type_invariant]
    spec fn well_formed(self) -> bool {
        &&& 0 < self.rot_amount < self.total_bits
        &&& value(self.mask) == pow2(self.total_bits as nat) - 1
    }

    /// The number that the mask holds.
    pub closed spec fn mask_value(&self) -> nat {
        value(self.mask)
    }

    /// Builds the rotation, with its mask `2^total_bits - 1` of `total_bits`
    /// set bits.
    ///
    /// Fails exactly when `rot_amount` is zero or not below `total_bits`.
    pub fn new(total_bits: usize, rot_amount: usize) -> (r: Result<LeftRotate, GenError>)
        ensures
            0 < rot_amount < total_bits ==> r is Ok && r->Ok_0@ == (PermutationModel::LeftRotate {
                total_bits: total_bits as nat,
                rot_amount: rot_amount as nat,
            }) && r->Ok_0.mask_value() == pow2(total_bits as nat) - 1,
            !(0 < rot_amount < total_bits) ==> r == Err::<LeftRotate, GenError>(
                GenError::InvalidPermutationParameters,
            ),
    {
        if rot_amount == 0 || rot_amount >= total_bits {
            return Err(GenError::InvalidPermutationParameters);
        }
        let top = shl(&one(), total_bits);
        proof {
            lemma_pow2_pos(total_bits as nat);
        }
        let mask = sub_small(&top, 1);
        Ok(LeftRotate { total_bits, rot_amount, mask })
    }

    /// The width of the rotated field.
    pub fn total_bits(&self) -> (r: usize)
        ensures
            self@ matches PermutationModel::LeftRotate { total_bits, rot_amount } && r
                == total_bits && 0 < rot_amount < total_bits,
    {
        proof {
            use_type_invariant(self);
        }
        self.total_bits
    }

    /// By how many places the field is rotated.
    pub fn rot_amount(&self) -> (r: usize)
        ensures
            self@ matches PermutationModel::LeftRotate { total_bits, rot_amount } && r
                == rot_amount && 0 < rot_amount < total_bits,
    {
        proof {
            use_type_invariant(self);
        }
        self.rot_amount
    }

    /// The mask of the field: `2^total_bits - 1`.
    pub fn mask(&self) -> (r: &BigUint)
        ensures
            value(*r) == self.mask_value(),
            self@ matches PermutationModel::LeftRotate { total_bits, rot_amount } && value(*r)
                == pow2(total_bits) - 1,
    {
        proof {
            use_type_invariant(self);
        }
        &self.mask
    }

    /// Returns `((x << rot_amount) & mask) | (x >> (total_bits - rot_amount))`,
    /// where `mask` has the low `total_bits` bits set.
    pub fn permute(&self, x: &BigUint) -> (r: BigUint)
        ensures
            value(r) == self@.apply(value(*x)),
    {
        proof {
            use_type_invariant(self);
            lemma_and_low_mask(
                value(*x) * pow2(self.rot_amount as nat),
                self.total_bits as nat,
            );
        }
        let high = and(&shl(x, self.rot_amount), &self.mask);
        let low = shr(x, self.total_bits - self.rot_amount);
        or(&high, &low)
    }
}

/// One of the known permutations.
#[derive(Debug)]
pub enum Permutation {
    Increment(Increment),
    LeftRotate(LeftRotate),
}

impl View for Permutation {
    type V = PermutationModel;

    open spec fn view(&self) -> PermutationModel {
        match self {
            Permutation::Increment(p) => p@,
            Permutation::LeftRotate(p) => p@,
        }
    }
}

impl Permutation {
    /// Returns the image of `x`. Neither the permutation nor `x` changes.
    pub fn permute(&self, x: &BigUint) -> (r: BigUint)
        ensures
            value(r) == self@.apply(value(*x)),
    {
        match self {
            Permutation::Increment(p) => p.permute(x),
            Permutation::LeftRotate(p) => p.permute(x),
        }
    }
}

} // verus!
