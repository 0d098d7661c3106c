//! Why a generator or a permutation could not be built.

use vstd::prelude::*;

verus! {

/// Which of the two bit lengths of a generator is at fault.
#[derive(Clone, Copy, Debug, PartialEq, Eq, Structural)]
pub enum LengthParameter {
    /// The bit length of the generated integers.
    Bits,
    /// The bit length of the seed of a permutation generator.
    SeedBits,
}

/// An error of construction. Once a generator is built, drawing from it
/// cannot fail.
#[derive(Clone, Copy, Debug, PartialEq, Eq, Structural)]
pub enum GenError {
    /// A bit length is zero, or the seed is longer than the whole integer.
    InvalidBitLength(LengthParameter),
    /// The rotation amount of a left rotation is zero or not below the width
    /// of the rotated field.
    InvalidPermutationParameters,
    /// The name of a permutation is not one of the known ones.
    UnknownVariant,
}

} // verus!
