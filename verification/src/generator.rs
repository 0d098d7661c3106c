//! The generator: one of the two strategies, chosen when it is built.

use crate::bits::has_bit_length;
use crate::error::{GenError, LengthParameter};
use crate::expander::{expansion, keeps_width, lemma_expansion_exact_length, ExpanderModel,
    PermutationGen};
use crate::natural::value;
use crate::permutation::{Increment, LeftRotate, Permutation, PermutationModel};
use crate::uniform::UniformGen;
use num_bigint::BigUint;
use vstd::prelude::*;
use vstd::string::StrSliceExecFns;

verus! {

/// The permutations that a generator can be asked for by name.
#[derive(Clone, Copy, Debug, PartialEq, Eq, Structural)]
pub enum PermutationKind {
    /// The increment, named `increment`.
    Increment,
    /// The left rotation of the seed by one place, named `rotate`.
    Rotate,
}

/// How a generator makes its integers.
#[derive(Clone, Copy, Debug, PartialEq, Eq, Structural)]
pub enum Mode {
    /// Every integer of the wanted length is equally likely.
    Uniform,
    /// A uniform seed of `seed_bits` bits, expanded by a permutation.
    Permutation { seed_bits: usize, kind: PermutationKind },
}

/// What a generator is, apart from its random state.
pub enum GenModel {
    /// Uniform integers of `bits` bits.
    Uniform { bits: nat },
    /// Expanded seeds.
    Permutation(ExpanderModel),
}

impl GenModel {
    /// The bit length that the generator aims at.
    pub open spec fn bits(self) -> nat {
        match self {
            GenModel::Uniform { bits } => bits,
            GenModel::Permutation(m) => m.bits,
        }
    }

    /// `v` is among the integers that the generator can produce.
    pub open spec fn produces(self, v: nat) -> bool {
        match self {
            GenModel::Uniform { bits } => has_bit_length(v, bits),
            GenModel::Permutation(m) => exists|seed: nat|
                has_bit_length(seed, m.seed_bits) && v == #[trigger] expansion(
                    m.rule,
                    m.bits,
                    m.seed_bits,
                    seed,
                ),
        }
    }

    /// The generator was built with valid lengths and, if it expands seeds,
    /// with a permutation that keeps their width. Every generator that
    /// [`Gen::new`] builds is such.
    pub open spec fn keeps_width(self) -> bool {
        match self {
            GenModel::Uniform { bits } => bits >= 1,
            GenModel::Permutation(m) => 1 <= m.seed_bits <= m.bits && keeps_width(
                m.rule,
                m.seed_bits,
            ),
        }
    }
}

/// The permutation that a kind stands for, for seeds of `seed_bits` bits.
pub open spec fn rule_of(kind: PermutationKind, seed_bits: nat) -> PermutationModel {
    match kind {
        PermutationKind::Increment => PermutationModel::Increment,
        PermutationKind::Rotate => PermutationModel::LeftRotate {
            total_bits: seed_bits,
            rot_amount: 1,
        },
    }
}

/// Every integer that a width-keeping generator can produce has exactly the
/// bit length that the generator aims at.
pub proof fn lemma_produced_bit_length(model: GenModel, v: nat)
    requires
        model.keeps_width(),
        model.produces(v),
    ensures
        has_bit_length(v, model.bits()),
{
    match model {
        GenModel::Uniform { bits } => {},
        GenModel::Permutation(m) => {
            let seed: nat = choose|seed: nat|
                has_bit_length(seed, m.seed_bits) && v == #[trigger] expansion(
                    m.rule,
                    m.bits,
                    m.seed_bits,
                    seed,
                );
            lemma_expansion_exact_length(m.rule, m.bits, m.seed_bits, seed);
        },
    }
}

/// Whether two strings hold the same characters.
fn same_text(a: &str, b: &str) -> (r: bool)
    ensures
        r == (a@ == b@),
{
    let n: usize = a.unicode_len();
    if n != b.unicode_len() {
        return false;
    }
    let mut i: usize = 0;
    while i < n
        invariant
            i <= n,
            n == a@.len(),
            n == b@.len(),
            forall|j: int| 0 <= j < i ==> a@[j] == b@[j],
        decreases n - i,
    {
        if a.get_char(i) != b.get_char(i) {
            return false;
        }
        i = i + 1;
    }
    proof {
        assert(a@ =~= b@);
    }
    true
}

impl PermutationKind {
    /// Reads the name of a permutation: `increment` or `rotate`.
    ///
    /// Fails on every other string.
    pub fn from_name(name: &str) -> (r: Result<PermutationKind, GenError>)
        ensures
            name@ == "increment"@ ==> r == Ok::<PermutationKind, GenError>(
                PermutationKind::Increment,
            ),
            name@ == "rotate"@ ==> r == Ok::<PermutationKind, GenError>(PermutationKind::Rotate),
            name@ != "increment"@ && name@ != "rotate"@ ==> r == Err::<
                PermutationKind,
                GenError,
            >(GenError::UnknownVariant),
    {
        proof {
            reveal_strlit("increment");
            reveal_strlit("rotate");
            assert("increment"@.len() != "rotate"@.len());
        }
        if same_text(name, "increment") {
            Ok(PermutationKind::Increment)
        } else if same_text(name, "rotate") {
            Ok(PermutationKind::Rotate)
        } else {
            Err(GenError::UnknownVariant)
        }
    }
}

/// A generator of integers: uniform, or by expansion of a seed.
#[derive(Debug)]
pub enum Gen {
    Uniform(UniformGen),
    Permutation(PermutationGen),
}

impl View for Gen {
    type V = GenModel;

    open spec fn view(&self) -> GenModel {
        match self {
            Gen::Uniform(g) => GenModel::Uniform { bits: g.bit_length() },
            Gen::Permutation(g) => GenModel::Permutation(g@),
        }
    }
}

impl Gen {
    /// Builds the one generator that `bits` and `mode` ask for.
    ///
    /// The lengths are checked first: `bits` must not be zero, and in
    /// permutation mode `seed_bits` must be neither zero nor larger than
    /// `bits`. Then the permutation is built; the rotation is by one place in
    /// a field of `seed_bits` bits, so it needs `seed_bits` of two or more.
    pub fn new(bits: usize, mode: Mode) -> (r: Result<Gen, GenError>)
        ensures
            bits == 0 ==> r == Err::<Gen, GenError>(
                GenError::InvalidBitLength(LengthParameter::Bits),
            ),
            bits >= 1 && mode is Uniform ==> r is Ok && r->Ok_0@ == (GenModel::Uniform {
                bits: bits as nat,
            }),
            bits >= 1 ==> (mode matches Mode::Permutation { seed_bits, kind } ==> {
                if seed_bits == 0 || seed_bits > bits {
                    r == Err::<Gen, GenError>(
                        GenError::InvalidBitLength(LengthParameter::SeedBits),
                    )
                } else if kind is Rotate && seed_bits == 1 {
                    r == Err::<Gen, GenError>(GenError::InvalidPermutationParameters)
                } else {
                    r is Ok && r->Ok_0@ == GenModel::Permutation(
                        ExpanderModel {
                            bits: bits as nat,
                            seed_bits: seed_bits as nat,
                            rule: rule_of(kind, seed_bits as nat),
                        },
                    )
                }
            }),
            r is Ok ==> r->Ok_0@.keeps_width(),
    {
        if bits == 0 {
            return Err(GenError::InvalidBitLength(LengthParameter::Bits));
        }
        match mode {
            Mode::Uniform => {
                match UniformGen::new(bits) {
                    Ok(g) => Ok(Gen::Uniform(g)),
                    Err(e) => Err(e),
                }
            },
            Mode::Permutation { seed_bits, kind } => {
                if seed_bits == 0 || seed_bits > bits {
                    return Err(GenError::InvalidBitLength(LengthParameter::SeedBits));
                }
                let permutation = match kind {
                    PermutationKind::Increment => Permutation::Increment(Increment),
                    PermutationKind::Rotate => {
                        match LeftRotate::new(seed_bits, 1) {
                            Ok(p) => Permutation::LeftRotate(p),
                            Err(e) => {
                                return Err(e);
                            },
                        }
                    },
                };
                match PermutationGen::new(bits, seed_bits, permutation) {
                    Ok(g) => Ok(Gen::Permutation(g)),
                    Err(e) => Err(e),
                }
            },
        }
    }

    /// Produces the next integer. Only the random state advances.
    ///
    /// A generator built by [`Gen::new`] returns an integer of exactly `bits`
    /// bits.
    pub fn next(&mut self) -> (r: BigUint)
        ensures
            final(self)@ == old(self)@,
            old(self)@.produces(value(r)),
            old(self)@.keeps_width() ==> has_bit_length(value(r), old(self)@.bits()),
    {
        match self {
            Gen::Uniform(g) => g.next(),
            Gen::Permutation(g) => g.next(),
        }
    }
}

} // verus!
