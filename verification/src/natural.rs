//! The arbitrary-precision integers of `num_bigint`, as natural numbers.
//!
//! Everything in this module is trusted: the contracts say what the
//! operations of `num_bigint::BigUint` compute, and nothing here is proved.
//! None of the operations panics on the arguments that its contract admits.
//! Running out of memory is not modelled.

use crate::bits::{bit_and, bit_or};
use num_bigint::BigUint;
use num_traits::One;
use vstd::arithmetic::power2::pow2;
use vstd::prelude::*;

verus! {

#[verifier::external_type_specification]
#[verifier::external_body]
pub struct ExBigUint(num_bigint::BigUint);

/// The natural number that a `BigUint` holds.
pub uninterp spec fn value(x: BigUint) -> nat;

/// `BigUint::one()` of `num_traits::One`: the number one.
#[verifier::external_body]
pub(crate) fn one() -> (r: BigUint)
    ensures
        value(r) == 1,
    no_unwind
{
    BigUint::one()
}

/// `&BigUint << usize`: the bits of `x` moved up by `n` places, which
/// multiplies by `2^n`. No bit is lost.
#[verifier::external_body]
pub(crate) fn shl(x: &BigUint, n: usize) -> (r: BigUint)
    ensures
        value(r) == value(*x) * pow2(n as nat),
    no_unwind
{
    x << n
}

/// `&BigUint >> usize`: the bits of `x` moved down by `n` places, dropping
/// the lowest `n`, which is the quotient by `2^n`.
#[verifier::external_body]
pub(crate) fn shr(x: &BigUint, n: usize) -> (r: BigUint)
    ensures
        value(r) == value(*x) / pow2(n as nat),
    no_unwind
{
    x >> n
}

/// `&BigUint & &BigUint`: the bitwise AND.
#[verifier::external_body]
pub(crate) fn and(x: &BigUint, y: &BigUint) -> (r: BigUint)
    ensures
        value(r) == bit_and(value(*x), value(*y)),
    no_unwind
{
    x & y
}

/// `&BigUint | &BigUint`: the bitwise OR.
#[verifier::external_body]
pub(crate) fn or(x: &BigUint, y: &BigUint) -> (r: BigUint)
    ensures
        value(r) == bit_or(value(*x), value(*y)),
    no_unwind
{
    x | y
}

/// `&BigUint + usize`: the sum, which cannot overflow.
#[verifier::external_body]
pub(crate) fn add_small(x: &BigUint, k: usize) -> (r: BigUint)
    ensures
        value(r) == value(*x) + k,
    no_unwind
{
    x + k
}

/// `&BigUint - usize`: the difference. The subtraction panics when `k` is
/// larger than `x`, so that case is left out.
#[verifier::external_body]
pub(crate) fn sub_small(x: &BigUint, k: usize) -> (r: BigUint)
    requires
        value(*x) >= k,
    ensures
        value(r) == value(*x) - k,
    no_unwind
{
    x - k
}

/// `BigUint::clone`: a copy that holds the same number.
#[verifier::external_body]
pub(crate) fn duplicate(x: &BigUint) -> (r: BigUint)
    ensures
        value(r) == value(*x),
    no_unwind
{
    x.clone()
}

} // verus!
