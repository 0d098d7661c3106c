//! Bit-level arithmetic on natural numbers.

use vstd::arithmetic::div_mod::lemma_mod_breakdown;
use vstd::arithmetic::power2::{lemma2_to64, lemma_pow2_pos, lemma_pow2_unfold, pow2};
use vstd::prelude::*;

verus! {

/// Bitwise AND of two natural numbers.
pub open spec fn bit_and(a: nat, b: nat) -> nat
    decreases a,
{
    if a == 0 || b == 0 {
        0
    } else {
        (2 * bit_and(a / 2, b / 2) + (if a % 2 == 1 && b % 2 == 1 { 1nat } else { 0nat })) as nat
    }
}

/// Bitwise OR of two natural numbers.
pub open spec fn bit_or(a: nat, b: nat) -> nat
    decreases a,
{
    if a == 0 {
        b
    } else if b == 0 {
        a
    } else {
        (2 * bit_or(a / 2, b / 2) + (if a % 2 == 1 || b % 2 == 1 { 1nat } else { 0nat })) as nat
    }
}

/// `x` has bit length exactly `n`: its highest set bit is bit `n - 1`.
pub open spec fn has_bit_length(x: nat, n: nat) -> bool {
    n >= 1 && pow2((n - 1) as nat) <= x < pow2(n)
}

/// Masking with the `k` low bits set keeps the remainder modulo `2^k`.
pub proof fn lemma_and_low_mask(a: nat, k: nat)
    ensures
        pow2(k) >= 1,
        bit_and(a, (pow2(k) - 1) as nat) == a % pow2(k),
    decreases k,
{
    lemma_pow2_pos(k);
    if k == 0 {
        lemma2_to64();
    } else if a == 0 {
    } else {
        let half: nat = pow2((k - 1) as nat);
        let mask: nat = (pow2(k) - 1) as nat;
        lemma_pow2_unfold(k);
        lemma_pow2_pos((k - 1) as nat);
        assert(mask / 2 == half - 1 && mask % 2 == 1);
        lemma_and_low_mask(a / 2, (k - 1) as nat);
        lemma_mod_breakdown(a as int, 2, half as int);
    }
}

/// OR is at least as large as each of its operands.
pub proof fn lemma_or_lower_bound(a: nat, b: nat)
    ensures
        bit_or(a, b) >= a,
        bit_or(a, b) >= b,
    decreases a,
{
    if a != 0 && b != 0 {
        lemma_or_lower_bound(a / 2, b / 2);
    }
}

/// OR of two numbers below `2^n` stays below `2^n`.
pub proof fn lemma_or_upper_bound(a: nat, b: nat, n: nat)
    requires
        a < pow2(n),
        b < pow2(n),
    ensures
        bit_or(a, b) < pow2(n),
    decreases a,
{
    if a != 0 && b != 0 {
        if n == 0 {
            lemma2_to64();
        } else {
            lemma_pow2_unfold(n);
            lemma_or_upper_bound(a / 2, b / 2, (n - 1) as nat);
        }
    }
}

/// OR does not depend on the order of its operands.
pub proof fn lemma_or_commutes(a: nat, b: nat)
    ensures
        bit_or(a, b) == bit_or(b, a),
    decreases a,
{
    if a != 0 && b != 0 {
        lemma_or_commutes(a / 2, b / 2);
    }
}

/// Where `a` has its `k` low bits clear and `b` fits in `k` bits, no bit is
/// set in both, and OR is the sum.
pub proof fn lemma_or_disjoint(a: nat, b: nat, k: nat)
    requires
        a % pow2(k) == 0,
        b < pow2(k),
    ensures
        bit_or(a, b) == a + b,
    decreases k,
{
    if k == 0 {
        lemma2_to64();
    } else if a != 0 && b != 0 {
        let half: nat = pow2((k - 1) as nat);
        lemma_pow2_unfold(k);
        lemma_pow2_pos((k - 1) as nat);
        lemma_mod_breakdown(a as int, 2, half as int);
        lemma_or_disjoint(a / 2, b / 2, (k - 1) as nat);
    }
}

} // verus!
