//! Rotation of a fixed-width bit field, and the laws it obeys.

use crate::bits::{bit_or, lemma_or_disjoint, lemma_or_upper_bound};
use crate::permutation::PermutationModel;
use vstd::arithmetic::div_mod::{
    lemma_div_nonincreasing, lemma_div_pos_is_pos, lemma_fundamental_div_mod,
    lemma_fundamental_div_mod_converse, lemma_mod_bound, lemma_mod_multiples_basic,
    lemma_mul_mod_noop_general, lemma_small_mod,
};
use vstd::arithmetic::power2::{
    lemma_pow2_adds, lemma_pow2_pos, lemma_pow2_strictly_increases, lemma_pow2_unfold, pow2,
};
use vstd::prelude::*;

verus! {

/// The low `total_bits` bits of `x` moved up by `rot_amount` places, joined
/// with the bits of `x` from place `total_bits - rot_amount` upwards.
///
/// For `x < 2^total_bits` and `0 < rot_amount < total_bits` this rotates the
/// field of `total_bits` bits to the left by `rot_amount` places
/// ([`lemma_rotate_left_in_field`]).
pub open spec fn rotate_left(x: nat, total_bits: nat, rot_amount: nat) -> nat {
    bit_or(
        (x * pow2(rot_amount)) % pow2(total_bits),
        x / pow2((total_bits - rot_amount) as nat),
    )
}

/// Inside the field, a rotation moves the low `total_bits - rot_amount` bits
/// to the top and the high `rot_amount` bits to the bottom, and the result
/// stays inside the field.
pub proof fn lemma_rotate_left_in_field(x: nat, total_bits: nat, rot_amount: nat)
    requires
        0 < rot_amount < total_bits,
        x < pow2(total_bits),
    ensures
        rotate_left(x, total_bits, rot_amount) == (x % pow2((total_bits - rot_amount) as nat))
            * pow2(rot_amount) + x / pow2((total_bits - rot_amount) as nat),
        rotate_left(x, total_bits, rot_amount) < pow2(total_bits),
{
    let rest: nat = (total_bits - rot_amount) as nat;
    let p: nat = pow2(rest);
    let q: nat = pow2(rot_amount);
    let h: nat = x / p;
    let l: nat = x % p;
    lemma_pow2_pos(rest);
    lemma_pow2_pos(rot_amount);
    lemma_pow2_adds(rest, rot_amount);
    assert(pow2(total_bits) == p * q);
    lemma_fundamental_div_mod(x as int, p as int);
    lemma_mod_bound(x as int, p as int);
    assert(h < q) by (nonlinear_arith)
        requires
            x == p * h + l,
            x < p * q,
            p > 0,
    ;
    assert(l * q + q <= p * q) by (nonlinear_arith)
        requires
            l < p,
            q > 0,
    ;
    assert(x * q == (p * q) * h + l * q) by (nonlinear_arith)
        requires
            x == p * h + l,
    ;
    lemma_fundamental_div_mod_converse((x * q) as int, (p * q) as int, h as int, (l * q) as int);
    lemma_mod_multiples_basic(l as int, q as int);
    lemma_or_disjoint(l * q, h, rot_amount);
}

/// Rotating back by the rest of the width undoes a rotation.
pub proof fn lemma_rotate_left_inverse(x: nat, total_bits: nat, rot_amount: nat)
    requires
        0 < rot_amount < total_bits,
        x < pow2(total_bits),
    ensures
        rotate_left(
            rotate_left(x, total_bits, rot_amount),
            total_bits,
            (total_bits - rot_amount) as nat,
        ) == x,
{
    let rest: nat = (total_bits - rot_amount) as nat;
    let p: nat = pow2(rest);
    let q: nat = pow2(rot_amount);
    let h: nat = x / p;
    let l: nat = x % p;
    let y: nat = rotate_left(x, total_bits, rot_amount);
    lemma_pow2_pos(rest);
    lemma_pow2_pos(rot_amount);
    lemma_pow2_adds(rest, rot_amount);
    lemma_fundamental_div_mod(x as int, p as int);
    lemma_mod_bound(x as int, p as int);
    assert(h < q) by (nonlinear_arith)
        requires
            x == p * h + l,
            x < p * q,
            p > 0,
    ;
    lemma_rotate_left_in_field(x, total_bits, rot_amount);
    assert(y == q * l + h) by (nonlinear_arith)
        requires
            y == l * q + h,
    ;
    lemma_fundamental_div_mod_converse(y as int, q as int, l as int, h as int);
    assert((total_bits - rest) as nat == rot_amount);
    lemma_rotate_left_in_field(y, total_bits, rest);
    assert(rotate_left(y, total_bits, rest) == h * p + l);
    assert(h * p == p * h) by (nonlinear_arith);
}

/// A rotation is a bijection on the field `[0, 2^total_bits - 1]`: it maps
/// the field into itself, no two values of the field to the same value, and
/// every value `y` of the field is the image of a value of the field, namely
/// of `y` rotated by the rest of the width.
pub proof fn lemma_rotate_left_bijection(total_bits: nat, rot_amount: nat)
    requires
        0 < rot_amount < total_bits,
    ensures
        forall|x: nat|
            x < pow2(total_bits) ==> #[trigger] rotate_left(x, total_bits, rot_amount) < pow2(
                total_bits,
            ),
        forall|x: nat, y: nat|
            x < pow2(total_bits) && y < pow2(total_bits) && #[trigger] rotate_left(
                x,
                total_bits,
                rot_amount,
            ) == #[trigger] rotate_left(y, total_bits, rot_amount) ==> x == y,
        forall|y: nat|
            y < pow2(total_bits) ==> #[trigger] rotate_left(
                y,
                total_bits,
                (total_bits - rot_amount) as nat,
            ) < pow2(total_bits) && rotate_left(
                rotate_left(y, total_bits, (total_bits - rot_amount) as nat),
                total_bits,
                rot_amount,
            ) == y,
{
    let rest: nat = (total_bits - rot_amount) as nat;
    assert forall|x: nat| x < pow2(total_bits) implies #[trigger] rotate_left(
        x,
        total_bits,
        rot_amount,
    ) < pow2(total_bits) by {
        lemma_rotate_left_in_field(x, total_bits, rot_amount);
    }
    assert forall|x: nat, y: nat|
        x < pow2(total_bits) && y < pow2(total_bits) && #[trigger] rotate_left(
            x,
            total_bits,
            rot_amount,
        ) == #[trigger] rotate_left(y, total_bits, rot_amount) implies x == y by {
        lemma_rotate_left_inverse(x, total_bits, rot_amount);
        lemma_rotate_left_inverse(y, total_bits, rot_amount);
    }
    assert forall|y: nat| y < pow2(total_bits) implies #[trigger] rotate_left(
        y,
        total_bits,
        rest,
    ) < pow2(total_bits) && rotate_left(rotate_left(y, total_bits, rest), total_bits, rot_amount)
        == y by {
        lemma_rotate_left_in_field(y, total_bits, rest);
        lemma_rotate_left_inverse(y, total_bits, rest);
        assert((total_bits - rest) as nat == rot_amount);
    }
}

/// Whatever the argument, the result of a rotation stays below `2^width` for
/// every `width` that holds both the field and the argument.
pub proof fn lemma_rotate_left_bound(x: nat, total_bits: nat, rot_amount: nat, width: nat)
    requires
        total_bits <= width,
        x < pow2(width),
    ensures
        rotate_left(x, total_bits, rot_amount) < pow2(width),
{
    let rest: nat = (total_bits - rot_amount) as nat;
    lemma_pow2_pos(total_bits);
    lemma_pow2_pos(rest);
    lemma_mod_bound((x * pow2(rot_amount)) as int, pow2(total_bits) as int);
    if total_bits < width {
        lemma_pow2_strictly_increases(total_bits, width);
    }
    lemma_div_nonincreasing(x as int, pow2(rest) as int);
    lemma_div_pos_is_pos(x as int, pow2(rest) as int);
    lemma_or_upper_bound(
        (x * pow2(rot_amount)) % pow2(total_bits),
        x / pow2(rest),
        width,
    );
}

/// The greatest common divisor, by Euclid's algorithm.
pub open spec fn gcd(a: nat, b: nat) -> nat
    decreases b,
{
    if b == 0 {
        a
    } else {
        gcd(b, a % b)
    }
}

/// The greatest common divisor divides both numbers.
pub proof fn lemma_gcd_divides(a: nat, b: nat)
    requires
        a > 0 || b > 0,
    ensures
        gcd(a, b) > 0,
        a % gcd(a, b) == 0,
        b % gcd(a, b) == 0,
    decreases b,
{
    if b == 0 {
        lemma_mod_multiples_basic(1, a as int);
        lemma_small_mod(0, a);
    } else {
        let g: nat = gcd(b, a % b);
        lemma_gcd_divides(b, a % b);
        lemma_fundamental_div_mod(a as int, b as int);
        lemma_fundamental_div_mod(b as int, g as int);
        lemma_fundamental_div_mod((a % b) as int, g as int);
        let whole: int = ((b / g) * (a / b) + (a % b) / g) as int;
        assert(a == whole * g) by (nonlinear_arith)
            requires
                a == b * (a / b) + a % b,
                b == g * (b / g),
                a % b == g * ((a % b) / g),
                whole == (b / g) * (a / b) + (a % b) / g,
        ;
        lemma_mod_multiples_basic(whole, g as int);
    }
}

/// The field with every bit set is a fixed point of the rotation.
proof fn lemma_rotate_left_all_ones(total_bits: nat, rot_amount: nat)
    requires
        0 < rot_amount < total_bits,
    ensures
        pow2(total_bits) >= 1,
        rotate_left((pow2(total_bits) - 1) as nat, total_bits, rot_amount) == pow2(total_bits)
            - 1,
{
    let rest: nat = (total_bits - rot_amount) as nat;
    let p: nat = pow2(rest);
    let q: nat = pow2(rot_amount);
    let x: nat = (pow2(total_bits) - 1) as nat;
    lemma_pow2_pos(rest);
    lemma_pow2_pos(rot_amount);
    lemma_pow2_pos(total_bits);
    lemma_pow2_adds(rest, rot_amount);
    assert(x == p * (q - 1) + (p - 1)) by (nonlinear_arith)
        requires
            x == p * q - 1,
    ;
    lemma_fundamental_div_mod_converse(x as int, p as int, q - 1, p - 1);
    lemma_rotate_left_in_field(x, total_bits, rot_amount);
    assert((p - 1) * q + (q - 1) == p * q - 1) by (nonlinear_arith);
}

/// Below the all-ones value, a rotation by `rot_amount` is a multiplication
/// by `2^rot_amount` modulo `2^total_bits - 1`.
proof fn lemma_rotate_left_as_product(x: nat, total_bits: nat, rot_amount: nat)
    requires
        0 < rot_amount < total_bits,
        x < pow2(total_bits) - 1,
    ensures
        rotate_left(x, total_bits, rot_amount) < pow2(total_bits) - 1,
        rotate_left(x, total_bits, rot_amount) == (x * pow2(rot_amount)) % ((pow2(total_bits)
            - 1) as nat),
{
    let rest: nat = (total_bits - rot_amount) as nat;
    let p: nat = pow2(rest);
    let q: nat = pow2(rot_amount);
    let h: nat = x / p;
    let l: nat = x % p;
    let ones: nat = (pow2(total_bits) - 1) as nat;
    let y: nat = rotate_left(x, total_bits, rot_amount);
    lemma_pow2_pos(rest);
    lemma_pow2_pos(rot_amount);
    lemma_pow2_adds(rest, rot_amount);
    lemma_fundamental_div_mod(x as int, p as int);
    lemma_rotate_left_in_field(x, total_bits, rot_amount);
    if y == ones {
        lemma_rotate_left_all_ones(total_bits, rot_amount);
        lemma_rotate_left_inverse(x, total_bits, rot_amount);
        lemma_rotate_left_inverse(ones, total_bits, rot_amount);
    }
    assert(x * q == ones * h + y) by (nonlinear_arith)
        requires
            x == p * h + l,
            y == l * q + h,
            ones == p * q - 1,
    ;
    lemma_fundamental_div_mod_converse((x * q) as int, ones as int, h as int, y as int);
}

/// Every power of `2^total_bits` leaves the remainder one modulo
/// `2^total_bits - 1`.
proof fn lemma_pow2_multiple_remainder(total_bits: nat, m: nat)
    requires
        total_bits >= 2,
    ensures
        pow2(total_bits) - 1 > 1,
        pow2(total_bits * m) % ((pow2(total_bits) - 1) as nat) == 1,
    decreases m,
{
    let ones: nat = (pow2(total_bits) - 1) as nat;
    lemma_pow2_unfold(total_bits);
    lemma_pow2_unfold((total_bits - 1) as nat);
    lemma_pow2_pos((total_bits - 2) as nat);
    assert(ones > 1);
    if m == 0 {
        assert(total_bits * m == 0) by (nonlinear_arith)
            requires
                m == 0,
        ;
        assert(pow2(0) == 1) by {
            vstd::arithmetic::power2::lemma2_to64();
        }
        lemma_small_mod(1, ones);
    } else {
        let before: nat = total_bits * ((m - 1) as nat);
        lemma_pow2_multiple_remainder(total_bits, (m - 1) as nat);
        assert(total_bits * m == before + total_bits) by (nonlinear_arith)
            requires
                m >= 1,
                before == total_bits * ((m - 1) as nat),
        ;
        lemma_pow2_adds(before, total_bits);
        lemma_fundamental_div_mod_converse(pow2(total_bits) as int, ones as int, 1, 1);
        lemma_mul_mod_noop_general(pow2(before) as int, pow2(total_bits) as int, ones as int);
        lemma_small_mod(1, ones);
    }
}

/// Below the all-ones value, `k` rotations by `rot_amount` are a
/// multiplication by `2^(k * rot_amount)` modulo `2^total_bits - 1`.
proof fn lemma_rotations_as_product(x: nat, total_bits: nat, rot_amount: nat, k: nat)
    requires
        0 < rot_amount < total_bits,
        x < pow2(total_bits) - 1,
    ensures
        (PermutationModel::LeftRotate { total_bits, rot_amount }).iterate(k, x) < pow2(
            total_bits,
        ) - 1,
        (PermutationModel::LeftRotate { total_bits, rot_amount }).iterate(k, x) == (x * pow2(
            k * rot_amount,
        )) % ((pow2(total_bits) - 1) as nat),
    decreases k,
{
    let rule = PermutationModel::LeftRotate { total_bits, rot_amount };
    let ones: nat = (pow2(total_bits) - 1) as nat;
    if k == 0 {
        assert(k * rot_amount == 0) by (nonlinear_arith)
            requires
                k == 0,
        ;
        assert(pow2(0) == 1) by {
            vstd::arithmetic::power2::lemma2_to64();
        }
        assert(x * 1 == x);
        lemma_small_mod(x, ones);
    } else {
        let before: nat = ((k - 1) as nat) * rot_amount;
        let prev: nat = rule.iterate((k - 1) as nat, x);
        let q: nat = pow2(rot_amount);
        lemma_rotations_as_product(x, total_bits, rot_amount, (k - 1) as nat);
        lemma_rotate_left_as_product(prev, total_bits, rot_amount);
        assert(k * rot_amount == before + rot_amount) by (nonlinear_arith)
            requires
                k >= 1,
                before == ((k - 1) as nat) * rot_amount,
        ;
        lemma_pow2_adds(before, rot_amount);
        // (prev * q) % ones, with prev == (x * 2^before) % ones
        lemma_mul_mod_noop_general((x * pow2(before)) as int, q as int, ones as int);
        assert((x * pow2(before)) * q == x * (pow2(before) * q)) by (nonlinear_arith);
    }
}

/// A left rotation by `rot_amount`, applied `k` times, returns every value
/// of the field to itself whenever `k * rot_amount` is a multiple of the
/// width.
pub proof fn lemma_rotate_left_period(x: nat, total_bits: nat, rot_amount: nat, k: nat)
    requires
        0 < rot_amount < total_bits,
        x < pow2(total_bits),
        (k * rot_amount) % total_bits == 0,
    ensures
        (PermutationModel::LeftRotate { total_bits, rot_amount }).iterate(k, x) == x,
{
    let ones: nat = (pow2(total_bits) - 1) as nat;
    if x == ones {
        lemma_all_ones_stays(total_bits, rot_amount, k);
    } else {
        let turns: nat = (k * rot_amount) / total_bits;
        lemma_fundamental_div_mod((k * rot_amount) as int, total_bits as int);
        assert(k * rot_amount == total_bits * turns);
        lemma_rotations_as_product(x, total_bits, rot_amount, k);
        lemma_pow2_multiple_remainder(total_bits, turns);
        lemma_mul_mod_noop_general(x as int, pow2(total_bits * turns) as int, ones as int);
        lemma_small_mod(x, ones);
        assert(x * 1 == x);
    }
}

/// The all-ones value stays where it is under any number of rotations.
proof fn lemma_all_ones_stays(total_bits: nat, rot_amount: nat, k: nat)
    requires
        0 < rot_amount < total_bits,
    ensures
        pow2(total_bits) >= 1,
        (PermutationModel::LeftRotate { total_bits, rot_amount }).iterate(
            k,
            (pow2(total_bits) - 1) as nat,
        ) == pow2(total_bits) - 1,
    decreases k,
{
    lemma_rotate_left_all_ones(total_bits, rot_amount);
    if k > 0 {
        lemma_all_ones_stays(total_bits, rot_amount, (k - 1) as nat);
    }
}

/// A left rotation by `rot_amount`, applied `total_bits / gcd(rot_amount,
/// total_bits)` times, returns every value of the field to itself. Where
/// `rot_amount` and `total_bits` have no common divisor, that is
/// `total_bits` times.
pub proof fn lemma_rotate_left_order(x: nat, total_bits: nat, rot_amount: nat)
    requires
        0 < rot_amount < total_bits,
        x < pow2(total_bits),
    ensures
        (PermutationModel::LeftRotate { total_bits, rot_amount }).iterate(
            total_bits / gcd(rot_amount, total_bits),
            x,
        ) == x,
        gcd(rot_amount, total_bits) == 1 ==> (PermutationModel::LeftRotate {
            total_bits,
            rot_amount,
        }).iterate(total_bits, x) == x,
{
    let g: nat = gcd(rot_amount, total_bits);
    lemma_gcd_divides(rot_amount, total_bits);
    let k: nat = total_bits / g;
    lemma_fundamental_div_mod(total_bits as int, g as int);
    lemma_fundamental_div_mod(rot_amount as int, g as int);
    assert(k * rot_amount == (rot_amount / g) * total_bits) by (nonlinear_arith)
        requires
            total_bits == g * k,
            rot_amount == g * (rot_amount / g),
    ;
    lemma_mod_multiples_basic((rot_amount / g) as int, total_bits as int);
    lemma_rotate_left_period(x, total_bits, rot_amount, k);
    if g == 1 {
        assert(k == total_bits);
    }
}

} // verus!
