use nonsmooth_gen::error::GenError;
use nonsmooth_gen::permutation::{Increment, LeftRotate, Permutation};
use num_bigint::BigUint;
use std::collections::HashSet;

fn big(x: u64) -> BigUint {
    BigUint::from(x)
}

fn rotate(total_bits: usize, rot_amount: usize) -> LeftRotate {
    LeftRotate::new(total_bits, rot_amount).unwrap()
}

fn gcd(a: usize, b: usize) -> usize {
    if b == 0 {
        a
    } else {
        gcd(b, a % b)
    }
}

#[test]
fn increment_adds_one() {
    assert_eq!(Increment.permute(&big(0)), big(1));
    assert_eq!(Increment.permute(&big(41)), big(42));
    assert_eq!(Increment.permute(&big(0b1010)), big(0b1011));
}

#[test]
fn increment_does_not_wrap_at_a_width() {
    assert_eq!(Increment.permute(&big(0b1111)), big(0b1_0000));
    assert_eq!(Increment.permute(&big(u64::MAX)), BigUint::from(1u8) << 64usize);
    let all_ones = (BigUint::from(1u8) << 200usize) - 1u8;
    assert_eq!(Increment.permute(&all_ones), BigUint::from(1u8) << 200usize);
}

#[test]
fn increment_leaves_its_argument_alone() {
    let x = big(7);
    let y = Increment.permute(&x);
    assert_eq!(x, big(7));
    assert_eq!(y, big(8));
}

#[test]
fn left_rotate_moves_the_top_bit_to_the_bottom() {
    assert_eq!(rotate(4, 1).permute(&big(0b1010)), big(0b0101));
    assert_eq!(rotate(4, 1).permute(&big(0b0101)), big(0b1010));
    assert_eq!(rotate(4, 1).permute(&big(0b1000)), big(0b0001));
}

#[test]
fn left_rotate_by_several_places() {
    assert_eq!(rotate(8, 3).permute(&big(0b1011_0001)), big(0b1000_1101));
    assert_eq!(rotate(4, 3).permute(&big(0b0001)), big(0b1000));
    assert_eq!(rotate(16, 8).permute(&big(0xAB_CD)), big(0xCD_AB));
}

#[test]
fn left_rotate_fixes_zero_and_all_ones() {
    for total_bits in 2..10usize {
        for rot_amount in 1..total_bits {
            let r = rotate(total_bits, rot_amount);
            assert_eq!(r.permute(&big(0)), big(0));
            let ones = big((1u64 << total_bits) - 1);
            assert_eq!(r.permute(&ones), ones);
        }
    }
}

#[test]
fn left_rotate_of_a_wide_field() {
    let r = rotate(100, 37);
    let x = (BigUint::from(0xDEAD_BEEF_u64) << 64usize) | BigUint::from(0x0123_4567_89AB_CDEF_u64);
    let mask = (BigUint::from(1u8) << 100usize) - 1u8;
    let expected = ((&x << 37usize) & &mask) | (&x >> 63usize);
    assert_eq!(r.permute(&x), expected);
    assert_eq!(r.permute(&(BigUint::from(1u8) << 99usize)), BigUint::from(1u8) << 36usize);
    assert_eq!(r.permute(&(BigUint::from(1u8) << 62usize)), BigUint::from(1u8) << 99usize);
}

#[test]
fn left_rotate_of_a_value_outside_the_field() {
    // ((26 << 1) & 15) | (26 >> 3) == 4 | 3
    assert_eq!(rotate(4, 1).permute(&big(0b1_1010)), big(7));
    // ((10 << 8) & 0xFFF) | (10 >> 4)
    assert_eq!(rotate(12, 8).permute(&big(0b1010)), big(0xA00));
}

#[test]
fn left_rotate_reports_its_parameters() {
    let r = rotate(12, 5);
    assert_eq!(r.total_bits(), 12);
    assert_eq!(r.rot_amount(), 5);
}

#[test]
fn left_rotate_holds_the_mask_of_its_field() {
    assert_eq!(rotate(4, 1).mask(), &big(0b1111));
    assert_eq!(rotate(2, 1).mask(), &big(0b11));
    assert_eq!(rotate(64, 63).mask(), &big(u64::MAX));
    assert_eq!(rotate(100, 37).mask(), &((BigUint::from(1u8) << 100usize) - 1u8));
}

#[test]
fn left_rotate_rejects_a_zero_amount() {
    assert_eq!(LeftRotate::new(4, 0).err(), Some(GenError::InvalidPermutationParameters));
    assert_eq!(LeftRotate::new(0, 0).err(), Some(GenError::InvalidPermutationParameters));
}

#[test]
fn left_rotate_rejects_an_amount_that_is_not_below_the_width() {
    assert_eq!(LeftRotate::new(4, 4).err(), Some(GenError::InvalidPermutationParameters));
    assert_eq!(LeftRotate::new(4, 5).err(), Some(GenError::InvalidPermutationParameters));
    assert_eq!(LeftRotate::new(1, 1).err(), Some(GenError::InvalidPermutationParameters));
    assert_eq!(LeftRotate::new(0, 1).err(), Some(GenError::InvalidPermutationParameters));
    assert_eq!(
        LeftRotate::new(8, usize::MAX).err(),
        Some(GenError::InvalidPermutationParameters)
    );
}

#[test]
fn left_rotate_accepts_every_amount_inside_the_width() {
    for total_bits in 2..12usize {
        for rot_amount in 1..total_bits {
            assert!(LeftRotate::new(total_bits, rot_amount).is_ok());
        }
    }
}

#[test]
fn left_rotate_is_a_bijection_on_its_field() {
    for total_bits in 2..9usize {
        for rot_amount in 1..total_bits {
            let r = rotate(total_bits, rot_amount);
            let size = 1u64 << total_bits;
            let mut images = HashSet::new();
            for x in 0..size {
                let y = r.permute(&big(x));
                assert!(y < big(size));
                assert!(images.insert(y));
            }
            assert_eq!(images.len() as u64, size);
        }
    }
}

#[test]
fn left_rotate_is_undone_by_the_rest_of_the_width() {
    let forth = rotate(7, 3);
    let back = rotate(7, 4);
    for x in 0..128u64 {
        assert_eq!(back.permute(&forth.permute(&big(x))), big(x));
    }
}

#[test]
fn left_rotate_returns_after_width_over_gcd_applications() {
    for total_bits in 2..9usize {
        for rot_amount in 1..total_bits {
            let r = rotate(total_bits, rot_amount);
            let times = total_bits / gcd(rot_amount, total_bits);
            for x in 0..(1u64 << total_bits) {
                let mut y = big(x);
                for _ in 0..times {
                    y = r.permute(&y);
                }
                assert_eq!(y, big(x));
            }
        }
    }
}

#[test]
fn left_rotate_returns_after_width_applications_when_coprime() {
    let r = rotate(7, 3);
    for x in 0..128u64 {
        let mut y = big(x);
        for _ in 0..7 {
            y = r.permute(&y);
        }
        assert_eq!(y, big(x));
    }
    // and not earlier, for a value with a single set bit
    let mut y = big(1);
    for _ in 0..6 {
        y = r.permute(&y);
        assert_ne!(y, big(1));
    }
}

#[test]
fn permutation_dispatches_to_its_variant() {
    let inc = Permutation::Increment(Increment);
    let rot = Permutation::LeftRotate(rotate(4, 1));
    assert_eq!(inc.permute(&big(0b1010)), big(0b1011));
    assert_eq!(rot.permute(&big(0b1010)), big(0b0101));
}
