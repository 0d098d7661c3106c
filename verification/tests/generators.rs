use nonsmooth_gen::error::{GenError, LengthParameter};
use nonsmooth_gen::generator::{Gen, Mode, PermutationKind};
use num_bigint::BigUint;
use std::collections::HashSet;

fn big(x: u64) -> BigUint {
    BigUint::from(x)
}

fn permutation(seed_bits: usize, kind: PermutationKind) -> Mode {
    Mode::Permutation { seed_bits, kind }
}

#[test]
fn kind_is_read_from_its_name() {
    assert_eq!(PermutationKind::from_name("increment"), Ok(PermutationKind::Increment));
    assert_eq!(PermutationKind::from_name("rotate"), Ok(PermutationKind::Rotate));
}

#[test]
fn kind_rejects_unknown_names() {
    for name in ["", "rotat", "rotate ", "Rotate", "INCREMENT", "increments", "shuffle", "incrément"] {
        assert_eq!(PermutationKind::from_name(name), Err(GenError::UnknownVariant));
    }
}

#[test]
fn gen_rejects_zero_bits_in_every_mode() {
    assert_eq!(
        Gen::new(0, Mode::Uniform).err(),
        Some(GenError::InvalidBitLength(LengthParameter::Bits))
    );
    assert_eq!(
        Gen::new(0, permutation(4, PermutationKind::Increment)).err(),
        Some(GenError::InvalidBitLength(LengthParameter::Bits))
    );
    assert_eq!(
        Gen::new(0, permutation(0, PermutationKind::Rotate)).err(),
        Some(GenError::InvalidBitLength(LengthParameter::Bits))
    );
}

#[test]
fn gen_rejects_a_zero_seed_length() {
    assert_eq!(
        Gen::new(8, permutation(0, PermutationKind::Increment)).err(),
        Some(GenError::InvalidBitLength(LengthParameter::SeedBits))
    );
    // the lengths are looked at before the rotation
    assert_eq!(
        Gen::new(8, permutation(0, PermutationKind::Rotate)).err(),
        Some(GenError::InvalidBitLength(LengthParameter::SeedBits))
    );
}

#[test]
fn gen_rejects_a_seed_longer_than_the_integer() {
    assert_eq!(
        Gen::new(8, permutation(9, PermutationKind::Increment)).err(),
        Some(GenError::InvalidBitLength(LengthParameter::SeedBits))
    );
    assert_eq!(
        Gen::new(8, permutation(9, PermutationKind::Rotate)).err(),
        Some(GenError::InvalidBitLength(LengthParameter::SeedBits))
    );
}

#[test]
fn gen_rejects_a_rotation_of_a_one_bit_seed() {
    assert_eq!(
        Gen::new(8, permutation(1, PermutationKind::Rotate)).err(),
        Some(GenError::InvalidPermutationParameters)
    );
    assert!(Gen::new(8, permutation(1, PermutationKind::Increment)).is_ok());
    assert!(Gen::new(8, permutation(2, PermutationKind::Rotate)).is_ok());
}

#[test]
fn gen_builds_the_variant_that_the_mode_names() {
    assert!(matches!(Gen::new(8, Mode::Uniform), Ok(Gen::Uniform(_))));
    assert!(matches!(
        Gen::new(8, permutation(4, PermutationKind::Increment)),
        Ok(Gen::Permutation(_))
    ));
    assert!(matches!(
        Gen::new(8, permutation(8, PermutationKind::Rotate)),
        Ok(Gen::Permutation(_))
    ));
}

#[test]
fn uniform_mode_gives_five_distinct_bytes() {
    let mut g = Gen::new(8, Mode::Uniform).unwrap();
    let mut numbers = HashSet::with_capacity(5);
    while numbers.len() < 5 {
        numbers.insert(g.next());
    }
    assert_eq!(numbers.len(), 5);
    let mut lines = HashSet::new();
    for n in &numbers {
        assert!(&big(128) <= n && n <= &big(255));
        let line = format!("{:x}", n);
        assert_eq!(line.len(), 2);
        assert!(line.chars().all(|c| c.is_ascii_digit() || ('a'..='f').contains(&c)));
        assert_eq!(BigUint::parse_bytes(line.as_bytes(), 16), Some(n.clone()));
        assert!(lines.insert(line));
    }
    assert_eq!(lines.len(), 5);
}

#[test]
fn increment_mode_gives_three_distinct_reproducible_values() {
    let mut g = Gen::new(16, permutation(8, PermutationKind::Increment)).unwrap();
    let mut numbers = HashSet::with_capacity(3);
    while numbers.len() < 3 {
        numbers.insert(g.next());
    }
    assert_eq!(numbers.len(), 3);
    for n in &numbers {
        assert_eq!(n.bits(), 16);
        // the steps of the expansion, on the seed that the value starts with
        let seed = n >> 8usize;
        let last = &seed + 1u8;
        assert_eq!(&((&seed << 8usize) | last), n);
    }
}

#[test]
fn rotate_mode_rotates_the_seed_by_one_place() {
    let mut g = Gen::new(16, permutation(8, PermutationKind::Rotate)).unwrap();
    for _ in 0..100 {
        let v = g.next();
        assert_eq!(v.bits(), 16);
        let seed = &v >> 8usize;
        let chunk = &v & &big(0xFF);
        let rotated = ((&seed << 1usize) & &big(0xFF)) | (&seed >> 7usize);
        assert_eq!(chunk, rotated);
    }
}

#[test]
fn every_mode_gives_exactly_the_bit_length() {
    for bits in [1usize, 2, 7, 8, 9, 31, 32, 33, 63, 64, 65, 100, 257] {
        let mut g = Gen::new(bits, Mode::Uniform).unwrap();
        for _ in 0..10 {
            assert_eq!(g.next().bits(), bits as u64);
        }
        for seed_bits in [1usize, 2, 3, 8, 32, 64] {
            if seed_bits > bits {
                continue;
            }
            let mut g = Gen::new(bits, permutation(seed_bits, PermutationKind::Increment)).unwrap();
            for _ in 0..10 {
                assert_eq!(g.next().bits(), bits as u64);
            }
            if seed_bits >= 2 {
                let mut g =
                    Gen::new(bits, permutation(seed_bits, PermutationKind::Rotate)).unwrap();
                for _ in 0..10 {
                    assert_eq!(g.next().bits(), bits as u64);
                }
            }
        }
    }
}
