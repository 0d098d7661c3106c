//! Generators of large integers with an exact bit length.
//!
//! A [`uniform::UniformGen`] draws integers uniformly from all integers of a
//! given bit length. A [`expander::PermutationGen`] draws a short uniform seed
//! and stretches it to the full length by applying a
//! [`permutation::Permutation`] over and over and concatenating the results.
//! [`generator::Gen`] is the closed choice between the two.
//!
//! Integers are `num_bigint::BigUint` values. Contracts speak of the natural
//! number that such a value holds, [`natural::value`], and are stated over the
//! arithmetic of [`bits`] and [`rotation`].
//!
//! What is taken on trust stands in two modules: [`natural`] says what the
//! operations of `BigUint` compute, and [`random`] what a draw of random bits
//! can return. Everything else is proved from those contracts.

pub mod bits;
pub mod error;
pub mod expander;
pub mod generator;
pub mod natural;
pub mod permutation;
pub mod random;
pub mod rotation;
pub mod uniform;
