//! Multilinear extensions over the BLS12-381 scalar field, and the sum-check
//! protocol built on them.
//!
//! A function on the Boolean hypercube is held as the coefficient table of
//! its multilinear extension ([`multivar_poly`]), built from a table of
//! values by Lagrange interpolation ([`interpolation`]). Binding a prefix of
//! the variables and summing the rest over the hypercube leaves a univariate
//! polynomial ([`univar_poly`]): the message of one round. The prover of a
//! circuit layer ([`prover`]) combines such messages; the verifier
//! ([`verification`]) checks them round by round against challenges drawn
//! from a transcript ([`transcript`]).
//!
//! Field arithmetic is done by the `bls12_381` crate behind the contracts of
//! [`field`]. Results are stated over the integers and reduced modulo the
//! field order; [`identities`] holds the laws that connect evaluation,
//! partial evaluation and the hypercube sum.

pub mod bits;
pub mod field;
pub mod identities;
pub mod interpolation;
pub mod matrix;
pub mod multivar_poly;
pub mod or_index;
pub mod prover;
pub mod sums;
pub mod transcript;
pub mod univar_poly;
pub mod utils;
pub mod verification;
