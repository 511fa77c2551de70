//! Two-party transferable designated-verifier signatures over a prime field, with
//! Shamir secret sharing.

pub mod algebra;
pub mod binding;
pub mod correctness;
pub mod field;
pub mod hashing;
pub mod lagrange;
pub mod shamir;
pub mod signature;
