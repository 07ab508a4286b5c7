//! Verified logic of two capture-the-flag challenges.
//!
//! The larger part generates a number-theoretic puzzle: probable primes, a
//! multi-term cipher over a three-prime modulus, key material hashed from
//! the plaintexts, and a payload sealed under that key. The primality test
//! is proved never to reject a prime.
//!
//! The smaller part is the instruction format of the Dragon's Hoard program.

pub mod natural;
pub mod entropy;
pub mod number_theory;
pub mod primality;
pub mod cipher;
pub mod message;
pub mod encoding;
pub mod keys;
pub mod payload;
pub mod puzzle;
pub mod hoard;
