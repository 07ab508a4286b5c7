//! The random source.
//!
//! Every draw goes through an explicit generator, `rand::rngs::StdRng`, so a
//! caller decides how it is seeded. What a draw returns is not a function of
//! the arguments; the functions below promise only the range that each
//! result lies in.

use vstd::prelude::*;
use vstd::arithmetic::power2::pow2;
use num_bigint::{BigUint, RandBigInt};
use rand::Rng;
use rand::rngs::StdRng;
use crate::natural::nat_of;

verus! {

#[verifier::external_type_specification]
#[verifier::external_body]
pub struct ExStdRng(StdRng);

/// `RandBigInt::gen_biguint`: a number of at most `bit_size` random bits.
#[verifier::external_body]
pub(crate) fn random_bits(rng: &mut StdRng, bit_size: usize) -> (r: BigUint)
    ensures
        nat_of(r) < pow2(bit_size as nat),
{
    rng.gen_biguint(bit_size as u64)
}

/// `RandBigInt::gen_biguint_range`: a number from `low` up to, but not
/// including, `high`. The crate panics on an empty range, so that case is
/// excluded.
#[verifier::external_body]
pub(crate) fn random_in_range(rng: &mut StdRng, low: &BigUint, high: &BigUint) -> (r: BigUint)
    requires
        nat_of(*low) < nat_of(*high),
    ensures
        nat_of(*low) <= nat_of(r) < nat_of(*high),
{
    rng.gen_biguint_range(low, high)
}

/// `Rng::gen` for a byte: any byte may come back.
#[verifier::external_body]
pub(crate) fn random_byte(rng: &mut StdRng) -> u8 {
    rng.gen::<u8>()
}

/// `Rng::gen` for a `bool`: either value may come back.
#[verifier::external_body]
pub(crate) fn random_flag(rng: &mut StdRng) -> bool {
    rng.gen::<bool>()
}

} // verus!
