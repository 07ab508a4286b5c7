//! Arbitrary-precision naturals.
//!
//! The integers are `num_bigint::BigUint` values. Verus cannot look inside one,
//! so every operation the library performs on them goes through one of the
//! crate-private functions below, each of which states the exact arithmetic
//! result over [`nat_of`]. None of those statements is proved here: they
//! restate what the big-integer crate documents and implements. The one
//! public function, [`is_zero`], is proved from them.

use vstd::prelude::*;
use vstd::arithmetic::power::pow;
use vstd::arithmetic::power2::pow2;
use num_bigint::BigUint;
use num_traits::One;

verus! {

#[verifier::external_type_specification]
#[verifier::external_body]
pub struct ExBigUint(BigUint);

/// The natural number that a `BigUint` holds.
pub uninterp spec fn nat_of(n: BigUint) -> nat;

/// The fewest binary digits that express `n`; zero needs none.
pub open spec fn bit_length(n: nat) -> nat
    decreases n,
{
    if n == 0 {
        0
    } else {
        1 + bit_length(n / 2)
    }
}

/// The number that a big-endian byte string denotes; the empty string denotes zero.
pub open spec fn be_value(bytes: Seq<u8>) -> nat
    decreases bytes.len(),
{
    if bytes.len() == 0 {
        0
    } else {
        be_value(bytes.drop_last()) * 256 + bytes.last() as nat
    }
}

/// The shortest big-endian byte string that denotes `n`; zero is the single byte `0`.
pub open spec fn be_bytes(n: nat) -> Seq<u8>
    decreases n,
{
    if n < 256 {
        seq![n as u8]
    } else {
        be_bytes(n / 256).push((n % 256) as u8)
    }
}

/// `BigUint::from` on a `u32`: the same number.
#[verifier::external_body]
pub(crate) fn from_u32(v: u32) -> (r: BigUint)
    ensures
        nat_of(r) == v,
{
    BigUint::from(v)
}

/// `One::one` for `BigUint`: the number one.
#[verifier::external_body]
pub(crate) fn one() -> (r: BigUint)
    ensures
        nat_of(r) == 1,
{
    BigUint::one()
}

/// `BigUint`'s `<`: the order of the naturals.
#[verifier::external_body]
pub(crate) fn less_than(a: &BigUint, b: &BigUint) -> (r: bool)
    ensures
        r == (nat_of(*a) < nat_of(*b)),
{
    a < b
}

/// `BigUint`'s `==`: two values are equal exactly when they hold the same number.
#[verifier::external_body]
pub(crate) fn equal(a: &BigUint, b: &BigUint) -> (r: bool)
    ensures
        r == (nat_of(*a) == nat_of(*b)),
{
    a == b
}

/// `BigUint::bit`: whether the binary digit of weight `2^index` is set.
#[verifier::external_body]
pub(crate) fn bit(n: &BigUint, index: u64) -> (r: bool)
    ensures
        r == ((nat_of(*n) / pow2(index as nat)) % 2 == 1),
{
    n.bit(index)
}

/// `BigUint::bits`: the fewest bits necessary to express the number.
#[verifier::external_body]
pub(crate) fn bits(n: &BigUint) -> (r: u64)
    ensures
        r == bit_length(nat_of(*n)),
{
    n.bits()
}

/// `BigUint`'s `Add` for two references: the exact sum.
#[verifier::external_body]
pub(crate) fn sum(a: &BigUint, b: &BigUint) -> (r: BigUint)
    ensures
        nat_of(r) == nat_of(*a) + nat_of(*b),
{
    a + b
}

/// `BigUint`'s `Sub` for two references: the exact difference. The crate panics
/// when the subtrahend is the larger, so that case is excluded.
#[verifier::external_body]
pub(crate) fn difference(a: &BigUint, b: &BigUint) -> (r: BigUint)
    requires
        nat_of(*b) <= nat_of(*a),
    ensures
        nat_of(r) == nat_of(*a) - nat_of(*b),
{
    a - b
}

/// `BigUint`'s `Mul` for two references: the exact product.
#[verifier::external_body]
pub(crate) fn product(a: &BigUint, b: &BigUint) -> (r: BigUint)
    ensures
        nat_of(r) == nat_of(*a) * nat_of(*b),
{
    a * b
}

/// `BigUint`'s `Rem` for two references: the remainder of the division. The
/// crate panics on a zero divisor, so that case is excluded.
#[verifier::external_body]
pub(crate) fn remainder(a: &BigUint, m: &BigUint) -> (r: BigUint)
    requires
        nat_of(*m) > 0,
    ensures
        nat_of(r) == nat_of(*a) % nat_of(*m),
{
    a % m
}

/// `BigUint`'s `ShrAssign` by one bit: the number is halved, rounding down.
#[verifier::external_body]
pub(crate) fn halve(n: &mut BigUint)
    ensures
        nat_of(*final(n)) == nat_of(*old(n)) / 2,
{
    *n >>= 1u32;
}

/// `BigUint::modpow`: `(base ^ exponent) % modulus`. The crate panics on a
/// zero modulus, so that case is excluded.
#[verifier::external_body]
pub(crate) fn mod_pow(base: &BigUint, exponent: &BigUint, modulus: &BigUint) -> (r: BigUint)
    requires
        nat_of(*modulus) > 0,
    ensures
        nat_of(r) == pow(nat_of(*base) as int, nat_of(*exponent)) % (nat_of(*modulus) as int),
{
    base.modpow(exponent, modulus)
}

/// `BigUint::from_bytes_be`: the number that the bytes denote, most significant first.
#[verifier::external_body]
pub(crate) fn from_bytes_be(bytes: &[u8]) -> (r: BigUint)
    ensures
        nat_of(r) == be_value(bytes@),
{
    BigUint::from_bytes_be(bytes)
}

/// `BigUint::to_bytes_be`: the number's bytes, most significant first, without
/// leading zeros; zero gives one zero byte.
#[verifier::external_body]
pub(crate) fn to_bytes_be(n: &BigUint) -> (r: Vec<u8>)
    ensures
        r@ == be_bytes(nat_of(*n)),
{
    n.to_bytes_be()
}

/// Whether `n` is zero. The functions of this library that divide by a
/// number ask that it is not.
pub fn is_zero(n: &BigUint) -> (r: bool)
    ensures
        r == (nat_of(*n) == 0),
{
    equal(n, &from_u32(0))
}

} // verus!
