//! The probabilistic primality test and the search for probable primes.

use vstd::prelude::*;
use vstd::arithmetic::power2::{pow2, lemma2_to64, lemma_pow2_pos, lemma_pow2_unfold, lemma_pow2_strictly_increases};
use vstd::arithmetic::div_mod::lemma_small_mod;
use num_bigint::BigUint;
use rand::rngs::StdRng;
use crate::natural::{
    nat_of, bit_length, from_u32, one, less_than, equal, bit, bits, difference, halve, mod_pow,
};
use crate::entropy::{random_bits, random_in_range};
use crate::number_theory::{
    is_prime, chain_term, passes_witness, passes_screening, odd_part, two_exponent,
    accepted_with, acceptable, lemma_bit_length_bounds, lemma_chain_step,
    lemma_prime_passes_witness,
};

verus! {

/// The number of witnesses that the prime search tries on each candidate.
pub const ROUNDS: usize = 20;

/// The number of candidates after which the prime search gives up.
pub const MAX_ATTEMPTS: u64 = 1_000_000;

/// Splits a positive number into its odd part `d` and the exponent `r` of the
/// power of two in it: `m == d * 2^r` with `d` odd.
pub fn split_odd_part(m: BigUint) -> (parts: (BigUint, u64))
    requires
        nat_of(m) > 0,
    ensures
        nat_of(parts.0) == odd_part(nat_of(m)),
        parts.1 == two_exponent(nat_of(m)),
        nat_of(parts.0) * pow2(parts.1 as nat) == nat_of(m),
        nat_of(parts.0) % 2 == 1,
{
    let width = bits(&m);
    let mut d = m;
    let mut r: u64 = 0;
    proof {
        lemma2_to64();
        lemma_bit_length_bounds(nat_of(m));
    }
    while !bit(&d, 0)
        invariant
            nat_of(d) > 0,
            nat_of(d) * pow2(r as nat) == nat_of(m),
            odd_part(nat_of(d)) == odd_part(nat_of(m)),
            r + two_exponent(nat_of(d)) == two_exponent(nat_of(m)),
            nat_of(m) < pow2(width as nat),
            pow2(0) == 1,
        decreases nat_of(d),
    {
        proof {
            let dn = nat_of(d);
            lemma_pow2_unfold((r + 1) as nat);
            lemma_pow2_pos(r as nat);
            assert((dn / 2) * pow2((r + 1) as nat) == dn * pow2(r as nat)) by (nonlinear_arith)
                requires
                    dn % 2 == 0,
                    pow2((r + 1) as nat) == 2 * pow2(r as nat),
            ;
            assert(pow2(r as nat) <= dn * pow2(r as nat)) by (nonlinear_arith)
                requires
                    dn >= 1,
            ;
            if r >= width - 1 {
                if r + 1 > width {
                    lemma_pow2_strictly_increases(width as nat, (r + 1) as nat);
                }
                assert(pow2((r + 1) as nat) >= pow2(width as nat));
                assert(dn >= 2);
                assert(2 * pow2(r as nat) <= dn * pow2(r as nat)) by (nonlinear_arith)
                    requires
                        dn >= 2,
                ;
                assert(false);
            }
        }
        halve(&mut d);
        r = r + 1;
    }
    (d, r)
}

/// One round of the test: whether `n` passes the witness `a`, given the
/// exponent `d` and the number `r` of terms of the squaring chain to look at.
pub fn witness_passes(n: &BigUint, d: &BigUint, r: u64, a: &BigUint) -> (res: bool)
    requires
        nat_of(*n) > 0,
        r >= 1,
    ensures
        res == passes_witness(nat_of(*n), nat_of(*d), r as nat, nat_of(*a)),
{
    let ghost nn = nat_of(*n);
    let ghost dd = nat_of(*d);
    let ghost aa = nat_of(*a);
    let unit = one();
    let two = from_u32(2);
    let n_minus_1 = difference(n, &unit);
    let mut x = mod_pow(a, d, n);
    proof {
        lemma2_to64();
        assert(dd * pow2(0) == dd);
    }
    if equal(&x, &unit) || equal(&x, &n_minus_1) {
        assert(chain_term(nn, dd, aa, 0) == 1 || chain_term(nn, dd, aa, 0) == nn - 1);
        return true;
    }
    let mut j: u64 = 1;
    while j < r
        invariant
            1 <= j <= r,
            nn == nat_of(*n),
            dd == nat_of(*d),
            aa == nat_of(*a),
            nn > 0,
            nat_of(two) == 2,
            nat_of(n_minus_1) == nn - 1,
            nat_of(x) == chain_term(nn, dd, aa, (j - 1) as nat),
            chain_term(nn, dd, aa, 0) != 1,
            forall|k: nat| k < j ==> #[trigger] chain_term(nn, dd, aa, k) != nn - 1,
        decreases r - j,
    {
        x = mod_pow(&x, &two, n);
        proof {
            lemma_chain_step(nn, dd, aa, (j - 1) as nat);
        }
        if equal(&x, &n_minus_1) {
            assert(chain_term(nn, dd, aa, j as nat) == nn - 1);
            return true;
        }
        j = j + 1;
    }
    false
}

/// The probabilistic primality test with `rounds` random witnesses.
///
/// Numbers below two and even numbers other than two are rejected, two and
/// three are accepted. Any other number `n` is odd and at least five: each
/// round draws a witness from `2` up to, but not including, `n - 2`, a range
/// that then holds at least the number two. `n` is rejected as soon as it
/// fails a witness, and accepted when it has passed all of them.
///
/// A prime is never rejected. A composite may be accepted, but only if every
/// witness drawn happens to be one that it passes.
pub fn is_probably_prime(n: &BigUint, rounds: usize, rng: &mut StdRng) -> (res: bool)
    ensures
        is_prime(nat_of(*n)) ==> res,
        res ==> acceptable(nat_of(*n), rounds as nat),
        rounds == 0 ==> res == passes_screening(nat_of(*n)),
{
    let two = from_u32(2);
    let three = from_u32(3);
    if less_than(n, &two) {
        return false;
    }
    if equal(n, &two) || equal(n, &three) {
        assert(accepted_with(nat_of(*n), Seq::new(rounds as nat, |i: int| 0nat)));
        return true;
    }
    proof {
        lemma2_to64();
    }
    if !bit(n, 0) {
        return false;
    }
    let (d, r) = split_odd_part(difference(n, &one()));
    proof {
        if r == 0 {
            assert(nat_of(d) * 1 == nat_of(d));
        }
    }
    let upper = difference(n, &two);
    let ghost mut drawn: Seq<nat> = Seq::empty();
    let mut i: usize = 0;
    while i < rounds
        invariant
            i <= rounds,
            drawn.len() == i,
            accepted_with(nat_of(*n), drawn),
            nat_of(d) == odd_part((nat_of(*n) - 1) as nat),
            r == two_exponent((nat_of(*n) - 1) as nat),
            nat_of(*n) >= 5,
            nat_of(*n) % 2 == 1,
            r >= 1,
            nat_of(d) * pow2(r as nat) == nat_of(*n) - 1,
            nat_of(two) == 2,
            nat_of(upper) == nat_of(*n) - 2,
        decreases rounds - i,
    {
        let a = random_in_range(rng, &two, &upper);
        proof {
            if is_prime(nat_of(*n)) {
                lemma_small_mod(nat_of(a), nat_of(*n));
                lemma_prime_passes_witness(nat_of(*n), nat_of(d), r as nat, nat_of(a));
            }
        }
        if !witness_passes(n, &d, r, &a) {
            return false;
        }
        proof {
            drawn = drawn.push(nat_of(a));
        }
        i = i + 1;
    }
    true
}

/// Decides on one candidate of the prime search: it is kept when it has
/// exactly `bit_count` bits and passes the test with [`ROUNDS`] witnesses.
/// A prime of that length is always kept.
pub fn screen_candidate(candidate: BigUint, bit_count: usize, rng: &mut StdRng) -> (kept: Option<
    BigUint,
>)
    ensures
        match kept {
            Some(prime) => nat_of(prime) == nat_of(candidate) && acceptable(
                nat_of(candidate),
                ROUNDS as nat,
            ),
            None => !is_prime(nat_of(candidate)) || bit_length(nat_of(candidate)) != bit_count,
        },
        bit_length(nat_of(candidate)) != bit_count ==> kept is None,
{
    if bits(&candidate) == bit_count as u64 && is_probably_prime(&candidate, ROUNDS, rng) {
        Some(candidate)
    } else {
        None
    }
}

/// Searches for a probable prime of exactly `bit_count` bits: draws numbers of
/// up to `bit_count` random bits and returns the first one that
/// [`screen_candidate`] keeps. Gives up after [`MAX_ATTEMPTS`] candidates;
/// below two bits there is nothing to find.
pub fn get_prime(bit_count: usize, rng: &mut StdRng) -> (found: Option<BigUint>)
    ensures
        found matches Some(prime) ==> bit_length(nat_of(prime)) == bit_count && acceptable(
            nat_of(prime),
            ROUNDS as nat,
        ),
        bit_count < 2 ==> found is None,
{
    let mut attempts: u64 = 0;
    while attempts < MAX_ATTEMPTS
        invariant
            attempts <= MAX_ATTEMPTS,
        decreases MAX_ATTEMPTS - attempts,
    {
        let candidate = random_bits(rng, bit_count);
        match screen_candidate(candidate, bit_count, rng) {
            Some(prime) => {
                proof {
                    let v = nat_of(prime);
                    if bit_count < 2 {
                        assert(bit_length(0) == 0);
                        assert(bit_length(1) == 1 + bit_length(0));
                        assert(bit_length(v) == 1 + bit_length(v / 2));
                        assert(bit_length(v / 2) == 1 + bit_length(v / 2 / 2));
                    }
                }
                return Some(prime);
            },
            None => {},
        }
        attempts = attempts + 1;
    }
    None
}

} // verus!
