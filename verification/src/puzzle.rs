//! A whole puzzle: four probable primes, a modulus, a secret scalar, four
//! messages and their ciphertexts, and the payload sealed under the key that
//! the messages give.

use vstd::prelude::*;
use vstd::arithmetic::power2::pow2;
use vstd::string::{StringSliceAdditionalSpecFns, is_ascii, is_ascii_spec_bytes};
use num_bigint::BigUint;
use rand::rngs::StdRng;
use crate::natural::{nat_of, bit_length, be_value, be_bytes, from_bytes_be};
use crate::encoding::lemma_message_survives;
use crate::entropy::random_bits;
use crate::number_theory::acceptable;
use crate::primality::{ROUNDS, get_prime};
use crate::cipher::{modulus_of, is_ciphertext_of, build_modulus, encrypt};
use crate::message::{is_message_for, random_message};
use crate::keys::{key_of, iv_of, derive_key};
use crate::payload::{PayloadError, MAX_PAYLOAD_LEN, aes128_cbc, aes_cbc_encrypt};

verus! {

/// The bit length of the primes and of the secret scalar in a full-size puzzle.
pub const PRIME_BITS: usize = 1024;

/// The phrase that the message at `index` may start with. There are four;
/// every index from three on has the last one.
pub open spec fn phrase_text(index: int) -> &'static str {
    if index == 0 {
        "One Ring to rule them all"
    } else if index == 1 {
        "One Ring to find them"
    } else if index == 2 {
        "One Ring to bring them all"
    } else {
        "and in the darkness bind them"
    }
}

/// The phrase that the message at `index` may start with: [`phrase_text`].
pub fn phrase(index: usize) -> (text: &'static str)
    ensures
        text == phrase_text(index as int),
{
    if index == 0 {
        "One Ring to rule them all"
    } else if index == 1 {
        "One Ring to find them"
    } else if index == 2 {
        "One Ring to bring them all"
    } else {
        "and in the darkness bind them"
    }
}

/// Why no puzzle was generated.
#[derive(Clone, Copy, Debug, PartialEq, Eq, Structural)]
pub enum PuzzleError {
    /// The search for a prime gave up.
    PrimeSearchExhausted,
    /// The payload could not be encrypted.
    Payload(PayloadError),
}

/// What a solver is given.
#[derive(Debug)]
pub struct Puzzle {
    pub q: BigUint,
    pub c1: BigUint,
    pub c2: BigUint,
    pub c3: BigUint,
    pub c4: BigUint,
    pub sealed_payload: Vec<u8>,
}

/// What a solver has to find.
#[derive(Debug)]
pub struct Secrets {
    pub p: BigUint,
    pub r: BigUint,
    pub k: BigUint,
    pub s: BigUint,
    pub m1: BigUint,
    pub m2: BigUint,
    pub m3: BigUint,
    pub m4: BigUint,
}

/// `n` may come out of the prime search for `bit_count` bits.
pub open spec fn is_found_prime(n: nat, bit_count: nat) -> bool {
    bit_length(n) == bit_count && acceptable(n, ROUNDS as nat)
}

/// `m` is the number of a message that may be drawn at `index`.
pub open spec fn is_plaintext(m: nat, index: int) -> bool {
    exists|message: Seq<u8>| #[trigger]
        is_message_for(message, phrase_text(index).spec_bytes()) && m == be_value(message)
}

/// The secrets and the published values belong together: the ciphertexts are
/// ciphertexts of the plaintexts under the secret scalar and the modulus of
/// the primes, and the payload is sealed under the key of the plaintexts.
pub open spec fn belong_together(
    puzzle: Puzzle,
    secrets: Secrets,
    payload: Seq<u8>,
    bit_count: nat,
) -> bool {
    let p = nat_of(secrets.p);
    let q = nat_of(puzzle.q);
    let r = nat_of(secrets.r);
    let k = nat_of(secrets.k);
    let s = nat_of(secrets.s);
    let n = modulus_of(p, q, r, k);
    let m1 = nat_of(secrets.m1);
    let m2 = nat_of(secrets.m2);
    let m3 = nat_of(secrets.m3);
    let m4 = nat_of(secrets.m4);
    &&& is_found_prime(p, bit_count)
    &&& is_found_prime(q, bit_count)
    &&& is_found_prime(r, bit_count)
    &&& is_found_prime(k, bit_count)
    &&& s < pow2(bit_count)
    &&& is_plaintext(m1, 0)
    &&& is_plaintext(m2, 1)
    &&& is_plaintext(m3, 2)
    &&& is_plaintext(m4, 3)
    &&& is_ciphertext_of(nat_of(puzzle.c1), m1, s, p, q, n)
    &&& is_ciphertext_of(nat_of(puzzle.c2), m2, s, p, q, n)
    &&& is_ciphertext_of(nat_of(puzzle.c3), m3, s, p, q, n)
    &&& is_ciphertext_of(nat_of(puzzle.c4), m4, s, p, q, n)
    &&& nat_of(puzzle.c1) < n && nat_of(puzzle.c2) < n && nat_of(puzzle.c3) < n && nat_of(
        puzzle.c4,
    ) < n
    &&& puzzle.sealed_payload@ == aes128_cbc(
        payload,
        key_of(m1, m2, m3, m4),
        iv_of(m1, m2, m3, m4),
    )
}

/// No phrase starts with a zero byte.
proof fn lemma_phrase_starts_nonzero(index: int)
    ensures
        phrase_text(index).spec_bytes().len() > 0,
        phrase_text(index).spec_bytes()[0] != 0,
{
    reveal_strlit("One Ring to rule them all");
    reveal_strlit("One Ring to find them");
    reveal_strlit("One Ring to bring them all");
    reveal_strlit("and in the darkness bind them");
    let text = phrase_text(index);
    assert(is_ascii(text));
    is_ascii_spec_bytes(text);
    assert(text.spec_bytes()[0] == text@[0] as u8);
}

/// The shortest encoding of a plaintext is a message for its phrase: what
/// the key is hashed from is the four messages as they were drawn.
pub proof fn lemma_plaintext_bytes_are_message(m: nat, index: int)
    requires
        is_plaintext(m, index),
    ensures
        is_message_for(be_bytes(m), phrase_text(index).spec_bytes()),
{
    let phrase_bytes = phrase_text(index).spec_bytes();
    let message = choose|message: Seq<u8>| #[trigger]
        is_message_for(message, phrase_bytes) && m == be_value(message);
    lemma_phrase_starts_nonzero(index);
    lemma_message_survives(message, phrase_bytes);
}

/// Draws the message at `index` and reads it as a big-endian number.
pub fn draw_plaintext(index: usize, rng: &mut StdRng) -> (m: BigUint)
    ensures
        is_plaintext(nat_of(m), index as int),
{
    let message = random_message(phrase(index).as_bytes(), rng);
    from_bytes_be(message.as_slice())
}

/// Generates a puzzle for `payload` with primes, and a secret scalar, of
/// `bit_count` bits.
///
/// A payload that is too long is refused at once. The search for each prime
/// may give up, which is certain below two bits, and the cipher library may
/// fail; whatever is returned as a puzzle is consistent with its secrets.
pub fn generate_puzzle(payload: &[u8], bit_count: usize, rng: &mut StdRng) -> (r: Result<
    (Puzzle, Secrets),
    PuzzleError,
>)
    ensures
        payload@.len() > MAX_PAYLOAD_LEN ==> r == Err::<(Puzzle, Secrets), PuzzleError>(
            PuzzleError::Payload(PayloadError::PayloadTooLong),
        ),
        payload@.len() <= MAX_PAYLOAD_LEN && bit_count < 2 ==> r == Err::<
            (Puzzle, Secrets),
            PuzzleError,
        >(PuzzleError::PrimeSearchExhausted),
        match r {
            Ok(pair) => belong_together(pair.0, pair.1, payload@, bit_count as nat),
            Err(PuzzleError::PrimeSearchExhausted) => payload@.len() <= MAX_PAYLOAD_LEN,
            Err(PuzzleError::Payload(error)) => error == PayloadError::Cipher || (error
                == PayloadError::PayloadTooLong && payload@.len() > MAX_PAYLOAD_LEN),
        },
{
    if payload.len() > MAX_PAYLOAD_LEN {
        return Err(PuzzleError::Payload(PayloadError::PayloadTooLong));
    }
    let p = match get_prime(bit_count, rng) {
        Some(prime) => prime,
        None => { return Err(PuzzleError::PrimeSearchExhausted); },
    };
    let q = match get_prime(bit_count, rng) {
        Some(prime) => prime,
        None => { return Err(PuzzleError::PrimeSearchExhausted); },
    };
    let r = match get_prime(bit_count, rng) {
        Some(prime) => prime,
        None => { return Err(PuzzleError::PrimeSearchExhausted); },
    };
    let k = match get_prime(bit_count, rng) {
        Some(prime) => prime,
        None => { return Err(PuzzleError::PrimeSearchExhausted); },
    };
    let n = build_modulus(&p, &q, &r, &k);
    proof {
        let (qn, rn, kn) = (nat_of(q), nat_of(r), nat_of(k));
        assert(qn * rn * kn > 0) by (nonlinear_arith)
            requires
                qn >= 2,
                rn >= 2,
                kn >= 2,
        ;
    }
    let s = random_bits(rng, bit_count);

    let m1 = draw_plaintext(0, rng);
    let m2 = draw_plaintext(1, rng);
    let m3 = draw_plaintext(2, rng);
    let m4 = draw_plaintext(3, rng);

    let c1 = encrypt(&m1, &s, &p, &q, &n, rng);
    let c2 = encrypt(&m2, &s, &p, &q, &n, rng);
    let c3 = encrypt(&m3, &s, &p, &q, &n, rng);
    let c4 = encrypt(&m4, &s, &p, &q, &n, rng);

    let material = derive_key(&m1, &m2, &m3, &m4);
    match aes_cbc_encrypt(payload, material.key.as_slice(), material.iv.as_slice()) {
        Ok(sealed_payload) => Ok(
            (Puzzle { q, c1, c2, c3, c4, sealed_payload }, Secrets { p, r, k, s, m1, m2, m3, m4 }),
        ),
        Err(error) => Err(PuzzleError::Payload(error)),
    }
}

} // verus!
