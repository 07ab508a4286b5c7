//! The puzzle cipher and its modulus.
//!
//! A plaintext `m` is combined with the primes `p` and `q` and two fresh
//! random numbers into one unreduced sum; the sum is scaled by the secret
//! scalar and only then reduced modulo `n`.

use vstd::prelude::*;
use vstd::arithmetic::power2::pow2;
use vstd::arithmetic::div_mod::{lemma_mod_bound, lemma_mod_equivalence};
use num_bigint::BigUint;
use rand::rngs::StdRng;
use crate::natural::{nat_of, from_u32, sum, product, remainder};
use crate::entropy::random_bits;

verus! {

/// The modulus of a puzzle with primes `p`, `q`, `r`, `k`: the product of the
/// last three. `p` takes no part in it.
pub open spec fn modulus_of(p: nat, q: nat, r: nat, k: nat) -> nat {
    q * r * k
}

/// The unreduced sum that the cipher forms from a plaintext `m`.
pub open spec fn cipher_sum(m: nat, p: nat, q: nat, random1: nat, random2: nat) -> nat {
    p * m + q * (m * m + m + 1) * random1 + (m + p + q * random2) + 1
}

/// The ciphertext of `m` under the secret scalar `s`.
pub open spec fn cipher_value(
    m: nat,
    s: nat,
    p: nat,
    q: nat,
    n: nat,
    random1: nat,
    random2: nat,
) -> nat {
    (cipher_sum(m, p, q, random1, random2) * s) % n
}

/// `c` is a ciphertext of `m`: the value that the cipher gives for some pair
/// of 64-bit random numbers.
pub open spec fn is_ciphertext_of(c: nat, m: nat, s: nat, p: nat, q: nat, n: nat) -> bool {
    exists|random1: nat, random2: nat|
        random1 < pow2(64) && random2 < pow2(64) && c == #[trigger] cipher_value(
            m,
            s,
            p,
            q,
            n,
            random1,
            random2,
        )
}

/// Builds the modulus `q * r * k`.
pub fn build_modulus(p: &BigUint, q: &BigUint, r: &BigUint, k: &BigUint) -> (n: BigUint)
    ensures
        nat_of(n) == modulus_of(nat_of(*p), nat_of(*q), nat_of(*r), nat_of(*k)),
{
    let qr = product(q, r);
    product(&qr, k)
}

/// Encrypts `msg` with the two random numbers given by the caller. The
/// modulus must not be zero.
pub fn encrypt_with(
    msg: &BigUint,
    key: &BigUint,
    p: &BigUint,
    q: &BigUint,
    n: &BigUint,
    random1: &BigUint,
    random2: &BigUint,
) -> (c: BigUint)
    requires
        nat_of(*n) > 0,
    ensures
        nat_of(c) == cipher_value(
            nat_of(*msg),
            nat_of(*key),
            nat_of(*p),
            nat_of(*q),
            nat_of(*n),
            nat_of(*random1),
            nat_of(*random2),
        ),
        nat_of(c) < nat_of(*n),
{
    let m = msg;
    let unit = from_u32(1);

    let term1 = product(p, m);
    let term2_inner = sum(&sum(&product(m, m), m), &unit);
    let term2 = product(&product(q, &term2_inner), random1);
    let term3 = sum(&sum(m, p), &product(q, random2));
    let total = sum(&sum(&sum(&term1, &term2), &term3), &unit);

    proof {
        lemma_mod_bound((nat_of(total) * nat_of(*key)) as int, nat_of(*n) as int);
    }
    remainder(&product(&total, key), n)
}

/// Encrypts `msg`, drawing two fresh 64-bit random numbers from `rng`. The
/// modulus must not be zero.
pub fn encrypt(
    msg: &BigUint,
    key: &BigUint,
    p: &BigUint,
    q: &BigUint,
    n: &BigUint,
    rng: &mut StdRng,
) -> (c: BigUint)
    requires
        nat_of(*n) > 0,
    ensures
        is_ciphertext_of(
            nat_of(c),
            nat_of(*msg),
            nat_of(*key),
            nat_of(*p),
            nat_of(*q),
            nat_of(*n),
        ),
        nat_of(c) < nat_of(*n),
{
    let random1 = random_bits(rng, 64);
    let random2 = random_bits(rng, 64);
    encrypt_with(msg, key, p, q, n, &random1, &random2)
}

/// The modulus does not depend on `p`.
pub proof fn lemma_modulus_ignores_p(p1: nat, p2: nat, q: nat, r: nat, k: nat)
    ensures
        modulus_of(p1, q, r, k) == modulus_of(p2, q, r, k),
        modulus_of(p1, q, r, k) == q * r * k,
{
}

/// The cipher is a function of its seven inputs: equal inputs give equal ciphertexts.
pub proof fn lemma_cipher_repeatable(
    m: nat,
    s: nat,
    p: nat,
    q: nat,
    n: nat,
    random1: nat,
    random2: nat,
    m_again: nat,
    s_again: nat,
    p_again: nat,
    q_again: nat,
    n_again: nat,
    random1_again: nat,
    random2_again: nat,
)
    requires
        m == m_again,
        s == s_again,
        p == p_again,
        q == q_again,
        n == n_again,
        random1 == random1_again,
        random2 == random2_again,
    ensures
        cipher_value(m, s, p, q, n, random1, random2) == cipher_value(
            m_again,
            s_again,
            p_again,
            q_again,
            n_again,
            random1_again,
            random2_again,
        ),
{
}

/// With `q` positive, another first random number gives another unreduced
/// sum, and so does another second random number.
pub proof fn lemma_sum_follows_randoms(
    m: nat,
    p: nat,
    q: nat,
    random1: nat,
    random2: nat,
    other1: nat,
    other2: nat,
)
    requires
        q > 0,
    ensures
        random1 != other1 ==> cipher_sum(m, p, q, random1, random2) != cipher_sum(
            m,
            p,
            q,
            other1,
            random2,
        ),
        random2 != other2 ==> cipher_sum(m, p, q, random1, random2) != cipher_sum(
            m,
            p,
            q,
            random1,
            other2,
        ),
{
    let w = q * (m * m + m + 1);
    assert(w > 0) by (nonlinear_arith)
        requires
            q > 0,
            w == q * (m * m + m + 1),
    ;
    assert(random1 != other1 ==> w * random1 != w * other1) by (nonlinear_arith)
        requires
            w > 0,
    ;
    assert(random2 != other2 ==> q * random2 != q * other2) by (nonlinear_arith)
        requires
            q > 0,
    ;
}

/// Two ciphertexts of one plaintext that differ in the first random number
/// alone are equal exactly when the modulus divides
/// `q * (m * m + m + 1) * (random1 - other1) * s`.
pub proof fn lemma_first_random_changes_ciphertext(
    m: nat,
    s: nat,
    p: nat,
    q: nat,
    n: nat,
    random1: nat,
    other1: nat,
    random2: nat,
)
    requires
        n > 0,
    ensures
        (cipher_value(m, s, p, q, n, random1, random2) == cipher_value(
            m,
            s,
            p,
            q,
            n,
            other1,
            random2,
        )) <==> (q * (m * m + m + 1) * (random1 - other1) * s) % (n as int) == 0,
{
    let a = cipher_sum(m, p, q, random1, random2);
    let b = cipher_sum(m, p, q, other1, random2);
    let w = q * (m * m + m + 1);
    lemma_mod_equivalence((a * s) as int, (b * s) as int, n as int);
    assert(a * s - b * s == w * (random1 - other1) * s) by (nonlinear_arith)
        requires
            a - b == w * random1 - w * other1,
    ;
}

/// Two ciphertexts of one plaintext that differ in the second random number
/// alone are equal exactly when the modulus divides
/// `q * (random2 - other2) * s`.
pub proof fn lemma_second_random_changes_ciphertext(
    m: nat,
    s: nat,
    p: nat,
    q: nat,
    n: nat,
    random1: nat,
    random2: nat,
    other2: nat,
)
    requires
        n > 0,
    ensures
        (cipher_value(m, s, p, q, n, random1, random2) == cipher_value(
            m,
            s,
            p,
            q,
            n,
            random1,
            other2,
        )) <==> (q * (random2 - other2) * s) % (n as int) == 0,
{
    let a = cipher_sum(m, p, q, random1, random2);
    let b = cipher_sum(m, p, q, random1, other2);
    lemma_mod_equivalence((a * s) as int, (b * s) as int, n as int);
    assert(a * s - b * s == q * (random2 - other2) * s) by (nonlinear_arith)
        requires
            a - b == q * random2 - q * other2,
    ;
}

} // verus!
