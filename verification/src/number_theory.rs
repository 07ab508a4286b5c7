//! The arithmetic behind the primality test: what a prime is, what it means
//! for a number to pass a witness, and why a prime passes every one.

use vstd::prelude::*;
use vstd::arithmetic::power::*;
use vstd::arithmetic::power2::*;
use vstd::arithmetic::div_mod::*;
use vstd::arithmetic::mul::*;
use crate::natural::bit_length;

verus! {

/// `n` is prime: at least two, and no number strictly between one and `n` divides it.
pub open spec fn is_prime(n: nat) -> bool {
    n >= 2 && forall|k: nat| 1 < k < n ==> #[trigger] (n % k) != 0
}

/// `a ^ (d * 2^j) mod n`: the `j`-th term of the squaring chain that starts at `a ^ d`.
pub open spec fn chain_term(n: nat, d: nat, a: nat, j: nat) -> int {
    pow(a as int, d * pow2(j)) % (n as int)
}

/// `n` passes the witness `a` for the exponent `d` and `r` squarings: the chain
/// starts at one, or one of its first `r` terms is `n - 1`.
pub open spec fn passes_witness(n: nat, d: nat, r: nat, a: nat) -> bool {
    chain_term(n, d, a, 0) == 1 || exists|j: nat| j < r && #[trigger] chain_term(n, d, a, j) == n - 1
}

/// The odd part of `m`: what is left when every factor two is taken out.
pub open spec fn odd_part(m: nat) -> nat
    decreases m,
{
    if m == 0 || m % 2 == 1 {
        m
    } else {
        odd_part(m / 2)
    }
}

/// The number of factors two in `m`, none for zero.
pub open spec fn two_exponent(m: nat) -> nat
    decreases m,
{
    if m == 0 || m % 2 == 1 {
        0
    } else {
        1 + two_exponent(m / 2)
    }
}

/// `n` passes the witness `a` in a round of the test, which splits `n - 1`
/// into its odd part and a power of two.
pub open spec fn passes_round(n: nat, a: nat) -> bool {
    passes_witness(n, odd_part((n - 1) as nat), two_exponent((n - 1) as nat), a)
}

/// What the test decides before it draws any witness: two and three are
/// accepted, every other number below five and every even number is rejected.
pub open spec fn passes_screening(n: nat) -> bool {
    n == 2 || n == 3 || (n >= 5 && n % 2 == 1)
}

/// The test accepts `n` when it draws these witnesses: `n` passes the
/// screening, and from five on each witness lies in `2 .. n - 2` and `n`
/// passes it.
pub open spec fn accepted_with(n: nat, witnesses: Seq<nat>) -> bool {
    passes_screening(n) && (n >= 5 ==> forall|i: int|
        0 <= i < witnesses.len() ==> 2 <= #[trigger] witnesses[i] < n - 2 && passes_round(
            n,
            witnesses[i],
        ))
}

/// Some draw of `rounds` witnesses makes the test accept `n`.
pub open spec fn acceptable(n: nat, rounds: nat) -> bool {
    exists|witnesses: Seq<nat>| witnesses.len() == rounds && #[trigger] accepted_with(n, witnesses)
}

/// A positive number lies between the two powers of two around its bit length.
pub proof fn lemma_bit_length_bounds(n: nat)
    ensures
        n < pow2(bit_length(n)),
        n > 0 ==> pow2((bit_length(n) - 1) as nat) <= n,
    decreases n,
{
    if n == 0 {
        lemma_pow2_pos(0);
    } else {
        lemma_bit_length_bounds(n / 2);
        lemma_pow2_unfold(bit_length(n));
        if n / 2 > 0 {
            lemma_pow2_unfold((bit_length(n) - 1) as nat);
        } else {
            lemma2_to64();
        }
    }
}

/// The next term of the chain is the square of the current one, reduced.
pub proof fn lemma_chain_step(n: nat, d: nat, a: nat, j: nat)
    requires
        n > 0,
    ensures
        chain_term(n, d, a, j + 1) == pow(chain_term(n, d, a, j), 2) % (n as int),
        chain_term(n, d, a, j + 1) == (chain_term(n, d, a, j) * chain_term(n, d, a, j)) % (
        n as int),
{
    let e = d * pow2(j);
    let b = pow(a as int, e);
    lemma_pow2_unfold(j + 1);
    assert(d * pow2(j + 1) == e * 2) by (nonlinear_arith)
        requires
            pow2(j + 1) == 2 * pow2(j),
            e == d * pow2(j),
    ;
    lemma_pow_multiplies(a as int, e, 2);
    lemma_pow_mod_noop(b, 2, n as int);
    lemma_square_is_pow2(b % (n as int));
}


/// Euclid's lemma for a factor below the prime: if `p` divides `a * b` and
/// `0 < a < p`, then `p` divides `b`.
proof fn lemma_euclid_below(p: nat, a: nat, b: nat)
    requires
        is_prime(p),
        0 < a < p,
        (a * b) % p == 0,
    ensures
        b % p == 0,
    decreases a,
{
    if a == 1 {
        assert(a * b == b) by (nonlinear_arith)
            requires
                a == 1,
        ;
    } else {
        let t = p % a;
        let u = p / a;
        let c = (a * b) / p;
        assert(p % a != 0);
        lemma_fundamental_div_mod(p as int, a as int);
        lemma_mod_pos_bound(p as int, a as int);
        lemma_fundamental_div_mod((a * b) as int, p as int);
        assert(t * b == (b - u * c) * p) by (nonlinear_arith)
            requires
                p == a * u + t,
                a * b == p * c,
        ;
        lemma_mod_multiples_basic(b - u * c, p as int);
        lemma_euclid_below(p, t, b);
    }
}

/// Euclid's lemma: a prime that divides a product divides one of its factors.
pub proof fn lemma_euclid(p: nat, a: nat, b: nat)
    requires
        is_prime(p),
        (a * b) % p == 0,
    ensures
        a % p == 0 || b % p == 0,
{
    if a % p != 0 {
        lemma_mul_mod_noop_left(a as int, b as int, p as int);
        lemma_mod_pos_bound(a as int, p as int);
        lemma_euclid_below(p, a % p, b);
    }
}

/// A number below a prime whose square leaves the remainder one is one or `p - 1`.
pub proof fn lemma_square_root_of_one(p: nat, x: nat)
    requires
        is_prime(p),
        x < p,
        (x * x) % p == 1,
    ensures
        x == 1 || x == p - 1,
{
    if x == 0 {
        assert(x * x == 0) by (nonlinear_arith)
            requires
                x == 0,
        ;
        lemma_small_mod(0, p);
    } else {
        let low = (x - 1) as nat;
        let high = x + 1;
        let c = (x * x) / p;
        lemma_fundamental_div_mod((x * x) as int, p as int);
        assert(low * high == c * p) by (nonlinear_arith)
            requires
                x * x == p * c + 1,
                low == x - 1,
                high == x + 1,
        ;
        lemma_mod_multiples_basic(c as int, p as int);
        lemma_euclid(p, low, high);
        if low % p == 0 {
            lemma_small_mod(low, p);
        } else {
            if high < p {
                lemma_small_mod(high, p);
            }
        }
    }
}


/// `n!`.
pub open spec fn factorial(n: nat) -> nat
    decreases n,
{
    if n == 0 {
        1
    } else {
        n * factorial((n - 1) as nat)
    }
}

/// The product of the numbers in `s`; the empty product is one.
pub open spec fn product_of(s: Seq<int>) -> int
    decreases s.len(),
{
    if s.len() == 0 {
        1
    } else {
        product_of(s.drop_last()) * s.last()
    }
}

/// The first `len` nonzero multiples of `a`, each reduced modulo `p`.
pub open spec fn reduced_multiples(a: nat, p: nat, len: nat) -> Seq<int> {
    Seq::new(len, |i: int| (a * (i + 1)) % (p as int))
}

/// Any one factor can be taken out of a product.
proof fn lemma_product_without(s: Seq<int>, k: int)
    requires
        0 <= k < s.len(),
    ensures
        product_of(s) == s[k] * product_of(s.remove(k)),
    decreases s.len(),
{
    if k == s.len() - 1 {
        assert(s.remove(k) =~= s.drop_last());
        lemma_mul_is_commutative(s[k], product_of(s.drop_last()));
    } else {
        let front = s.drop_last();
        lemma_product_without(front, k);
        assert(front.remove(k) =~= s.remove(k).drop_last());
        assert(s.remove(k).last() == s.last());
        lemma_mul_is_associative(s[k], product_of(front.remove(k)), s.last());
    }
}

/// Distinct numbers from `1 ..= n` are at most `n`, and `n` of them multiply to `n!`.
proof fn lemma_product_of_distinct(s: Seq<int>, n: nat)
    requires
        forall|i: int| 0 <= i < s.len() ==> 1 <= #[trigger] s[i] <= n,
        forall|i: int, j: int| 0 <= i < j < s.len() ==> s[i] != s[j],
    ensures
        s.len() <= n,
        s.len() == n ==> product_of(s) == factorial(n),
    decreases n,
{
    if n == 0 {
        if s.len() > 0 {
            assert(1 <= s[0] <= 0);
        }
    } else if exists|k: int| 0 <= k < s.len() && s[k] == n {
        let k = choose|k: int| 0 <= k < s.len() && s[k] == n;
        let rest = s.remove(k);
        assert forall|i: int| 0 <= i < rest.len() implies 1 <= #[trigger] rest[i] <= n - 1 by {
            if i < k {
                assert(rest[i] == s[i]);
            } else {
                assert(rest[i] == s[i + 1]);
            }
        }
        assert forall|i: int, j: int| 0 <= i < j < rest.len() implies rest[i] != rest[j] by {
            let si = if i < k { i } else { i + 1 };
            let sj = if j < k { j } else { j + 1 };
            assert(rest[i] == s[si] && rest[j] == s[sj]);
        }
        lemma_product_of_distinct(rest, (n - 1) as nat);
        lemma_product_without(s, k);
    } else {
        lemma_product_of_distinct(s, (n - 1) as nat);
    }
}

/// Modulo `p`, the product of the first `len` reduced multiples of `a` is
/// `a ^ len * len!`.
proof fn lemma_product_of_multiples(a: nat, p: nat, len: nat)
    requires
        p > 0,
    ensures
        product_of(reduced_multiples(a, p, len)) % (p as int) == (pow(a as int, len) * factorial(
            len,
        )) % (p as int),
    decreases len,
{
    let m = p as int;
    if len == 0 {
        lemma_pow0(a as int);
    } else {
        let prev = (len - 1) as nat;
        let s = reduced_multiples(a, p, len);
        let front = reduced_multiples(a, p, prev);
        assert(s.drop_last() =~= front);
        lemma_product_of_multiples(a, p, prev);
        let x = product_of(front);
        let y = pow(a as int, prev) * factorial(prev);
        let step = (a * len) as int;
        assert(s.last() == step % m);
        lemma_mul_mod_noop_right(x, step, m);
        lemma_mul_mod_noop_left(x, step, m);
        lemma_mul_mod_noop_left(y, step, m);
        assert(product_of(s) % m == (y * step) % m);
        reveal(pow);
        assert(pow(a as int, len) == a * pow(a as int, prev));
        assert(y * step == pow(a as int, len) * factorial(len)) by (nonlinear_arith)
            requires
                step == a * len,
                y == pow(a as int, prev) * factorial(prev),
                pow(a as int, len) == a * pow(a as int, prev),
                factorial(len) == len * factorial(prev),
        ;
    }
}

/// A prime divides no factorial of a smaller number.
proof fn lemma_factorial_not_divisible(p: nat, n: nat)
    requires
        is_prime(p),
        n < p,
    ensures
        factorial(n) % p != 0,
    decreases n,
{
    if n == 0 {
        lemma_small_mod(1, p);
    } else {
        lemma_factorial_not_divisible(p, (n - 1) as nat);
        if factorial(n) % p == 0 {
            lemma_euclid(p, n, factorial((n - 1) as nat));
            lemma_small_mod(n, p);
        }
    }
}

/// Fermat's little theorem: a prime `p` and a number `a` that it does not
/// divide satisfy `a ^ (p - 1) mod p == 1`.
pub proof fn lemma_fermat(p: nat, a: nat)
    requires
        is_prime(p),
        a % p != 0,
    ensures
        pow(a as int, (p - 1) as nat) % (p as int) == 1,
{
    let m = p as int;
    let len = (p - 1) as nat;
    let s = reduced_multiples(a, p, len);
    assert forall|i: int| 0 <= i < s.len() implies 1 <= #[trigger] s[i] <= len by {
        lemma_mod_pos_bound(a * (i + 1), m);
        if s[i] == 0 {
            lemma_euclid(p, a, (i + 1) as nat);
            lemma_small_mod((i + 1) as nat, p);
        }
    }
    assert forall|i: int, j: int| 0 <= i < j < s.len() implies s[i] != s[j] by {
        if s[i] == s[j] {
            let gap = (j - i) as nat;
            lemma_mod_equivalence(a * (j + 1), a * (i + 1), m);
            assert(a * (j + 1) - a * (i + 1) == a * gap) by (nonlinear_arith)
                requires
                    gap == j - i,
            ;
            lemma_euclid(p, a, gap);
            lemma_small_mod(gap, p);
        }
    }
    lemma_product_of_distinct(s, len);
    lemma_product_of_multiples(a, p, len);
    let f = factorial(len);
    let e = pow(a as int, len);
    // f % p == (e * f) % p
    assert(a > 0) by {
        if a == 0 {
            lemma_small_mod(0, p);
        }
    }
    lemma_pow_positive(a as int, len);
    let excess = (e - 1) as nat;
    lemma_mod_equivalence(e * f, f as int, m);
    assert(e * f - f == excess * f) by (nonlinear_arith)
        requires
            excess == e - 1,
    ;
    lemma_euclid(p, excess, f);
    lemma_factorial_not_divisible(p, len);
    assert(excess % p == 0);
    lemma_fundamental_div_mod(excess as int, m);
    lemma_fundamental_div_mod_converse(e, m, (excess as int) / m, 1);
}

/// A chain that reaches one either started at one or passed through `p - 1`.
proof fn lemma_chain_descends(p: nat, d: nat, a: nat, j: nat)
    requires
        is_prime(p),
        chain_term(p, d, a, j) == 1,
    ensures
        chain_term(p, d, a, 0) == 1 || exists|i: nat|
            i < j && #[trigger] chain_term(p, d, a, i) == p - 1,
    decreases j,
{
    if j > 0 {
        let prev = (j - 1) as nat;
        let x = chain_term(p, d, a, prev);
        lemma_mod_bound(pow(a as int, d * pow2(prev)), p as int);
        lemma_chain_step(p, d, a, prev);
        lemma_square_root_of_one(p, x as nat);
        if x == 1 {
            lemma_chain_descends(p, d, a, prev);
        } else {
            assert(prev < j && chain_term(p, d, a, prev) == p - 1);
        }
    }
}

/// A prime passes every witness that it does not divide: with
/// `p - 1 == d * 2^r`, either `a ^ d` leaves the remainder one, or one of
/// the first `r` terms of the squaring chain is `p - 1`.
pub proof fn lemma_prime_passes_witness(p: nat, d: nat, r: nat, a: nat)
    requires
        is_prime(p),
        d * pow2(r) == p - 1,
        a % p != 0,
    ensures
        passes_witness(p, d, r, a),
{
    lemma_fermat(p, a);
    lemma_chain_descends(p, d, a, r);
}

} // verus!
