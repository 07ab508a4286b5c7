use num_bigint::BigUint;
use rand::rngs::StdRng;
use rand::SeedableRng;
use ring_puzzle::cipher::{build_modulus, encrypt, encrypt_with};
use ring_puzzle::natural::is_zero;

fn big(v: u64) -> BigUint {
    BigUint::from(v)
}

#[test]
fn modulus_is_product_of_last_three() {
    assert_eq!(build_modulus(&big(11), &big(13), &big(17), &big(19)), big(4199));
}

#[test]
fn modulus_does_not_depend_on_p() {
    let n = build_modulus(&big(11), &big(13), &big(17), &big(19));
    for p in [0u64, 1, 2, 13, 4199, u64::MAX] {
        assert_eq!(build_modulus(&big(p), &big(13), &big(17), &big(19)), n);
    }
}

#[test]
fn modulus_of_wide_primes_is_exact() {
    let q = (BigUint::from(1u32) << 127u32) - BigUint::from(1u32);
    let r = (BigUint::from(1u32) << 89u32) - BigUint::from(1u32);
    let k = (BigUint::from(1u32) << 61u32) - BigUint::from(1u32);
    let n = build_modulus(&big(5), &q, &r, &k);
    assert_eq!(n, &q * &r * &k);
    assert_eq!(&n % &q, big(0));
    assert_eq!(n.bits(), 277);
}

#[test]
fn worked_example() {
    let (p, q, r, k, s, m) = (big(11), big(13), big(17), big(19), big(23), big(6));
    let n = build_modulus(&p, &q, &r, &k);
    assert_eq!(n, big(4199));
    // term1 = 66, term2 = 13 * 43 * 2 = 1118, term3 = 6 + 11 + 39 = 56, sum = 1241,
    // 1241 * 23 = 28543 = 6 * 4199 + 3349.
    let c = encrypt_with(&m, &s, &p, &q, &n, &big(2), &big(3));
    assert_eq!(c, big(28543 % 4199));
    assert_eq!(c, big(3349));
}

#[test]
fn formula_before_reduction() {
    // With a modulus above the scaled sum nothing is reduced.
    let n = big(1_000_000_007);
    let c = encrypt_with(&big(6), &big(23), &big(11), &big(13), &n, &big(2), &big(3));
    assert_eq!(c, big(28543));
    let c = encrypt_with(&big(6), &big(1), &big(11), &big(13), &n, &big(2), &big(3));
    assert_eq!(c, big(66 + 1118 + 56 + 1));
    // m = 0: p * 0 + q * 1 * r1 + (0 + p + q * r2) + 1.
    let c = encrypt_with(&big(0), &big(1), &big(11), &big(13), &n, &big(5), &big(7));
    assert_eq!(c, big(13 * 5 + 11 + 13 * 7 + 1));
    // q = 0: p * m + m + p + 1, whatever the random numbers.
    let c = encrypt_with(&big(9), &big(1), &big(11), &big(0), &n, &big(5), &big(7));
    assert_eq!(c, big(11 * 9 + 9 + 11 + 1));
}

#[test]
fn same_inputs_same_ciphertext() {
    let n = big(4199);
    let first = encrypt_with(&big(6), &big(23), &big(11), &big(13), &n, &big(2), &big(3));
    let second = encrypt_with(&big(6), &big(23), &big(11), &big(13), &n, &big(2), &big(3));
    assert_eq!(first, second);
}

#[test]
fn another_random_number_changes_the_ciphertext() {
    let n = big(4199);
    let base = encrypt_with(&big(6), &big(23), &big(11), &big(13), &n, &big(2), &big(3));
    let other1 = encrypt_with(&big(6), &big(23), &big(11), &big(13), &n, &big(3), &big(3));
    let other2 = encrypt_with(&big(6), &big(23), &big(11), &big(13), &n, &big(2), &big(4));
    assert_ne!(base, other1);
    assert_ne!(base, other2);
}

#[test]
fn random_numbers_a_multiple_of_the_cofactor_apart_collide() {
    // n = q * r * k, so q * (r * k) * anything vanishes modulo n.
    let n = big(4199);
    let base = encrypt_with(&big(6), &big(23), &big(11), &big(13), &n, &big(2), &big(3));
    let same1 = encrypt_with(&big(6), &big(23), &big(11), &big(13), &n, &big(2 + 17 * 19), &big(3));
    let same2 = encrypt_with(&big(6), &big(23), &big(11), &big(13), &n, &big(2), &big(3 + 17 * 19));
    assert_eq!(base, same1);
    assert_eq!(base, same2);
}

#[test]
fn zero_scalar_gives_zero() {
    let n = big(4199);
    for (r1, r2) in [(0u64, 0u64), (2, 3), (9, 1)] {
        let c = encrypt_with(&big(6), &big(0), &big(11), &big(13), &n, &big(r1), &big(r2));
        assert_eq!(c, big(0));
    }
}

#[test]
fn modulus_one_gives_zero() {
    let c = encrypt_with(&big(6), &big(23), &big(11), &big(13), &big(1), &big(2), &big(3));
    assert_eq!(c, big(0));
}

#[test]
fn wide_operands_are_not_truncated() {
    let m = BigUint::from(1u32) << 600u32;
    let p = (BigUint::from(1u32) << 127u32) - BigUint::from(1u32);
    let q = (BigUint::from(1u32) << 89u32) - BigUint::from(1u32);
    let s = BigUint::from(3u32);
    let n = BigUint::from(1u32) << 2000u32;
    let random1 = BigUint::from(u64::MAX);
    let random2 = BigUint::from(u64::MAX - 1);
    let c = encrypt_with(&m, &s, &p, &q, &n, &random1, &random2);
    let one = BigUint::from(1u32);
    let expected = (&p * &m + &q * (&m * &m + &m + &one) * &random1 + (&m + &p + &q * &random2) + &one) * &s;
    assert!(expected < n);
    assert_eq!(c, expected);
}

#[test]
fn drawn_ciphertext_is_one_of_the_formula() {
    let mut rng = StdRng::seed_from_u64(31);
    let (m, s, p, q) = (big(6), big(23), big(11), big(13));
    // Above every scaled sum with 64-bit random numbers, so the sum can be read back.
    let n = BigUint::from(1u32) << 100u32;
    for _ in 0..10 {
        let c = encrypt(&m, &s, &p, &q, &n, &mut rng);
        assert!(c < n);
        // c = 23 * (66 + 559 * r1 + 17 + 13 * r2 + 1)
        assert_eq!(&c % big(23), big(0));
        let sum = &c / big(23);
        assert!(sum >= big(84));
        let rest = sum - big(84);
        // rest = 13 * (43 * r1 + r2)
        assert_eq!(&rest % big(13), big(0));
    }
}

#[test]
fn drawn_ciphertext_is_below_the_modulus() {
    let mut rng = StdRng::seed_from_u64(32);
    let n = big(4199);
    let mut seen = Vec::new();
    for _ in 0..40 {
        let c = encrypt(&big(6), &big(23), &big(11), &big(13), &n, &mut rng);
        assert!(c < n);
        seen.push(c);
    }
    seen.sort();
    seen.dedup();
    assert!(seen.len() > 1);
}

#[test]
fn zero_is_told_apart() {
    assert!(is_zero(&big(0)));
    assert!(is_zero(&BigUint::from_bytes_be(&[])));
    assert!(is_zero(&BigUint::from_bytes_be(&[0, 0])));
    assert!(!is_zero(&big(1)));
    assert!(!is_zero(&(BigUint::from(1u32) << 300u32)));
}
