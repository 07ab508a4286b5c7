use num_bigint::BigUint;
use rand::rngs::StdRng;
use rand::SeedableRng;
use ring_puzzle::primality::{get_prime, is_probably_prime, split_odd_part, witness_passes, ROUNDS};

fn big(v: u64) -> BigUint {
    BigUint::from(v)
}

fn divides_nothing_below(n: u64) -> bool {
    if n < 2 {
        return false;
    }
    let mut d = 2;
    while d * d <= n {
        if n % d == 0 {
            return false;
        }
        d += 1;
    }
    true
}

#[test]
fn small_primes_are_accepted() {
    let mut rng = StdRng::seed_from_u64(7);
    for n in [2u64, 3, 5, 7, 11, 13, 17, 19, 23, 29, 31, 37, 41, 43, 47, 53, 59, 61, 67, 71, 73, 79, 83, 89, 97] {
        assert!(is_probably_prime(&big(n), 20, &mut rng), "{} is prime", n);
    }
}

#[test]
fn small_composites_are_rejected() {
    let mut rng = StdRng::seed_from_u64(7);
    for n in [4u64, 6, 8, 9, 10, 12, 14, 15, 16, 18, 20, 21, 22, 24, 25, 26, 27, 28, 30, 33, 35, 49, 51, 55, 57, 63, 65, 77, 85, 87, 91, 93, 95, 99] {
        assert!(!is_probably_prime(&big(n), 20, &mut rng), "{} is composite", n);
    }
}

#[test]
fn zero_and_one_are_rejected() {
    let mut rng = StdRng::seed_from_u64(1);
    assert!(!is_probably_prime(&big(0), 20, &mut rng));
    assert!(!is_probably_prime(&big(1), 20, &mut rng));
    assert!(!is_probably_prime(&big(0), 0, &mut rng));
    assert!(!is_probably_prime(&big(1), 0, &mut rng));
}

#[test]
fn two_and_three_are_accepted_with_any_round_count() {
    let mut rng = StdRng::seed_from_u64(1);
    for rounds in [0usize, 1, 20] {
        assert!(is_probably_prime(&big(2), rounds, &mut rng));
        assert!(is_probably_prime(&big(3), rounds, &mut rng));
    }
}

#[test]
fn five_has_a_witness_to_draw() {
    let mut rng = StdRng::seed_from_u64(3);
    for _ in 0..50 {
        assert!(is_probably_prime(&big(5), 3, &mut rng));
    }
}

#[test]
fn no_prime_below_two_thousand_is_rejected() {
    let mut rng = StdRng::seed_from_u64(11);
    for n in 0u64..2000 {
        if divides_nothing_below(n) {
            for rounds in [1usize, 2, 5] {
                assert!(is_probably_prime(&big(n), rounds, &mut rng), "{} is prime", n);
            }
        }
    }
}

#[test]
fn agrees_with_trial_division_below_two_thousand() {
    let mut rng = StdRng::seed_from_u64(5);
    for n in 0u64..2000 {
        assert_eq!(is_probably_prime(&big(n), 20, &mut rng), divides_nothing_below(n), "n = {}", n);
    }
}

#[test]
fn large_known_prime_and_composite() {
    let mut rng = StdRng::seed_from_u64(13);
    // 2^127 - 1 is prime, 2^128 + 1 is not.
    let mersenne = (BigUint::from(1u32) << 127u32) - BigUint::from(1u32);
    let fermat = (BigUint::from(1u32) << 128u32) + BigUint::from(1u32);
    assert!(is_probably_prime(&mersenne, 20, &mut rng));
    assert!(!is_probably_prime(&fermat, 20, &mut rng));
    // A Carmichael number passes the Fermat test for every coprime base, not this one.
    assert!(!is_probably_prime(&big(561), 20, &mut rng));
    assert!(!is_probably_prime(&big(41041), 20, &mut rng));
}

#[test]
fn without_rounds_only_the_screening_decides() {
    let mut rng = StdRng::seed_from_u64(1);
    assert!(is_probably_prime(&big(9), 0, &mut rng));
    assert!(is_probably_prime(&big(15), 0, &mut rng));
    assert!(!is_probably_prime(&big(4), 0, &mut rng));
    assert!(!is_probably_prime(&big(10), 0, &mut rng));
}

#[test]
fn odd_part_and_exponent() {
    assert_eq!(split_odd_part(big(40)), (big(5), 3));
    assert_eq!(split_odd_part(big(1)), (big(1), 0));
    assert_eq!(split_odd_part(big(7)), (big(7), 0));
    assert_eq!(split_odd_part(big(96)), (big(3), 5));
    assert_eq!(split_odd_part(big(1024)), (big(1), 10));
    let wide = BigUint::from(9u32) << 200u32;
    assert_eq!(split_odd_part(wide), (big(9), 200));
}

#[test]
fn odd_part_times_power_gives_the_number_back() {
    for m in 1u64..500 {
        let (d, r) = split_odd_part(big(m));
        assert_eq!(d.clone() << r, big(m));
        assert!(d.bit(0));
    }
}

#[test]
fn strong_liar_passes_and_true_witness_fails() {
    // 24 = 3 * 2^3; 7^3 = 18 and 18^2 = 24 modulo 25.
    assert!(witness_passes(&big(25), &big(3), 3, &big(7)));
    assert!(witness_passes(&big(25), &big(3), 3, &big(18)));
    assert!(!witness_passes(&big(25), &big(3), 3, &big(2)));
    // 8 = 1 * 2^3; no base strictly between 1 and 8 passes for 9.
    for a in 2u64..7 {
        assert!(!witness_passes(&big(9), &big(1), 3, &big(a)));
    }
}

#[test]
fn witness_round_follows_the_chain() {
    // n = 13: 12 = 3 * 2^2. 2^3 = 8, 8^2 = 64 = 12 modulo 13: passes at the second term.
    assert!(witness_passes(&big(13), &big(3), 2, &big(2)));
    // With one term only, 8 is neither 1 nor 12.
    assert!(!witness_passes(&big(13), &big(3), 1, &big(2)));
    // 3^3 = 27 = 1 modulo 13: passes at once.
    assert!(witness_passes(&big(13), &big(3), 2, &big(3)));
    // 5^3 = 125 = 8 modulo 13, then 12.
    assert!(witness_passes(&big(13), &big(3), 2, &big(5)));
    // 12^3 = -1 modulo 13.
    assert!(witness_passes(&big(13), &big(3), 1, &big(12)));
}

#[test]
fn every_base_passes_for_a_prime() {
    for p in [5u64, 7, 13, 17, 97, 193, 257] {
        let (d, r) = split_odd_part(big(p - 1));
        for a in 1..p {
            assert!(witness_passes(&big(p), &d, r, &big(a)), "p = {}, a = {}", p, a);
        }
    }
}

#[test]
fn found_prime_has_the_requested_length() {
    let mut rng = StdRng::seed_from_u64(21);
    for bit_count in [2usize, 3, 8, 16, 31, 32, 33, 64, 65, 128] {
        let prime = get_prime(bit_count, &mut rng).expect("a prime of this length exists");
        assert_eq!(prime.bits(), bit_count as u64);
        assert!(prime.bit(bit_count as u64 - 1));
        assert!(is_probably_prime(&prime, ROUNDS, &mut rng));
    }
}

#[test]
fn found_small_primes_are_prime() {
    let mut rng = StdRng::seed_from_u64(22);
    for _ in 0..20 {
        let prime = get_prime(20, &mut rng).expect("a prime of this length exists");
        let digits = prime.to_u64_digits();
        assert_eq!(digits.len(), 1);
        assert!(divides_nothing_below(digits[0]));
        assert!(digits[0] >= 1 << 19 && digits[0] < 1 << 20);
    }
}

#[test]
fn two_bit_primes_are_two_or_three() {
    let mut rng = StdRng::seed_from_u64(23);
    for _ in 0..20 {
        let prime = get_prime(2, &mut rng).expect("two and three have two bits");
        assert!(prime == big(2) || prime == big(3));
    }
}

#[test]
fn no_prime_has_fewer_than_two_bits() {
    let mut rng = StdRng::seed_from_u64(24);
    assert_eq!(get_prime(0, &mut rng), None);
    assert_eq!(get_prime(1, &mut rng), None);
}

#[test]
fn full_size_prime() {
    let mut rng = StdRng::seed_from_u64(25);
    let prime = get_prime(1024, &mut rng).expect("a 1024-bit prime is found");
    assert_eq!(prime.bits(), 1024);
    assert!(prime.bit(0));
}
