use glass_pumpkin::bignat::BigNat;
use glass_pumpkin::error::PrimeError;
use glass_pumpkin::prime::{
    check, check_with, from_rng, new, strong_check, strong_check_with, try_check, try_check_with,
};
use glass_pumpkin::random::RandomSource;
use num_bigint::BigUint;
use rand_chacha::rand_core::{RngCore, SeedableRng};
use rand_chacha::ChaCha8Rng;

struct Seeded(ChaCha8Rng);

impl RandomSource for Seeded {
    fn random_bytes(&mut self, count: usize) -> Option<Vec<u8>> {
        let mut buf = vec![0u8; count];
        self.0.fill_bytes(&mut buf);
        Some(buf)
    }
}

struct Broken;

impl RandomSource for Broken {
    fn random_bytes(&mut self, _count: usize) -> Option<Vec<u8>> {
        None
    }
}

fn big(n: u64) -> BigNat {
    BigNat::from_u64(n)
}

#[test]
fn prime_tests() {
    for bits in &[128, 256, 512, 1024] {
        let n = new(*bits).unwrap();
        assert!(check(&n));
        assert!(strong_check(&n));
    }
}

#[test]
fn new_prime_has_exact_bit_length_and_is_odd() {
    for bits in &[128usize, 256, 512, 1024] {
        let n = new(*bits).unwrap();
        let v = BigUint::new(n.to_digits());
        assert_eq!(v.bits(), *bits as u64);
        assert!(v.bit(0));
    }
}

#[test]
fn even_numbers_fail_check() {
    for n in &[4u64, 6, 100, 1 << 40, 17864 * 2] {
        assert!(!check(&big(*n)));
        assert!(!strong_check(&big(*n)));
    }
}

#[test]
fn two_and_small_primes_pass() {
    assert!(check(&big(2)));
    assert!(strong_check(&big(2)));
    for n in &[3u64, 5, 7, 11, 13, 17863] {
        assert!(check(&big(*n)));
        assert!(strong_check(&big(*n)));
    }
}

#[test]
fn zero_and_one_fail() {
    assert!(!check(&big(0)));
    assert!(!check(&big(1)));
    assert!(!strong_check(&big(0)));
    assert!(!strong_check(&big(1)));
}

#[test]
fn composites_with_small_factors_fail() {
    for n in &[15u64, 91, 341, 561, 17863 * 17863] {
        assert!(!check(&big(*n)));
        assert!(!strong_check(&big(*n)));
    }
}

#[test]
fn pseudoprimes_fail_strong_check() {
    // strong pseudoprimes to base two, and strong Lucas pseudoprimes
    for n in &[2047u64, 3277, 4033, 4681, 8321, 5459, 5777, 10877, 16109, 18971] {
        assert!(!strong_check(&big(*n)));
    }
    // strong pseudoprimes to many bases, free of small factors
    assert!(!strong_check(&big(3825123056546413051)));
    let n = BigNat::from_digits(vec![4236621797, 3911718905, 17274]);
    assert!(!strong_check(&n));
}

#[test]
fn large_known_primes_pass() {
    // 2^61 - 1 and 2^89 - 1
    assert!(strong_check(&big((1u64 << 61) - 1)));
    assert!(check(&big((1u64 << 61) - 1)));
    let m89 = BigNat::from_digits(vec![0xffff_ffff, 0xffff_ffff, 0x01ff_ffff]);
    assert!(strong_check(&m89));
    assert!(check(&m89));
}

#[test]
fn from_rng_is_deterministic_for_a_seed() {
    let a = from_rng(128, &mut Seeded(ChaCha8Rng::seed_from_u64(7))).unwrap();
    let b = from_rng(128, &mut Seeded(ChaCha8Rng::seed_from_u64(7))).unwrap();
    assert_eq!(a.to_digits(), b.to_digits());
    let c = from_rng(128, &mut Seeded(ChaCha8Rng::seed_from_u64(8))).unwrap();
    assert_ne!(a.to_digits(), c.to_digits());
}

#[test]
fn bit_length_below_floor_is_rejected() {
    assert_eq!(new(64).unwrap_err(), PrimeError::InvalidParameter(64));
    assert_eq!(new(127).unwrap_err(), PrimeError::InvalidParameter(127));
    let mut rng = Seeded(ChaCha8Rng::seed_from_u64(1));
    assert_eq!(from_rng(0, &mut rng).unwrap_err(), PrimeError::InvalidParameter(0));
}

#[test]
fn failing_source_is_reported() {
    assert_eq!(from_rng(128, &mut Broken).unwrap_err(), PrimeError::RandomnessSourceFailure);
    // a check that needs randomness gives false
    assert!(!check_with(&big((1u64 << 61) - 1), &mut Broken));
    // the Baillie-PSW check draws none
    assert!(strong_check_with(&big((1u64 << 61) - 1), &mut Broken));
}

#[test]
fn check_with_seeded_source() {
    let mut rng = Seeded(ChaCha8Rng::seed_from_u64(3));
    let n = from_rng(256, &mut rng).unwrap();
    assert!(check_with(&n, &mut rng));
    assert!(strong_check_with(&n, &mut rng));
    let v = BigUint::new(n.to_digits());
    let composite = BigNat::from_digits((&v * &v).to_u32_digits());
    assert!(!check_with(&composite, &mut rng));
    assert!(!strong_check_with(&composite, &mut rng));
}

#[test]
fn fallible_check_reports_source_failure() {
    assert_eq!(
        try_check_with(&big((1u64 << 61) - 1), &mut Broken),
        Err(PrimeError::RandomnessSourceFailure)
    );
    // settled by trial division, no randomness needed
    assert_eq!(try_check_with(&big(91), &mut Broken), Ok(false));
    assert_eq!(try_check_with(&big(13), &mut Broken), Ok(true));
    assert_eq!(try_check(&big((1u64 << 61) - 1)), Ok(true));
    assert_eq!(try_check(&big(1000003 * 1000033)), Ok(false));
}
