use glass_pumpkin::bignat::BigNat;
use glass_pumpkin::error::PrimeError;
use glass_pumpkin::random::RandomSource;
use glass_pumpkin::safe_prime::{
    check, check_with, from_rng, new, strong_check, strong_check_with, try_check, try_check_with,
};
use num_bigint::BigUint;
use rand_chacha::rand_core::{RngCore, SeedableRng};
use rand_chacha::ChaCha8Rng;

struct Seeded(ChaCha8Rng);

impl RandomSource for Seeded {
    fn random_bytes(&mut self, count: usize) -> Option<Vec<u8>> {
        let mut buf = vec![0u8; count];
        self.0.fill_bytes(&mut buf);
        Some(buf)
    }
}

#[test]
fn safe_prime_tests() {
    for bits in &[128, 256, 384] {
        let n = new(*bits).unwrap();
        assert!(check(&n));
        assert!(strong_check(&n));
    }
}

#[test]
fn safe_prime_half_passes_prime_check() {
    for bits in &[128usize, 192] {
        let p = new(*bits).unwrap();
        let v = BigUint::new(p.to_digits());
        assert_eq!(v.bits(), *bits as u64);
        let q = BigNat::from_digits(((v - 1u32) / 2u32).to_u32_digits());
        assert!(glass_pumpkin::prime::check(&q));
        assert!(glass_pumpkin::prime::strong_check(&q));
    }
}

#[test]
fn small_safe_primes() {
    for n in &[5u64, 7, 11, 23, 47, 59, 83, 107] {
        assert!(check(&BigNat::from_u64(*n)));
        assert!(strong_check(&BigNat::from_u64(*n)));
    }
    // primes whose half is not prime
    for n in &[13u64, 17, 19, 29, 31] {
        assert!(!check(&BigNat::from_u64(*n)));
        assert!(!strong_check(&BigNat::from_u64(*n)));
    }
    for n in &[0u64, 1, 2, 3, 15, 91] {
        assert!(!check(&BigNat::from_u64(*n)));
        assert!(!strong_check(&BigNat::from_u64(*n)));
    }
}

#[test]
fn safe_prime_from_seeded_source() {
    let a = from_rng(128, &mut Seeded(ChaCha8Rng::seed_from_u64(11))).unwrap();
    let b = from_rng(128, &mut Seeded(ChaCha8Rng::seed_from_u64(11))).unwrap();
    assert_eq!(a.to_digits(), b.to_digits());
    let mut rng = Seeded(ChaCha8Rng::seed_from_u64(12));
    assert!(check_with(&a, &mut rng));
    assert!(strong_check_with(&a, &mut rng));
}

#[test]
fn safe_prime_bit_length_below_floor_is_rejected() {
    assert_eq!(new(64).unwrap_err(), PrimeError::InvalidParameter(64));
}

struct Broken;

impl RandomSource for Broken {
    fn random_bytes(&mut self, _count: usize) -> Option<Vec<u8>> {
        None
    }
}

#[test]
fn fallible_safe_check() {
    assert_eq!(try_check(&BigNat::from_u64(23)), Ok(true));
    assert_eq!(try_check(&BigNat::from_u64(29)), Ok(false));
    assert_eq!(try_check_with(&BigNat::from_u64(91), &mut Broken), Ok(false));
    // 2^61 - 1 is prime and needs randomness to be checked
    assert_eq!(
        try_check_with(&BigNat::from_u64((1u64 << 61) - 1), &mut Broken),
        Err(PrimeError::RandomnessSourceFailure)
    );
    assert_eq!(from_rng(128, &mut Broken).unwrap_err(), PrimeError::RandomnessSourceFailure);
}
