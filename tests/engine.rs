use glass_pumpkin::bignat::BigNat;
use glass_pumpkin::lucas::{jacobi_signed, lucas_sequence, selfridge, strong_lucas};
use glass_pumpkin::probable::{check_small, check_with_bases, fermat, miller_rabin_round, split_twos_exec};
use glass_pumpkin::random::RandomSource;
use glass_pumpkin::error::PrimeError;
use glass_pumpkin::search::{
    base_from_bytes, candidate_from_bytes, random_candidate, rounds_for, search_step, SearchStep,
    MAX_ATTEMPTS,
};
use glass_pumpkin::small_primes::SmallPrimes;
use num_bigint::BigUint;
use rand_chacha::rand_core::{RngCore, SeedableRng};
use rand_chacha::ChaCha8Rng;

struct Seeded(ChaCha8Rng);

impl RandomSource for Seeded {
    fn random_bytes(&mut self, count: usize) -> Option<Vec<u8>> {
        let mut buf = vec![0u8; count];
        self.0.fill_bytes(&mut buf);
        Some(buf)
    }
}

fn big(n: u64) -> BigNat {
    BigNat::from_u64(n)
}

#[test]
fn table_holds_the_first_2048_primes() {
    let t = SmallPrimes::new();
    assert_eq!(t.len(), 2048);
    assert_eq!(t.get(0), 2);
    assert_eq!(t.get(1), 3);
    assert_eq!(t.get(9), 29);
    assert_eq!(t.get(2047), 17863);
}

#[test]
fn trial_division_cases() {
    let t = SmallPrimes::new();
    assert!(t.has_small_factor(&big(91)));
    assert!(!t.has_small_factor(&big(13)));
    assert!(t.is_small_prime(&big(13)));
    assert!(!t.is_small_prime(&big(17881)));
    assert!(!t.has_small_factor(&big(17881)));
    assert!(t.has_small_factor(&big(17863 * 17863)));
    assert_eq!(check_small(&t, &big(2)), Some(true));
    assert_eq!(check_small(&t, &big(9)), Some(false));
    assert_eq!(check_small(&t, &big(0)), Some(false));
    assert_eq!(check_small(&t, &big(1)), Some(false));
    assert_eq!(check_small(&t, &big(17881)), None);
}

#[test]
fn digit_conversions() {
    let n = BigNat::from_digits(vec![5, 1, 0, 0]);
    assert_eq!(n.to_digits(), vec![5, 1]);
    assert_eq!(n.rem_small(7), (((1u64 << 32) + 5) % 7) as u32);
    assert_eq!(BigNat::from_u64(0).to_digits(), Vec::<u32>::new());
    assert_eq!(BigNat::from_u64(7).to_digits(), vec![7]);
    assert_eq!(BigNat::from_u64(u64::MAX).to_digits(), vec![u32::MAX, u32::MAX]);
    assert_eq!(BigNat::from_digits(vec![0, 0]).to_digits(), Vec::<u32>::new());
    assert_eq!(n.copy().to_digits(), vec![5, 1]);
}

#[test]
fn rounds_follow_bit_length() {
    // floor(log2(bits)) + 5
    assert_eq!(rounds_for(&BigNat::from_digits(vec![0, 0, 0, 0x8000_0000])), 12);
    assert_eq!(rounds_for(&big(255)), 8);
    assert_eq!(rounds_for(&big(1)), 5);
}

#[test]
fn candidates_have_exact_bit_length() {
    let mut rng = Seeded(ChaCha8Rng::seed_from_u64(5));
    for bits in &[2usize, 3, 31, 32, 33, 128, 200] {
        let c = random_candidate(*bits, &mut rng).unwrap();
        let v = BigUint::new(c.to_digits());
        assert_eq!(v.bits(), *bits as u64);
        assert!(v.bit(0));
    }
}

#[test]
fn split_twos_writes_odd_part() {
    let (d, s) = split_twos_exec(&big(96));
    assert_eq!(d.to_digits(), vec![3]);
    assert_eq!(s, 5);
}

#[test]
fn fermat_liars_and_witnesses() {
    assert!(fermat(&big(341), &big(2)));
    assert!(!fermat(&big(341), &big(3)));
    assert!(fermat(&big(101), &big(3)));
}

#[test]
fn miller_rabin_rounds() {
    // 2047 = 23 * 89 is a strong pseudoprime to base two, but not to base three
    assert!(miller_rabin_round(&big(2047), &big(2)));
    assert!(!miller_rabin_round(&big(2047), &big(3)));
    assert!(!miller_rabin_round(&big(341), &big(2)));
    assert!(miller_rabin_round(&big(3825123056546413051), &big(2)));
    assert!(miller_rabin_round(&big(1000003), &big(12345)));
}

#[test]
fn basic_check_with_given_bases() {
    let t = SmallPrimes::new();
    let n = big(3825123056546413051);
    assert!(check_with_bases(&t, &n, &big(2), &vec![big(2), big(3), big(5)]));
    assert!(!check_with_bases(&t, &n, &big(2), &vec![big(2), big(37)]));
    let p = big(1000003);
    assert!(check_with_bases(&t, &p, &big(2), &vec![big(2), big(999)]));
    assert!(!check_with_bases(&t, &big(1000003 * 1000033), &big(2), &vec![]));
}

#[test]
fn jacobi_symbols() {
    assert_eq!(jacobi_signed(false, 5, &big(21)), 1);
    assert_eq!(jacobi_signed(true, 7, &big(11)), 1);
    assert_eq!(jacobi_signed(true, 11, &big(11)), 0);
    assert_eq!(jacobi_signed(true, 7, &big(1000003)), 1);
    assert_eq!(jacobi_signed(false, 5, &big(1000003)), -1);
    let large = BigNat::from_digits(vec![1, 0, 1 << 16]);
    // 2^80 + 1 = 5 mod 7 and 1 mod 4, so (-7 / n) = (n / 7) = (5 / 7) = -1
    assert_eq!(jacobi_signed(true, 7, &large), -1);
}

#[test]
fn selfridge_parameters() {
    assert_eq!(selfridge(&big(13)), Some(0));
    assert_eq!(selfridge(&big(19)), Some(1));
    assert_eq!(selfridge(&big(29)), Some(3));
    // (-11 / 11) is zero but |D| == n, so the search goes on to D = 13
    assert_eq!(selfridge(&big(11)), Some(4));
    // (5 / 15) is zero with 5 != 15: composite
    assert_eq!(selfridge(&big(15)), None);
    assert_eq!(selfridge(&big(3825123056546413051)), Some(1));
}

#[test]
fn lucas_sequence_gives_fibonacci_and_lucas_numbers() {
    // D = 5, Q = -1: U_k are Fibonacci numbers and V_k Lucas numbers
    let n = big(1000003);
    let (u, v, q) = lucas_sequence(&n, &big(5), &big(1000002), &big(10));
    assert_eq!(u.to_digits(), vec![55]);
    assert_eq!(v.to_digits(), vec![123]);
    assert_eq!(q.to_digits(), vec![1]);
    let (u, v, _) = lucas_sequence(&n, &big(5), &big(1000002), &big(25));
    assert_eq!(u.to_digits(), vec![75025]);
    assert_eq!(v.to_digits(), vec![167761]);
}

#[test]
fn strong_lucas_cases() {
    assert!(strong_lucas(&big(1000003)));
    assert!(strong_lucas(&big(11)));
    assert!(!strong_lucas(&big(3825123056546413051)));
    assert!(!strong_lucas(&big(1000003 * 1000003)));
    // 5459 = 53 * 103 is a strong Lucas pseudoprime
    assert!(strong_lucas(&big(5459)));
}

#[test]
fn candidate_from_known_bytes() {
    // 2^7 + 2 * (0xff mod 2^6) + 1 = 128 + 126 + 1
    assert_eq!(candidate_from_bytes(&vec![0xff, 0xff], 8).to_digits(), vec![255]);
    // 2^7 + 2 * (5 mod 2^6) + 1
    assert_eq!(candidate_from_bytes(&vec![5, 0], 8).to_digits(), vec![139]);
    assert_eq!(candidate_from_bytes(&vec![0], 2).to_digits(), vec![3]);
}

#[test]
fn base_from_known_bytes() {
    // 513 mod (101 - 3) + 2
    assert_eq!(base_from_bytes(&vec![1, 2], &big(101)).to_digits(), vec![513 % 98 + 2]);
    assert_eq!(base_from_bytes(&vec![], &big(5)).to_digits(), vec![2]);
}

#[test]
fn search_step_decisions() {
    assert_eq!(search_step(Some(true), 0), SearchStep::Accept);
    assert_eq!(search_step(Some(false), 0), SearchStep::Retry);
    assert_eq!(search_step(None, 3), SearchStep::Fail(PrimeError::RandomnessSourceFailure));
    assert_eq!(
        search_step(Some(false), MAX_ATTEMPTS - 1),
        SearchStep::Fail(PrimeError::AttemptsExhausted)
    );
}

#[test]
fn unsettled_numbers_below_the_square_are_prime() {
    let t = SmallPrimes::new();
    // 17881 and 1000003 are prime, beyond the table but below its square
    assert_eq!(check_small(&t, &big(17881)), None);
    assert_eq!(check_small(&t, &big(1000003)), None);
    assert!(strong_lucas(&big(17881)));
    // 17863 * 17881 has the table prime 17863 as a factor
    assert_eq!(check_small(&t, &big(17863 * 17881)), Some(false));
}
