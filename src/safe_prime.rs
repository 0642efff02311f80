//! Generates and checks safe primes: primes `p` such that `(p - 1) / 2` is prime too.
use crate::bignat::BigNat;
use crate::error::PrimeError;
use crate::probable::small_verdict;
use crate::random::{RandomSource, SystemRandom};
use crate::search::{
    try_is_safe_prime,
    gen_safe_prime, is_safe_prime, is_safe_prime_baillie_psw, odd_with_bits, probably_prime,
    safe_baillie_psw_verdict, MIN_BIT_LENGTH,
};
use vstd::prelude::*;

verus! {

/// A probable safe prime of exactly `bit_length` bits, drawn from `rng`.
/// `bit_length` must be at least 128.
pub fn from_rng<R: RandomSource>(bit_length: usize, rng: &mut R) -> (r: Result<BigNat, PrimeError>)
    ensures
        (r == Err::<BigNat, PrimeError>(PrimeError::InvalidParameter(bit_length))) == (bit_length < MIN_BIT_LENGTH),
        r.is_ok() ==> odd_with_bits(r.unwrap().value(), bit_length as nat) && probably_prime(r.unwrap().value())
            && probably_prime(((r.unwrap().value() - 1) as nat) / 2),
{
    gen_safe_prime(bit_length, rng)
}

/// Whether `candidate` and `(candidate - 1) / 2` both pass the basic check, with
/// bases from `rng`.
pub fn check_with<R: RandomSource>(candidate: &BigNat, rng: &mut R) -> (r: bool)
    ensures
        small_verdict(candidate.value()) == Some(false) ==> !r,
        small_verdict(candidate.value()) == Some(true) && small_verdict(((candidate.value() - 1) as nat) / 2).is_some()
            ==> r == small_verdict(((candidate.value() - 1) as nat) / 2).unwrap(),
        r ==> probably_prime(candidate.value()) && probably_prime(((candidate.value() - 1) as nat) / 2),
{
    is_safe_prime(candidate, rng)
}

/// Whether `candidate` and `(candidate - 1) / 2` both pass the Baillie-PSW test.
pub fn strong_check_with<R: RandomSource>(candidate: &BigNat, rng: &mut R) -> (r: bool)
    ensures
        r == safe_baillie_psw_verdict(candidate.value()),
{
    is_safe_prime_baillie_psw(candidate, rng)
}

/// A probable safe prime of exactly `bit_length` bits, drawn from the operating
/// system's randomness source. `bit_length` must be at least 128.
pub fn new(bit_length: usize) -> (r: Result<BigNat, PrimeError>)
    ensures
        (r == Err::<BigNat, PrimeError>(PrimeError::InvalidParameter(bit_length))) == (bit_length < MIN_BIT_LENGTH),
        r.is_ok() ==> odd_with_bits(r.unwrap().value(), bit_length as nat) && probably_prime(r.unwrap().value())
            && probably_prime(((r.unwrap().value() - 1) as nat) / 2),
{
    from_rng(bit_length, &mut SystemRandom)
}

/// `check_with`, reporting a failing randomness source as `RandomnessSourceFailure`
/// instead of answering `false`.
pub fn try_check_with<R: RandomSource>(candidate: &BigNat, rng: &mut R) -> (r: Result<bool, PrimeError>)
    ensures
        r.is_err() ==> r == Err::<bool, PrimeError>(PrimeError::RandomnessSourceFailure),
        small_verdict(candidate.value()) == Some(false) ==> r == Ok::<bool, PrimeError>(false),
        small_verdict(candidate.value()) == Some(true) && small_verdict(((candidate.value() - 1) as nat) / 2).is_some()
            ==> r == Ok::<bool, PrimeError>(small_verdict(((candidate.value() - 1) as nat) / 2).unwrap()),
        r == Ok::<bool, PrimeError>(true) ==> probably_prime(candidate.value())
            && probably_prime(((candidate.value() - 1) as nat) / 2),
{
    try_is_safe_prime(candidate, rng)
}

/// `try_check_with` on the operating system's randomness source.
pub fn try_check(candidate: &BigNat) -> (r: Result<bool, PrimeError>)
    ensures
        r.is_err() ==> r == Err::<bool, PrimeError>(PrimeError::RandomnessSourceFailure),
        small_verdict(candidate.value()) == Some(false) ==> r == Ok::<bool, PrimeError>(false),
        small_verdict(candidate.value()) == Some(true) && small_verdict(((candidate.value() - 1) as nat) / 2).is_some()
            ==> r == Ok::<bool, PrimeError>(small_verdict(((candidate.value() - 1) as nat) / 2).unwrap()),
        r == Ok::<bool, PrimeError>(true) ==> probably_prime(candidate.value())
            && probably_prime(((candidate.value() - 1) as nat) / 2),
{
    try_check_with(candidate, &mut SystemRandom)
}

/// `check_with` on the operating system's randomness source.
pub fn check(candidate: &BigNat) -> (r: bool)
    ensures
        small_verdict(candidate.value()) == Some(false) ==> !r,
        small_verdict(candidate.value()) == Some(true) && small_verdict(((candidate.value() - 1) as nat) / 2).is_some()
            ==> r == small_verdict(((candidate.value() - 1) as nat) / 2).unwrap(),
        r ==> probably_prime(candidate.value()) && probably_prime(((candidate.value() - 1) as nat) / 2),
{
    check_with(candidate, &mut SystemRandom)
}

/// `strong_check_with` on the operating system's randomness source.
pub fn strong_check(candidate: &BigNat) -> (r: bool)
    ensures
        r == safe_baillie_psw_verdict(candidate.value()),
{
    strong_check_with(candidate, &mut SystemRandom)
}

} // verus!
