//! Generates and checks primes.
use crate::bignat::BigNat;
use crate::error::PrimeError;
use crate::probable::small_verdict;
use crate::random::{RandomSource, SystemRandom};
use crate::search::{
    try_is_prime, fails_some_draw,
    baillie_psw_verdict, gen_prime, is_prime, is_prime_baillie_psw, odd_with_bits,
    probably_prime, MIN_BIT_LENGTH,
};
use crate::small_primes::{
    has_small_factor_spec, is_prime as is_prime_spec, is_small_prime_spec, SMALL_PRIME_LIMIT,
};
use vstd::prelude::*;

verus! {

/// A probable prime of exactly `bit_length` bits, drawn from `rng`.
/// `bit_length` must be at least 128.
pub fn from_rng<R: RandomSource>(bit_length: usize, rng: &mut R) -> (r: Result<BigNat, PrimeError>)
    ensures
        (r == Err::<BigNat, PrimeError>(PrimeError::InvalidParameter(bit_length))) == (bit_length < MIN_BIT_LENGTH),
        r.is_ok() ==> odd_with_bits(r.unwrap().value(), bit_length as nat) && probably_prime(r.unwrap().value()),
{
    gen_prime(bit_length, rng)
}

/// Whether `candidate` passes trial division by the first 2048 primes, a Fermat
/// test and `floor(log2(bits)) + 5` Miller-Rabin rounds, with bases from `rng`.
pub fn check_with<R: RandomSource>(candidate: &BigNat, rng: &mut R) -> (r: bool)
    ensures
        small_verdict(candidate.value()).is_some() ==> r == small_verdict(candidate.value()).unwrap(),
        r ==> probably_prime(candidate.value()),
{
    is_prime(candidate, rng)
}

/// Whether `candidate` passes the Baillie-PSW test.
pub fn strong_check_with<R: RandomSource>(candidate: &BigNat, rng: &mut R) -> (r: bool)
    ensures
        r == baillie_psw_verdict(candidate.value()),
{
    is_prime_baillie_psw(candidate, rng)
}

/// A probable prime of exactly `bit_length` bits, drawn from the operating system's
/// randomness source. `bit_length` must be at least 128.
pub fn new(bit_length: usize) -> (r: Result<BigNat, PrimeError>)
    ensures
        (r == Err::<BigNat, PrimeError>(PrimeError::InvalidParameter(bit_length))) == (bit_length < MIN_BIT_LENGTH),
        r.is_ok() ==> odd_with_bits(r.unwrap().value(), bit_length as nat) && probably_prime(r.unwrap().value()),
{
    from_rng(bit_length, &mut SystemRandom)
}

/// `check_with`, reporting a failing randomness source as `RandomnessSourceFailure`
/// instead of answering `false`.
pub fn try_check_with<R: RandomSource>(candidate: &BigNat, rng: &mut R) -> (r: Result<bool, PrimeError>)
    ensures
        r.is_err() ==> r == Err::<bool, PrimeError>(PrimeError::RandomnessSourceFailure),
        small_verdict(candidate.value()).is_some() ==> r == Ok::<bool, PrimeError>(small_verdict(candidate.value()).unwrap()),
        r == Ok::<bool, PrimeError>(true) ==> probably_prime(candidate.value()),
        r == Ok::<bool, PrimeError>(false) ==> small_verdict(candidate.value()) == Some(false)
            || fails_some_draw(candidate.value()),
{
    try_is_prime(candidate, rng)
}

/// `try_check_with` on the operating system's randomness source.
pub fn try_check(candidate: &BigNat) -> (r: Result<bool, PrimeError>)
    ensures
        r.is_err() ==> r == Err::<bool, PrimeError>(PrimeError::RandomnessSourceFailure),
        small_verdict(candidate.value()).is_some() ==> r == Ok::<bool, PrimeError>(small_verdict(candidate.value()).unwrap()),
        r == Ok::<bool, PrimeError>(true) ==> probably_prime(candidate.value()),
        r == Ok::<bool, PrimeError>(false) ==> small_verdict(candidate.value()) == Some(false)
            || fails_some_draw(candidate.value()),
{
    try_check_with(candidate, &mut SystemRandom)
}

/// `check_with` on the operating system's randomness source.
pub fn check(candidate: &BigNat) -> (r: bool)
    ensures
        small_verdict(candidate.value()).is_some() ==> r == small_verdict(candidate.value()).unwrap(),
        r ==> probably_prime(candidate.value()),
{
    check_with(candidate, &mut SystemRandom)
}

/// `strong_check_with` on the operating system's randomness source.
pub fn strong_check(candidate: &BigNat) -> (r: bool)
    ensures
        r == baillie_psw_verdict(candidate.value()),
{
    strong_check_with(candidate, &mut SystemRandom)
}

/// Even numbers above two fail both checks.
pub proof fn lemma_even_numbers_fail(n: nat)
    requires
        n % 2 == 0,
        n > 2,
    ensures
        small_verdict(n) == Some(false),
        !probably_prime(n),
        !baillie_psw_verdict(n),
{
}

/// Two and every other prime of the table pass both checks.
pub proof fn lemma_small_primes_pass(n: nat)
    requires
        is_prime_spec(n),
        n <= SMALL_PRIME_LIMIT,
    ensures
        small_verdict(n) == Some(true),
        probably_prime(n),
        baillie_psw_verdict(n),
{
    if n != 2 {
        assert(n % 2 != 0);
    }
}

/// A number with a prime factor in the table other than itself fails both checks.
pub proof fn lemma_small_factor_fails(n: nat, p: nat)
    requires
        is_prime_spec(p),
        p <= SMALL_PRIME_LIMIT,
        n % p == 0,
        n != p,
    ensures
        small_verdict(n) == Some(false),
        !probably_prime(n),
        !baillie_psw_verdict(n),
{
    if n >= 2 {
        vstd::arithmetic::div_mod::lemma_mod_is_zero(n, p);
        assert(p < n);
        assert(!is_small_prime_spec(n));
        assert(has_small_factor_spec(n));
        if n == 2 {
            assert(false);
        }
    }
}

/// Where trial division settles a number, the answer is exact: it is `true`
/// exactly for primes.
pub proof fn lemma_settled_answers_are_exact(n: nat)
    ensures
        small_verdict(n).is_some() ==> small_verdict(n).unwrap() == is_prime_spec(n),
{
    if n == 2 {
        assert(is_prime_spec(2)) by {
            assert forall|d: nat| 2 <= d < 2 implies #[trigger] (2nat % d) != 0 by {}
        }
    } else if n >= 2 && n % 2 == 0 {
        assert(n % 2 == 0);
    } else if n >= 2 && !is_small_prime_spec(n) && has_small_factor_spec(n) {
        let p = choose|p: nat| #[trigger] is_prime_spec(p) && p <= SMALL_PRIME_LIMIT && n % p == 0 && n != p;
        vstd::arithmetic::div_mod::lemma_mod_is_zero(n, p);
        assert(n % p == 0);
    }
}

proof fn lemma_divides_trans(e: nat, d: nat, n: nat)
    requires
        e > 0,
        d > 0,
        d % e == 0,
        n % d == 0,
    ensures
        n % e == 0,
{
    vstd::arithmetic::div_mod::lemma_fundamental_div_mod(n as int, d as int);
    vstd::arithmetic::div_mod::lemma_fundamental_div_mod(d as int, e as int);
    let a = (n / d) as int;
    let b = (d / e) as int;
    assert(n as int == (b * a) * (e as int)) by (nonlinear_arith)
        requires n as int == (d as int) * a, d as int == (e as int) * b;
    vstd::arithmetic::div_mod::lemma_mod_multiples_basic(b * a, e as int);
}

proof fn lemma_prime_factor_at_most(n: nat, d: nat)
    requires
        d >= 2,
        n % d == 0,
    ensures
        exists|p: nat| #[trigger] is_prime_spec(p) && p <= d && n % p == 0,
    decreases d,
{
    if is_prime_spec(d) {
        assert(is_prime_spec(d) && d <= d && n % d == 0);
    } else {
        let e = choose|e: nat| 2 <= e < d && #[trigger] (d % e) == 0;
        lemma_divides_trans(e, d, n);
        lemma_prime_factor_at_most(n, e);
    }
}

/// Below `(SMALL_PRIME_LIMIT + 1)^2`, a number that trial division does not settle
/// is prime.
pub proof fn lemma_unsettled_below_square_is_prime(n: nat)
    requires
        n < (SMALL_PRIME_LIMIT as nat + 1) * (SMALL_PRIME_LIMIT as nat + 1),
        small_verdict(n).is_none(),
    ensures
        is_prime_spec(n),
{
    let l = SMALL_PRIME_LIMIT as nat;
    if !is_prime_spec(n) {
        let d0 = choose|d: nat| 2 <= d < n && #[trigger] (n % d) == 0;
        let d = if d0 * d0 <= n { d0 } else { n / d0 };
        if d0 * d0 > n {
            vstd::arithmetic::div_mod::lemma_fundamental_div_mod(n as int, d0 as int);
            let f = n / d0;
            assert(n == d0 * f);
            assert(f >= 2) by (nonlinear_arith)
                requires n == d0 * f, d0 < n, d0 >= 2;
            assert(f * f <= n) by (nonlinear_arith)
                requires n == d0 * f, d0 * d0 > n, f >= 2;
            vstd::arithmetic::div_mod::lemma_mod_multiples_basic(d0 as int, f as int);
            assert(n % f == 0) by {
                assert(d0 * f == f * d0) by (nonlinear_arith);
            }
        }
        assert(d >= 2 && d * d <= n && n % d == 0);
        assert(d <= l) by (nonlinear_arith)
            requires d * d <= n, n < (l + 1) * (l + 1), d >= 2;
        lemma_prime_factor_at_most(n, d);
        let p = choose|p: nat| #[trigger] is_prime_spec(p) && p <= d && n % p == 0;
        assert(d < n) by (nonlinear_arith)
            requires d * d <= n, d >= 2;
        assert(has_small_factor_spec(n));
    }
}

} // verus!
