//! Random candidates, the randomized checks and the search loops.
use crate::bignat::{bit_len, bytes_val, BigNat};
use crate::error::PrimeError;
use crate::lucas::{strong_lucas, strong_lucas_passes};
use crate::probable::{
    bases_in_range, basic_verdict, check_small, check_with_bases, fermat, miller_rabin_passes,
    miller_rabin_round, small_verdict, values,
};
use crate::random::RandomSource;
use crate::small_primes::SmallPrimes;
use vstd::arithmetic::power2::pow2;
use vstd::prelude::*;

verus! {

/// The smallest bit length that generation accepts.
pub const MIN_BIT_LENGTH: usize = 128;

/// How many candidates a search tries before it gives up.
pub const MAX_ATTEMPTS: u64 = 0xffff_ffff_ffff_ffff;

/// Miller-Rabin rounds for `n`: `floor(log2(bits(n))) + 5`.
pub open spec fn mr_rounds(n: nat) -> nat {
    bit_len(bit_len(n)) + 4
}

/// Whether some Fermat base and some `mr_rounds(n)` Miller-Rabin bases, all in
/// `[2, n - 2]`, let `n` pass the basic check.
pub open spec fn passes_some_draw(n: nat) -> bool {
    exists|fb: nat, bases: Seq<nat>|
        #![trigger basic_verdict(n, fb, bases)]
        2 <= fb <= n - 2 && bases.len() == mr_rounds(n) && bases_in_range(n, bases)
            && basic_verdict(n, fb, bases)
}

/// Whether some Fermat base and some `mr_rounds(n)` Miller-Rabin bases, all in
/// `[2, n - 2]`, make `n` fail the basic check.
pub open spec fn fails_some_draw(n: nat) -> bool {
    exists|fb: nat, bases: Seq<nat>|
        #![trigger basic_verdict(n, fb, bases)]
        2 <= fb <= n - 2 && bases.len() == mr_rounds(n) && bases_in_range(n, bases)
            && !basic_verdict(n, fb, bases)
}

/// What a passing basic check tells of `n`: trial division settles it as prime, or
/// it passes with some choice of bases.
pub open spec fn probably_prime(n: nat) -> bool {
    small_verdict(n) == Some(true) || (small_verdict(n).is_none() && passes_some_draw(n))
}

/// The Baillie-PSW result: trial division settles `n`, or it passes both the
/// Miller-Rabin round to base two and the strong Lucas test.
pub open spec fn baillie_psw_verdict(n: nat) -> bool {
    match small_verdict(n) {
        Some(v) => v,
        None => miller_rabin_passes(n, 2) && strong_lucas_passes(n),
    }
}

/// Whether `n` is odd with exactly `bits` binary digits.
pub open spec fn odd_with_bits(n: nat, bits: nat) -> bool {
    bits >= 1 && pow2((bits - 1) as nat) <= n < pow2(bits) && n % 2 == 1
}

/// The bit length of a machine word.
fn bit_length_u64(x: u64) -> (r: u64)
    ensures
        r == bit_len(x as nat),
        r <= x,
    decreases x,
{
    if x == 0 {
        0
    } else {
        1 + bit_length_u64(x / 2)
    }
}

/// The Miller-Rabin round count for `n`.
pub fn rounds_for(n: &BigNat) -> (r: u64)
    ensures
        r == mr_rounds(n.value()),
{
    let b = n.bits();
    let l = bit_length_u64(b);
    assert(l <= 64) by {
        assert(bit_len(n.value()) == b);
        lemma_bit_len_u64(b);
    }
    l + 4
}

proof fn lemma_bit_len_u64(x: u64)
    ensures
        bit_len(x as nat) <= 64,
{
    vstd::arithmetic::power2::lemma2_to64();
    lemma_bit_len_below(x as nat, 64);
}

proof fn lemma_bit_len_below(x: nat, k: nat)
    requires
        x < pow2(k),
    ensures
        bit_len(x) <= k,
    decreases k,
{
    if k == 0 {
        vstd::arithmetic::power2::lemma2_to64();
    } else if x > 0 {
        vstd::arithmetic::power2::lemma_pow2_unfold(k);
        lemma_bit_len_below(x / 2, (k - 1) as nat);
    }
}

/// The base that the bytes `b` give for `n`: `bytes_val(b) mod (n - 3) + 2`.
pub open spec fn base_value(b: Seq<u8>, n: nat) -> nat {
    bytes_val(b) % ((n - 3) as nat) + 2
}

/// The base in `[2, n - 2]` that random bytes give.
pub fn base_from_bytes(bytes: &Vec<u8>, n: &BigNat) -> (r: BigNat)
    requires
        n.value() > 3,
    ensures
        r.value() == base_value(bytes@, n.value()),
        2 <= r.value() <= n.value() - 2,
{
    let x = BigNat::from_bytes_le(bytes);
    let span = n.sub(&BigNat::from_u64(3));
    x.rem(&span).add(&BigNat::from_u64(2))
}

/// The number of random bytes drawn for a base below `n`.
pub open spec fn base_byte_count(n: nat) -> nat {
    (bit_len(n) / 8 + 8) as usize as nat
}

/// Draws a number in `[2, n - 2]`: `base_byte_count(n)` bytes from `rng`, turned
/// into a base by `base_from_bytes`; `None` where the source fails.
pub fn random_base<R: RandomSource>(n: &BigNat, rng: &mut R) -> (r: Option<BigNat>)
    requires
        n.value() > 3,
    ensures
        r.is_some() ==> 2 <= r.unwrap().value() <= n.value() - 2,
        r.is_some() ==> exists|b: Seq<u8>|
            b.len() == base_byte_count(n.value()) && r.unwrap().value() == #[trigger] base_value(b, n.value()),
{
    let count = (n.bits() / 8 + 8) as usize;
    let bytes = match rng.random_bytes(count) {
        Some(b) => b,
        None => {
            return None;
        },
    };
    let r = base_from_bytes(&bytes, n);
    assert(bytes@.len() == base_byte_count(n.value()) && r.value() == base_value(bytes@, n.value()));
    Some(r)
}

/// Draws `count` numbers in `[2, n - 2]`.
pub fn random_bases<R: RandomSource>(n: &BigNat, count: u64, rng: &mut R) -> (r: Option<Vec<BigNat>>)
    requires
        n.value() > 3,
    ensures
        r.is_some() ==> r.unwrap()@.len() == count && bases_in_range(n.value(), values(r.unwrap()@)),
{
    let mut bases: Vec<BigNat> = Vec::new();
    let mut i: u64 = 0;
    while i < count
        invariant
            n.value() > 3,
            i <= count,
            bases@.len() == i,
            forall|k: int| 0 <= k < bases@.len() ==> 2 <= #[trigger] bases@[k].value() <= n.value() - 2,
        decreases count - i,
    {
        let b = match random_base(n, rng) {
            Some(b) => b,
            None => {
                return None;
            },
        };
        bases.push(b);
        i = i + 1;
    }
    assert(bases_in_range(n.value(), values(bases@))) by {
        assert forall|k: int| 0 <= k < values(bases@).len() implies 2 <= #[trigger] values(bases@)[k] <= n.value() - 2 by {
            assert(values(bases@)[k] == bases@[k].value());
        }
    }
    Some(bases)
}

/// The basic check with bases drawn from `rng`; `None` where the source failed.
pub fn probable_prime_draw<R: RandomSource>(table: &SmallPrimes, n: &BigNat, rng: &mut R) -> (r: Option<bool>)
    requires
        table.wf(),
    ensures
        small_verdict(n.value()).is_some() ==> r == small_verdict(n.value()),
        r == Some(true) ==> probably_prime(n.value()),
        r == Some(false) ==> small_verdict(n.value()) == Some(false) || fails_some_draw(n.value()),
{
    match check_small(table, n) {
        Some(v) => Some(v),
        None => {
            let fb = match random_base(n, rng) {
                Some(b) => b,
                None => {
                    return None;
                },
            };
            if !fermat(n, &fb) {
                proof {
                    let twos = Seq::new(mr_rounds(n.value()), |i: int| 2nat);
                    assert(bases_in_range(n.value(), twos));
                    assert(!basic_verdict(n.value(), fb.value(), twos));
                }
                return Some(false);
            }
            let rounds = rounds_for(n);
            let bases = match random_bases(n, rounds, rng) {
                Some(b) => b,
                None => {
                    return None;
                },
            };
            let v = check_with_bases(table, n, &fb, &bases);
            assert(v == basic_verdict(n.value(), fb.value(), values(bases@)));
            Some(v)
        },
    }
}

/// The basic check: trial division, a Fermat test and `mr_rounds` Miller-Rabin rounds
/// with random bases. A failing randomness source gives `false`; `try_is_prime`
/// reports it instead.
pub fn is_prime<R: RandomSource>(candidate: &BigNat, rng: &mut R) -> (r: bool)
    ensures
        small_verdict(candidate.value()).is_some() ==> r == small_verdict(candidate.value()).unwrap(),
        r ==> probably_prime(candidate.value()),
{
    let table = SmallPrimes::new();
    match probable_prime_draw(&table, candidate, rng) {
        Some(v) => v,
        None => false,
    }
}

/// The Baillie-PSW check with the table at hand.
pub fn baillie_psw(table: &SmallPrimes, n: &BigNat) -> (r: bool)
    requires
        table.wf(),
    ensures
        r == baillie_psw_verdict(n.value()),
{
    match check_small(table, n) {
        Some(v) => v,
        None => miller_rabin_round(n, &BigNat::from_u64(2)) && strong_lucas(n),
    }
}

/// The Baillie-PSW check: trial division, Miller-Rabin to base two and the strong
/// Lucas test. It draws no randomness.
pub fn is_prime_baillie_psw<R: RandomSource>(candidate: &BigNat, rng: &mut R) -> (r: bool)
    ensures
        r == baillie_psw_verdict(candidate.value()),
{
    let table = SmallPrimes::new();
    baillie_psw(&table, candidate)
}

/// The candidate that the bytes `b` give: the top bit of `bits` and the lowest bit set,
/// the bits between taken from `bytes_val(b)`.
pub open spec fn candidate_value(b: Seq<u8>, bits: nat) -> nat {
    pow2((bits - 1) as nat) + 2 * (bytes_val(b) % pow2((bits - 2) as nat)) + 1
}

/// The odd candidate of exactly `bits` bits that random bytes give.
pub fn candidate_from_bytes(bytes: &Vec<u8>, bits: usize) -> (r: BigNat)
    requires
        bits >= 2,
    ensures
        r.value() == candidate_value(bytes@, bits as nat),
        odd_with_bits(r.value(), bits as nat),
{
    let x = BigNat::from_bytes_le(bytes);
    let top = BigNat::power_of_two((bits - 1) as u64);
    let middle = BigNat::power_of_two((bits - 2) as u64);
    proof {
        vstd::arithmetic::power2::lemma_pow2_pos((bits - 2) as nat);
    }
    let low = x.rem(&middle);
    let c = top.add(&low.add(&low)).add(&BigNat::from_u64(1));
    proof {
        let b = bits as nat;
        vstd::arithmetic::power2::lemma_pow2_unfold((b - 1) as nat);
        vstd::arithmetic::power2::lemma_pow2_unfold(b);
        assert(pow2((b - 1) as nat) == 2 * pow2((b - 2) as nat));
        assert(low.value() < pow2((b - 2) as nat));
        assert(c.value() == 2 * (pow2((b - 2) as nat) + low.value()) + 1);
        assert(c.value() < pow2(b));
        assert(pow2((b - 1) as nat) <= c.value());
        assert(c.value() % 2 == 1);
    }
    c
}

/// Draws `bits / 8 + 1` bytes from `rng` and turns them into a candidate by
/// `candidate_from_bytes`; `None` where the source fails.
pub fn random_candidate<R: RandomSource>(bits: usize, rng: &mut R) -> (r: Option<BigNat>)
    requires
        bits >= 2,
    ensures
        r.is_some() ==> odd_with_bits(r.unwrap().value(), bits as nat),
        r.is_some() ==> exists|b: Seq<u8>|
            b.len() == bits / 8 + 1 && r.unwrap().value() == #[trigger] candidate_value(b, bits as nat),
{
    let bytes = match rng.random_bytes(bits / 8 + 1) {
        Some(b) => b,
        None => {
            return None;
        },
    };
    let c = candidate_from_bytes(&bytes, bits);
    assert(bytes@.len() == bits / 8 + 1 && c.value() == candidate_value(bytes@, bits as nat));
    Some(c)
}

/// What one search attempt leads to.
#[derive(Debug, Clone, Copy, PartialEq, Eq)]
pub enum SearchStep {
    /// The candidate is accepted.
    Accept,
    /// The candidate is rejected and the search goes on.
    Retry,
    /// The search ends with this error.
    Fail(PrimeError),
}

/// The decision after attempt number `attempts` (counted from zero), given what its
/// checks gave: `Some(true)` accepts, `None` (the randomness source failed) ends with
/// `RandomnessSourceFailure`, and `Some(false)` retries unless this was the last
/// attempt the guard allows.
pub fn search_step(outcome: Option<bool>, attempts: u64) -> (r: SearchStep)
    requires
        attempts < MAX_ATTEMPTS,
    ensures
        outcome == Some(true) ==> r == SearchStep::Accept,
        outcome.is_none() ==> r == SearchStep::Fail(PrimeError::RandomnessSourceFailure),
        outcome == Some(false) && attempts + 1 < MAX_ATTEMPTS ==> r == SearchStep::Retry,
        outcome == Some(false) && attempts + 1 >= MAX_ATTEMPTS ==> r == SearchStep::Fail(PrimeError::AttemptsExhausted),
        (r == SearchStep::Accept) == (outcome == Some(true)),
        r == SearchStep::Retry ==> outcome == Some(false) && attempts + 1 < MAX_ATTEMPTS,
        r == SearchStep::Fail(PrimeError::RandomnessSourceFailure) || r == SearchStep::Fail(PrimeError::AttemptsExhausted)
            || r == SearchStep::Accept || r == SearchStep::Retry,
{
    match outcome {
        Some(true) => SearchStep::Accept,
        None => SearchStep::Fail(PrimeError::RandomnessSourceFailure),
        Some(false) => {
            if attempts + 1 < MAX_ATTEMPTS {
                SearchStep::Retry
            } else {
                SearchStep::Fail(PrimeError::AttemptsExhausted)
            }
        },
    }
}

/// Searches for a probable prime of exactly `bit_length` bits.
pub fn gen_prime<R: RandomSource>(bit_length: usize, rng: &mut R) -> (r: Result<BigNat, PrimeError>)
    ensures
        (r == Err::<BigNat, PrimeError>(PrimeError::InvalidParameter(bit_length))) == (bit_length < MIN_BIT_LENGTH),
        r.is_err() && bit_length >= MIN_BIT_LENGTH ==> r == Err::<BigNat, PrimeError>(PrimeError::RandomnessSourceFailure)
            || r == Err::<BigNat, PrimeError>(PrimeError::AttemptsExhausted),
        r.is_ok() ==> odd_with_bits(r.unwrap().value(), bit_length as nat) && probably_prime(r.unwrap().value()),
{
    if bit_length < MIN_BIT_LENGTH {
        return Err(PrimeError::InvalidParameter(bit_length));
    }
    let table = SmallPrimes::new();
    search_prime(&table, bit_length, rng)
}

/// The search loop of `gen_prime`.
fn search_prime<R: RandomSource>(table: &SmallPrimes, bit_length: usize, rng: &mut R) -> (r: Result<BigNat, PrimeError>)
    requires
        table.wf(),
        bit_length >= 2,
    ensures
        r.is_err() ==> r == Err::<BigNat, PrimeError>(PrimeError::RandomnessSourceFailure)
            || r == Err::<BigNat, PrimeError>(PrimeError::AttemptsExhausted),
        r.is_ok() ==> odd_with_bits(r.unwrap().value(), bit_length as nat) && probably_prime(r.unwrap().value()),
{
    let mut attempts: u64 = 0;
    loop
        invariant
            table.wf(),
            bit_length >= 2,
            attempts < MAX_ATTEMPTS,
        decreases MAX_ATTEMPTS - attempts,
    {
        let c = match random_candidate(bit_length, rng) {
            Some(c) => c,
            None => {
                return Err(PrimeError::RandomnessSourceFailure);
            },
        };
        let outcome = probable_prime_draw(table, &c, rng);
        match search_step(outcome, attempts) {
            SearchStep::Accept => {
                return Ok(c);
            },
            SearchStep::Retry => {},
            SearchStep::Fail(e) => {
                return Err(e);
            },
        }
        attempts = attempts + 1;
    }
}

/// The Baillie-PSW verdict on `n` and on `(n - 1) / 2`.
pub open spec fn safe_baillie_psw_verdict(n: nat) -> bool {
    baillie_psw_verdict(n) && baillie_psw_verdict(((n - 1) as nat) / 2)
}

/// Searches for a safe prime of exactly `bit_length` bits: for a random odd `q` of
/// one bit fewer without a factor in the table, `p = 2q + 1` is checked first and
/// `q` only where `p` passes.
pub fn gen_safe_prime<R: RandomSource>(bit_length: usize, rng: &mut R) -> (r: Result<BigNat, PrimeError>)
    ensures
        (r == Err::<BigNat, PrimeError>(PrimeError::InvalidParameter(bit_length))) == (bit_length < MIN_BIT_LENGTH),
        r.is_err() && bit_length >= MIN_BIT_LENGTH ==> r == Err::<BigNat, PrimeError>(PrimeError::RandomnessSourceFailure)
            || r == Err::<BigNat, PrimeError>(PrimeError::AttemptsExhausted),
        r.is_ok() ==> odd_with_bits(r.unwrap().value(), bit_length as nat) && probably_prime(r.unwrap().value())
            && probably_prime(((r.unwrap().value() - 1) as nat) / 2),
{
    if bit_length < MIN_BIT_LENGTH {
        return Err(PrimeError::InvalidParameter(bit_length));
    }
    let table = SmallPrimes::new();
    let one = BigNat::from_u64(1);
    let mut attempts: u64 = 0;
    loop
        invariant
            table.wf(),
            bit_length >= MIN_BIT_LENGTH,
            one.value() == 1,
            attempts < MAX_ATTEMPTS,
        decreases MAX_ATTEMPTS - attempts,
    {
        let q = match random_candidate(bit_length - 1, rng) {
            Some(q) => q,
            None => {
                return Err(PrimeError::RandomnessSourceFailure);
            },
        };
        let p = q.add(&q).add(&one);
        proof {
            let b = bit_length as nat;
            vstd::arithmetic::power2::lemma_pow2_unfold((b - 1) as nat);
            vstd::arithmetic::power2::lemma_pow2_unfold(b);
            assert(odd_with_bits(q.value(), (b - 1) as nat));
            assert(pow2(((b - 1) - 1) as nat) <= q.value() < pow2((b - 1) as nat));
            assert(pow2((b - 1) as nat) <= p.value() < pow2(b));
            assert(((p.value() - 1) as nat) / 2 == q.value());
        }
        let outcome = if table.has_small_factor(&q) {
            Some(false)
        } else {
            match probable_prime_draw(&table, &p, rng) {
                Some(true) => probable_prime_draw(&table, &q, rng),
                other => other,
            }
        };
        assert(outcome == Some(true) ==> probably_prime(p.value()) && probably_prime(q.value()));
        match search_step(outcome, attempts) {
            SearchStep::Accept => {
                return Ok(p);
            },
            SearchStep::Retry => {},
            SearchStep::Fail(e) => {
                return Err(e);
            },
        }
        attempts = attempts + 1;
    }
}

/// The basic check on `n` and on `(n - 1) / 2`. A failing randomness source gives
/// `false`; `try_is_safe_prime` reports it instead.
pub fn is_safe_prime<R: RandomSource>(candidate: &BigNat, rng: &mut R) -> (r: bool)
    ensures
        small_verdict(candidate.value()) == Some(false) ==> !r,
        small_verdict(candidate.value()) == Some(true) && small_verdict(((candidate.value() - 1) as nat) / 2).is_some()
            ==> r == small_verdict(((candidate.value() - 1) as nat) / 2).unwrap(),
        r ==> probably_prime(candidate.value()) && probably_prime(((candidate.value() - 1) as nat) / 2),
{
    let table = SmallPrimes::new();
    match probable_prime_draw(&table, candidate, rng) {
        Some(true) => {},
        _ => {
            return false;
        },
    }
    let q = candidate.sub(&BigNat::from_u64(1)).div_small(2);
    match probable_prime_draw(&table, &q, rng) {
        Some(v) => v,
        None => false,
    }
}

/// The Baillie-PSW check on `n` and on `(n - 1) / 2`.
pub fn is_safe_prime_baillie_psw<R: RandomSource>(candidate: &BigNat, rng: &mut R) -> (r: bool)
    ensures
        r == safe_baillie_psw_verdict(candidate.value()),
{
    let table = SmallPrimes::new();
    if !baillie_psw(&table, candidate) {
        return false;
    }
    let q = candidate.sub(&BigNat::from_u64(1)).div_small(2);
    baillie_psw(&table, &q)
}

/// The basic check, reporting a failing randomness source as
/// `RandomnessSourceFailure`.
pub fn try_is_prime<R: RandomSource>(candidate: &BigNat, rng: &mut R) -> (r: Result<bool, PrimeError>)
    ensures
        r.is_err() ==> r == Err::<bool, PrimeError>(PrimeError::RandomnessSourceFailure),
        small_verdict(candidate.value()).is_some() ==> r == Ok::<bool, PrimeError>(small_verdict(candidate.value()).unwrap()),
        r == Ok::<bool, PrimeError>(true) ==> probably_prime(candidate.value()),
        r == Ok::<bool, PrimeError>(false) ==> small_verdict(candidate.value()) == Some(false)
            || fails_some_draw(candidate.value()),
{
    let table = SmallPrimes::new();
    match probable_prime_draw(&table, candidate, rng) {
        Some(v) => Ok(v),
        None => Err(PrimeError::RandomnessSourceFailure),
    }
}

/// The basic check on `n` and on `(n - 1) / 2`, reporting a failing randomness
/// source as `RandomnessSourceFailure`.
pub fn try_is_safe_prime<R: RandomSource>(candidate: &BigNat, rng: &mut R) -> (r: Result<bool, PrimeError>)
    ensures
        r.is_err() ==> r == Err::<bool, PrimeError>(PrimeError::RandomnessSourceFailure),
        small_verdict(candidate.value()) == Some(false) ==> r == Ok::<bool, PrimeError>(false),
        small_verdict(candidate.value()) == Some(true) && small_verdict(((candidate.value() - 1) as nat) / 2).is_some()
            ==> r == Ok::<bool, PrimeError>(small_verdict(((candidate.value() - 1) as nat) / 2).unwrap()),
        r == Ok::<bool, PrimeError>(true) ==> probably_prime(candidate.value())
            && probably_prime(((candidate.value() - 1) as nat) / 2),
{
    let table = SmallPrimes::new();
    match probable_prime_draw(&table, candidate, rng) {
        Some(true) => {},
        Some(false) => {
            return Ok(false);
        },
        None => {
            return Err(PrimeError::RandomnessSourceFailure);
        },
    }
    let q = candidate.sub(&BigNat::from_u64(1)).div_small(2);
    match probable_prime_draw(&table, &q, rng) {
        Some(v) => Ok(v),
        None => Err(PrimeError::RandomnessSourceFailure),
    }
}

} // verus!
