//! Trial division, the Fermat test and the Miller-Rabin test.
use crate::bignat::BigNat;
use crate::small_primes::{has_small_factor_spec, is_prime, is_small_prime_spec, SmallPrimes};
use vstd::arithmetic::power::pow;
use vstd::arithmetic::power2::pow2;
use vstd::prelude::*;

verus! {

/// Splits `m` into an odd part and a count of factors two: `m == d * 2^s`.
pub open spec fn split_twos(m: nat) -> (nat, nat)
    decreases m,
{
    if m == 0 || m % 2 == 1 {
        (m, 0)
    } else {
        let (d, s) = split_twos(m / 2);
        (d, s + 1)
    }
}

/// Whether `a` is no Fermat witness for `n`: `a^(n-1) mod n == 1`.
pub open spec fn fermat_passes(n: nat, a: nat) -> bool {
    pow(a as int, (n - 1) as nat) % (n as int) == 1
}

/// Whether `a` is no Miller-Rabin witness for `n`, with `n - 1 == d * 2^s` and `d` odd:
/// `a^d mod n == 1`, or `a^(d * 2^r) mod n == n - 1` for some `r < s`.
pub open spec fn miller_rabin_passes(n: nat, a: nat) -> bool {
    let (d, s) = split_twos((n - 1) as nat);
    pow(a as int, d) % (n as int) == 1 || exists|r: nat|
        r < s && #[trigger] (pow(a as int, d * pow2(r)) % (n as int)) == n - 1
}

/// The verdict that needs no randomness: `Some` for two, numbers below two, even
/// numbers, the table's primes and numbers with a factor in the table.
pub open spec fn small_verdict(n: nat) -> Option<bool> {
    if n == 2 {
        Some(true)
    } else if n < 2 || n % 2 == 0 {
        Some(false)
    } else if is_small_prime_spec(n) {
        Some(true)
    } else if has_small_factor_spec(n) {
        Some(false)
    } else {
        None
    }
}

/// Whether every base lies in `[2, n - 2]`.
pub open spec fn bases_in_range(n: nat, bases: Seq<nat>) -> bool {
    forall|i: int| 0 <= i < bases.len() ==> 2 <= #[trigger] bases[i] <= n - 2
}

/// The basic check with the given Fermat base and Miller-Rabin bases.
pub open spec fn basic_verdict(n: nat, fermat_base: nat, bases: Seq<nat>) -> bool {
    match small_verdict(n) {
        Some(v) => v,
        None => fermat_passes(n, fermat_base) && forall|i: int|
            0 <= i < bases.len() ==> #[trigger] miller_rabin_passes(n, bases[i]),
    }
}

/// The values of a sequence of numbers.
pub open spec fn values(v: Seq<BigNat>) -> Seq<nat> {
    v.map_values(|b: BigNat| b.value())
}

proof fn lemma_three_is_prime()
    ensures
        is_prime(3),
{
    assert forall|d: nat| 2 <= d < 3 implies #[trigger] (3nat % d) != 0 by {
        assert(d == 2);
    }
}

proof fn lemma_split_twos(d: nat, s: nat)
    requires
        d % 2 == 1,
    ensures
        split_twos(d * pow2(s)) == (d, s),
    decreases s,
{
    vstd::arithmetic::power2::lemma_pow2_pos(s);
    if s == 0 {
        vstd::arithmetic::power2::lemma_pow2(0);
        vstd::arithmetic::power::lemma_pow0(2);
    } else {
        vstd::arithmetic::power2::lemma_pow2_unfold(s);
        let m = d * pow2(s);
        let h = d * pow2((s - 1) as nat);
        assert(m == 2 * h) by (nonlinear_arith)
            requires m == d * pow2(s), h == d * pow2((s - 1) as nat), pow2(s) == 2 * pow2((s - 1) as nat);
        vstd::arithmetic::power2::lemma_pow2_pos((s - 1) as nat);
        assert(h > 0) by (nonlinear_arith)
            requires h == d * pow2((s - 1) as nat), d > 0, pow2((s - 1) as nat) > 0;
        lemma_split_twos(d, (s - 1) as nat);
    }
}

/// Writes `m` as `d * 2^s` with `d` odd.
pub fn split_twos_exec(m: &BigNat) -> (r: (BigNat, u64))
    requires
        m.value() > 0,
    ensures
        split_twos(m.value()) == (r.0.value(), r.1 as nat),
        r.0.value() % 2 == 1,
{
    match m.trailing_zeros() {
        Some(s) => {
            let d = m.shr(s);
            proof {
                vstd::arithmetic::power2::lemma_pow2_pos(s as nat);
                vstd::arithmetic::div_mod::lemma_fundamental_div_mod(m.value() as int, pow2(s as nat) as int);
                assert(m.value() == d.value() * pow2(s as nat)) by {
                    vstd::arithmetic::mul::lemma_mul_is_commutative(d.value() as int, pow2(s as nat) as int);
                }
                lemma_split_twos(d.value(), s as nat);
            }
            (d, s)
        },
        None => {
            proof {
                assert(false);
            }
            (BigNat::from_u64(0), 0)
        },
    }
}

/// Whether `a` is no Fermat witness for `n`.
pub fn fermat(n: &BigNat, a: &BigNat) -> (r: bool)
    requires
        n.value() > 1,
    ensures
        r == fermat_passes(n.value(), a.value()),
{
    let one = BigNat::from_u64(1);
    let e = n.sub(&one);
    let x = a.modpow(&e, n);
    x.equals(&one)
}

proof fn lemma_square_step(a: nat, n: nat, e: nat)
    requires
        n > 1,
    ensures
        pow(pow(a as int, e) % (n as int), 2) % (n as int) == pow(a as int, e * 2) % (n as int),
{
    vstd::arithmetic::power::lemma_pow_mod_noop(pow(a as int, e), 2, n as int);
    vstd::arithmetic::power::lemma_pow_multiplies(a as int, e, 2);
}

/// Whether `a` is no Miller-Rabin witness for `n`.
pub fn miller_rabin_round(n: &BigNat, a: &BigNat) -> (r: bool)
    requires
        n.value() > 2,
    ensures
        r == miller_rabin_passes(n.value(), a.value()),
{
    let one = BigNat::from_u64(1);
    let two = BigNat::from_u64(2);
    let n_minus_one = n.sub(&one);
    let (d, s) = split_twos_exec(&n_minus_one);
    let ghost nv = n.value();
    let ghost av = a.value();
    let mut x = a.modpow(&d, n);
    proof {
        vstd::arithmetic::power2::lemma_pow2(0);
        vstd::arithmetic::power::lemma_pow0(2);
        assert(d.value() * pow2(0) == d.value());
    }
    if x.equals(&one) {
        return true;
    }
    let mut r: u64 = 0;
    while r < s
        invariant
            nv == n.value(),
            av == a.value(),
            nv > 2,
            n_minus_one.value() == nv - 1,
            two.value() == 2,
            split_twos((nv - 1) as nat) == (d.value(), s as nat),
            pow(av as int, d.value()) % (nv as int) != 1,
            r <= s,
            r < s ==> x.value() == pow(av as int, d.value() * pow2(r as nat)) % (nv as int),
            forall|k: nat| k < r ==> #[trigger] (pow(av as int, d.value() * pow2(k)) % (nv as int)) != nv - 1,
        decreases s - r,
    {
        if x.equals(&n_minus_one) {
            assert(miller_rabin_passes(nv, av));
            return true;
        }
        if r + 1 < s {
            let y = x.modpow(&two, n);
            proof {
                lemma_square_step(av, nv, d.value() * pow2(r as nat));
                vstd::arithmetic::power2::lemma_pow2_unfold((r + 1) as nat);
                assert(d.value() * pow2(r as nat) * 2 == d.value() * pow2((r + 1) as nat)) by (nonlinear_arith)
                    requires pow2((r + 1) as nat) == 2 * pow2(r as nat);
            }
            x = y;
        }
        r = r + 1;
    }
    false
}

/// The basic check of `n` with a given Fermat base and Miller-Rabin bases.
pub fn check_with_bases(
    table: &SmallPrimes,
    n: &BigNat,
    fermat_base: &BigNat,
    bases: &Vec<BigNat>,
) -> (r: bool)
    requires
        table.wf(),
    ensures
        r == basic_verdict(n.value(), fermat_base.value(), values(bases@)),
{
    match check_small(table, n) {
        Some(v) => v,
        None => {
            if !fermat(n, fermat_base) {
                return false;
            }
            let mut i: usize = 0;
            while i < bases.len()
                invariant
                    small_verdict(n.value()).is_none(),
                    n.value() > 2,
                    0 <= i <= bases.len(),
                    forall|k: int| 0 <= k < i ==> #[trigger] miller_rabin_passes(n.value(), values(bases@)[k]),
                decreases bases.len() - i,
            {
                assert(values(bases@)[i as int] == bases@[i as int].value());
                if !miller_rabin_round(n, &bases[i]) {
                    return false;
                }
                i = i + 1;
            }
            true
        },
    }
}

/// The verdict that needs no randomness, where there is one.
pub fn check_small(table: &SmallPrimes, n: &BigNat) -> (r: Option<bool>)
    requires
        table.wf(),
    ensures
        r == small_verdict(n.value()),
        r.is_none() ==> n.value() > 4 && n.value() % 2 == 1,
{
    let two = BigNat::from_u64(2);
    if n.equals(&two) {
        return Some(true);
    }
    if n.less_than(&two) || n.rem_small(2) == 0 {
        return Some(false);
    }
    if table.is_small_prime(n) {
        return Some(true);
    }
    if table.has_small_factor(n) {
        return Some(false);
    }
    proof {
        lemma_three_is_prime();
    }
    None
}

} // verus!
