//! The table of small primes and trial division by it.
use crate::bignat::BigNat;
use vstd::prelude::*;

verus! {

/// Whether `n` is prime: at least two, with no divisor strictly between one and itself.
pub open spec fn is_prime(n: nat) -> bool {
    n >= 2 && forall|d: nat| 2 <= d < n ==> #[trigger] (n % d) != 0
}

/// The largest prime of the table; the table holds the first 2048 primes.
pub const SMALL_PRIME_LIMIT: u32 = 17863;

/// Whether `n` has a prime factor in the table other than itself.
pub open spec fn has_small_factor_spec(n: nat) -> bool {
    exists|p: nat| #[trigger] is_prime(p) && p <= SMALL_PRIME_LIMIT && n % p == 0 && n != p
}

/// Whether `n` is itself one of the table's primes.
pub open spec fn is_small_prime_spec(n: nat) -> bool {
    is_prime(n) && n <= SMALL_PRIME_LIMIT
}

/// The ascending primes up to `SMALL_PRIME_LIMIT`.
pub struct SmallPrimes {
    primes: Vec<u32>,
}

proof fn lemma_no_divisor_below_root(c: nat, d: nat)
    requires
        c >= 2,
        d >= 2,
        d * d > c,
        forall|e: nat| 2 <= e < d ==> #[trigger] (c % e) != 0,
    ensures
        is_prime(c),
{
    assert forall|e: nat| 2 <= e < c implies #[trigger] (c % e) != 0 by {
        if c % e == 0 && e >= d {
            let f = c / e;
            vstd::arithmetic::div_mod::lemma_fundamental_div_mod(c as int, e as int);
            assert(c == e * f);
            assert(f >= 2) by (nonlinear_arith)
                requires c == e * f, e < c, e >= 2;
            assert(f < d) by (nonlinear_arith)
                requires c == e * f, e >= d, d * d > c, d >= 2;
            vstd::arithmetic::div_mod::lemma_mod_multiples_basic(e as int, f as int);
            assert(c % f == 0) by {
                vstd::arithmetic::mul::lemma_mul_is_commutative(e as int, f as int);
            }
        }
    }
}

impl SmallPrimes {
    pub closed spec fn view(&self) -> Seq<u32> {
        self.primes@
    }

    /// The prime at position `i`.
    pub fn get(&self, i: usize) -> (r: u32)
        requires
            i < self@.len(),
        ensures
            r == self@[i as int],
    {
        self.primes[i]
    }

    /// The table holds, in ascending order, exactly the primes up to `SMALL_PRIME_LIMIT`.
    pub open spec fn wf(&self) -> bool {
        &&& forall|i: int, j: int| 0 <= i < j < self.view().len() ==> self.view()[i] < self.view()[j]
        &&& forall|i: int| 0 <= i < self.view().len() ==> #[trigger] is_prime(self.view()[i] as nat)
        &&& forall|i: int| 0 <= i < self.view().len() ==> #[trigger] self.view()[i] <= SMALL_PRIME_LIMIT
        &&& forall|n: nat| is_prime(n) && n <= SMALL_PRIME_LIMIT ==> #[trigger] self.view().contains(n as u32)
    }

    /// Builds the table by testing each number up to the limit for a divisor.
    pub fn new() -> (r: SmallPrimes)
        ensures
            r.wf(),
    {
        let mut primes: Vec<u32> = Vec::new();
        let mut c: u32 = 2;
        while c <= SMALL_PRIME_LIMIT
            invariant
                2 <= c <= SMALL_PRIME_LIMIT + 1,
                forall|i: int, j: int| 0 <= i < j < primes@.len() ==> primes@[i] < primes@[j],
                forall|i: int| 0 <= i < primes@.len() ==> #[trigger] primes@[i] < c,
                forall|i: int| 0 <= i < primes@.len() ==> #[trigger] is_prime(primes@[i] as nat),
                forall|n: nat| is_prime(n) && n < c ==> #[trigger] primes@.contains(n as u32),
            decreases SMALL_PRIME_LIMIT + 1 - c,
        {
            let mut d: u32 = 2;
            let mut found = false;
            while !found && d <= c / d
                invariant
                    2 <= d <= c,
                    c <= SMALL_PRIME_LIMIT,
                    found ==> (c as nat) % (d as nat) == 0 && d < c,
                    !found ==> forall|e: nat| 2 <= e < d ==> #[trigger] ((c as nat) % e) != 0,
                decreases c - d + (if found { 0int } else { 1int }),
            {
                assert(d * d <= c && d < c) by (nonlinear_arith)
                    requires d <= c / d, d >= 2, c >= 2;
                if c % d == 0 {
                    found = true;
                } else {
                    d = d + 1;
                }
            }
            let ghost before = primes@;
            if !found {
                assert(d * d > c) by (nonlinear_arith)
                    requires d > c / d, d >= 2;
                proof {
                    lemma_no_divisor_below_root(c as nat, d as nat);
                }
                primes.push(c);
                assert forall|n: nat| is_prime(n) && n < c + 1 implies #[trigger] primes@.contains(n as u32) by {
                    if n == c {
                        assert(primes@[primes@.len() - 1] == c);
                    } else {
                        assert(before.contains(n as u32));
                        let k = choose|k: int| 0 <= k < before.len() && before[k] == n as u32;
                        assert(primes@[k] == n as u32);
                    }
                }
            } else {
                assert(!is_prime(c as nat)) by {
                    assert((c as nat) % (d as nat) == 0);
                }
            }
            c = c + 1;
        }
        SmallPrimes { primes }
    }
}

impl SmallPrimes {
    /// Whether `n` has a factor in the table other than itself.
    pub fn has_small_factor(&self, n: &BigNat) -> (r: bool)
        requires
            self.wf(),
        ensures
            r == has_small_factor_spec(n.value()),
    {
        let len = self.len();
        let mut i: usize = 0;
        while i < len
            invariant
                self.wf(),
                len == self@.len(),
                0 <= i <= len,
                forall|k: int| 0 <= k < i ==> !(n.value() % (#[trigger] self@[k]) as nat == 0
                    && n.value() != self@[k] as nat),
            decreases len - i,
        {
            let q = self.get(i);
            assert(is_prime(self@[i as int] as nat));
            if n.rem_small(q) == 0 && !n.equals(&BigNat::from_u64(q as u64)) {
                assert(is_prime(self@[i as int] as nat));
                return true;
            }
            i = i + 1;
        }
        assert forall|p: nat| #[trigger] is_prime(p) && p <= SMALL_PRIME_LIMIT
            implies !(n.value() % p == 0 && n.value() != p) by {
            assert(self@.contains(p as u32));
            let k = choose|k: int| 0 <= k < self@.len() && self@[k] == p as u32;
            assert(!(n.value() % (self@[k] as nat) == 0 && n.value() != self@[k] as nat));
        }
        false
    }

    /// Whether `n` is itself one of the table's primes.
    pub fn is_small_prime(&self, n: &BigNat) -> (r: bool)
        requires
            self.wf(),
        ensures
            r == is_small_prime_spec(n.value()),
    {
        let v = match n.to_u64() {
            Some(v) => v,
            None => {
                return false;
            },
        };
        if v > SMALL_PRIME_LIMIT as u64 {
            return false;
        }
        let len = self.len();
        let mut i: usize = 0;
        while i < len
            invariant
                self.wf(),
                len == self@.len(),
                0 <= i <= len,
                v == n.value(),
                forall|k: int| 0 <= k < i ==> (#[trigger] self@[k]) as nat != v,
            decreases len - i,
        {
            if self.get(i) as u64 == v {
                return true;
            }
            i = i + 1;
        }
        proof {
            if is_prime(v as nat) {
                assert(self@.contains(v as u32));
            }
        }
        false
    }

    /// The number of primes in the table.
    pub fn len(&self) -> (r: usize)
        ensures
            r == self@.len(),
    {
        self.primes.len()
    }
}

} // verus!
