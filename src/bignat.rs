//! Arbitrary-precision natural numbers, with arithmetic supplied by `num_bigint`.
use num_bigint::BigUint;
use vstd::arithmetic::power::pow;
use vstd::arithmetic::power2::pow2;
use vstd::prelude::*;

verus! {

/// Value of little-endian base-2^32 digits.
pub open spec fn digits_val(d: Seq<u32>) -> nat
    decreases d.len(),
{
    if d.len() == 0 {
        0
    } else {
        d[0] as nat + 4294967296 * digits_val(d.subrange(1, d.len() as int))
    }
}

/// Value of little-endian bytes.
pub open spec fn bytes_val(b: Seq<u8>) -> nat
    decreases b.len(),
{
    if b.len() == 0 {
        0
    } else {
        b[0] as nat + 256 * bytes_val(b.subrange(1, b.len() as int))
    }
}

/// Number of binary digits of `v` (zero has none).
pub open spec fn bit_len(v: nat) -> nat
    decreases v,
{
    if v == 0 {
        0
    } else {
        1 + bit_len(v / 2)
    }
}

/// Whether the last digit, if any, is nonzero.
pub open spec fn no_high_zero(d: Seq<u32>) -> bool {
    d.len() == 0 || d[d.len() - 1] != 0
}

proof fn lemma_high_zero(d: Seq<u32>)
    ensures
        digits_val(d.push(0)) == digits_val(d),
    decreases d.len(),
{
    let e = d.push(0);
    if d.len() == 0 {
        assert(e.subrange(1, 1) =~= Seq::<u32>::empty());
        assert(digits_val(Seq::<u32>::empty()) == 0);
        assert(digits_val(e) == e[0] as nat + 4294967296 * digits_val(e.subrange(1, 1)));
    } else {
        let t = d.subrange(1, d.len() as int);
        assert(e.subrange(1, e.len() as int) =~= t.push(0));
        lemma_high_zero(t);
        assert(digits_val(e) == e[0] as nat + 4294967296 * digits_val(t.push(0)));
        assert(digits_val(d) == d[0] as nat + 4294967296 * digits_val(t));
    }
}

/// The digits without their high zero digits.
fn strip_high_zeros(digits: Vec<u32>) -> (r: Vec<u32>)
    ensures
        digits_val(r@) == digits_val(digits@),
        no_high_zero(r@),
{
    let mut v = digits;
    let ghost given = v@;
    while v.len() > 0 && v[v.len() - 1] == 0
        invariant
            digits_val(v@) == digits_val(given),
        decreases v.len(),
    {
        let ghost before = v@;
        v.pop();
        proof {
            assert(before =~= v@.push(0));
            lemma_high_zero(v@);
        }
    }
    v
}

/// A natural number of any size, stored as little-endian base-2^32 digits.
#[derive(Debug)]
pub struct BigNat {
    digits: Vec<u32>,
}

impl BigNat {
    /// The number this value stands for.
    pub closed spec fn value(&self) -> nat {
        digits_val(self.digits@)
    }

    /// The number with the given digits, least significant first.
    pub fn from_digits(digits: Vec<u32>) -> (r: BigNat)
        ensures
            r.value() == digits_val(digits@),
    {
        BigNat { digits: strip_high_zeros(digits) }
    }

    /// The little-endian base-2^32 digits of the value, without high zero digits.
    pub fn to_digits(&self) -> (r: Vec<u32>)
        ensures
            digits_val(r@) == self.value(),
            no_high_zero(r@),
    {
        strip_high_zeros(self.digits.clone())
    }

    /// The number `n`.
    pub fn from_u64(n: u64) -> (r: BigNat)
        ensures
            r.value() == n,
    {
        let lo = (n % 4294967296) as u32;
        let hi = (n / 4294967296) as u32;
        let v = vec![lo, hi];
        proof {
            let s = v@;
            assert(s.subrange(1, 2).subrange(1, 1) =~= Seq::<u32>::empty());
            assert(digits_val(s.subrange(1, 2)) == hi as nat + 4294967296 * digits_val(s.subrange(1, 2).subrange(1, 1)));
            assert(digits_val(s) == lo as nat + 4294967296 * digits_val(s.subrange(1, 2)));
        }
        BigNat { digits: strip_high_zeros(v) }
    }

    /// Relies on `BigUint::from_bytes_le`: the bytes are read least significant first.
    #[verifier::external_body]
    pub(crate) fn from_bytes_le(bytes: &Vec<u8>) -> (r: BigNat)
        ensures
            r.value() == bytes_val(bytes@),
    {
        BigNat { digits: BigUint::from_bytes_le(bytes).to_u32_digits() }
    }

    /// A copy of this number.
    pub fn copy(&self) -> (r: BigNat)
        ensures
            r.value() == self.value(),
    {
        BigNat { digits: self.digits.clone() }
    }

    /// Relies on `u64::try_from(&BigUint)`: the value where it fits in 64 bits.
    #[verifier::external_body]
    pub(crate) fn to_u64(&self) -> (r: Option<u64>)
        ensures
            r.is_some() == (self.value() <= u64::MAX),
            r.is_some() ==> r.unwrap() == self.value(),
    {
        u64::try_from(&BigUint::from_slice(&self.digits)).ok()
    }

    /// Relies on `BigUint::bits`: the fewest bits that express the value.
    #[verifier::external_body]
    pub(crate) fn bits(&self) -> (r: u64)
        ensures
            r == bit_len(self.value()),
    {
        BigUint::from_slice(&self.digits).bits()
    }

    /// Relies on `BigUint == BigUint`: whether the values are equal.
    #[verifier::external_body]
    pub(crate) fn equals(&self, other: &BigNat) -> (r: bool)
        ensures
            r == (self.value() == other.value()),
    {
        BigUint::from_slice(&self.digits) == BigUint::from_slice(&other.digits)
    }

    /// Relies on `BigUint < BigUint`: whether this value is the smaller.
    #[verifier::external_body]
    pub(crate) fn less_than(&self, other: &BigNat) -> (r: bool)
        ensures
            r == (self.value() < other.value()),
    {
        BigUint::from_slice(&self.digits) < BigUint::from_slice(&other.digits)
    }

    /// Relies on `BigUint + BigUint`: the sum.
    #[verifier::external_body]
    pub(crate) fn add(&self, other: &BigNat) -> (r: BigNat)
        ensures
            r.value() == self.value() + other.value(),
    {
        BigNat {
            digits: (BigUint::from_slice(&self.digits) + BigUint::from_slice(&other.digits)).to_u32_digits(),
        }
    }

    /// Relies on `BigUint - BigUint`, which panics below zero: the difference.
    #[verifier::external_body]
    pub(crate) fn sub(&self, other: &BigNat) -> (r: BigNat)
        requires
            other.value() <= self.value(),
        ensures
            r.value() == self.value() - other.value(),
    {
        BigNat {
            digits: (BigUint::from_slice(&self.digits) - BigUint::from_slice(&other.digits)).to_u32_digits(),
        }
    }

    /// Relies on `BigUint * BigUint`: the product.
    #[verifier::external_body]
    pub(crate) fn mul(&self, other: &BigNat) -> (r: BigNat)
        ensures
            r.value() == self.value() * other.value(),
    {
        BigNat {
            digits: (BigUint::from_slice(&self.digits) * BigUint::from_slice(&other.digits)).to_u32_digits(),
        }
    }

    /// Relies on `BigUint % BigUint`, which panics on a zero divisor: the remainder.
    #[verifier::external_body]
    pub(crate) fn rem(&self, m: &BigNat) -> (r: BigNat)
        requires
            m.value() > 0,
        ensures
            r.value() == self.value() % m.value(),
    {
        BigNat {
            digits: (BigUint::from_slice(&self.digits) % BigUint::from_slice(&m.digits)).to_u32_digits(),
        }
    }

    /// Relies on `BigUint / u32`, which panics on a zero divisor: the quotient.
    #[verifier::external_body]
    pub(crate) fn div_small(&self, q: u32) -> (r: BigNat)
        requires
            q > 0,
        ensures
            r.value() == self.value() / (q as nat),
    {
        BigNat { digits: (BigUint::from_slice(&self.digits) / q).to_u32_digits() }
    }

    /// The remainder of the value divided by `q`, reading the digits from the most
    /// significant one down.
    pub fn rem_small(&self, q: u32) -> (r: u32)
        requires
            q > 0,
        ensures
            r == self.value() % (q as nat),
    {
        let len = self.digits.len();
        let mut i: usize = len;
        let mut acc: u64 = 0;
        proof {
            assert(self.digits@.subrange(len as int, len as int) =~= Seq::<u32>::empty());
            assert(digits_val(Seq::<u32>::empty()) == 0);
        }
        while i > 0
            invariant
                i <= len,
                len == self.digits@.len(),
                q > 0,
                acc < q,
                acc == digits_val(self.digits@.subrange(i as int, len as int)) % (q as nat),
            decreases i,
        {
            let d = self.digits[i - 1];
            let ghost tail = self.digits@.subrange(i as int, len as int);
            let ghost whole = self.digits@.subrange(i - 1, len as int);
            assert(whole.subrange(1, whole.len() as int) =~= tail);
            assert(digits_val(whole) == d as nat + 4294967296 * digits_val(tail));
            assert(acc * 4294967296 + d < 0x1_0000_0000 * 0x1_0000_0000) by (nonlinear_arith)
                requires acc < q, q <= 0xffff_ffff, d <= 0xffff_ffff;
            let next = (acc * 4294967296 + d as u64) % (q as u64);
            proof {
                let v = digits_val(tail) as int;
                let qi = q as int;
                vstd::arithmetic::div_mod::lemma_mul_mod_noop_right(4294967296, v, qi);
                vstd::arithmetic::div_mod::lemma_add_mod_noop_right(d as int, 4294967296 * v, qi);
                vstd::arithmetic::div_mod::lemma_add_mod_noop_right(d as int, 4294967296 * (v % qi), qi);
                vstd::arithmetic::div_mod::lemma_mul_mod_noop_right(4294967296, v % qi, qi);
            }
            acc = next;
            i = i - 1;
        }
        proof {
            assert(self.digits@.subrange(0, len as int) =~= self.digits@);
        }
        acc as u32
    }

    /// Relies on `BigUint::modpow`, which panics on a zero modulus: the value raised
    /// to `exponent`, reduced modulo `modulus`.
    #[verifier::external_body]
    pub(crate) fn modpow(&self, exponent: &BigNat, modulus: &BigNat) -> (r: BigNat)
        requires
            modulus.value() > 1,
        ensures
            r.value() == pow(self.value() as int, exponent.value()) % (modulus.value() as int),
    {
        let b = BigUint::from_slice(&self.digits);
        let r = b.modpow(&BigUint::from_slice(&exponent.digits), &BigUint::from_slice(&modulus.digits));
        BigNat { digits: r.to_u32_digits() }
    }

    /// Relies on `BigUint::one() << k`: two raised to `k`.
    #[verifier::external_body]
    pub(crate) fn power_of_two(k: u64) -> (r: BigNat)
        ensures
            r.value() == pow2(k as nat),
    {
        BigNat { digits: (BigUint::from(1u32) << k).to_u32_digits() }
    }

    /// Relies on `BigUint::sqrt`: the integer square root, rounded down.
    #[verifier::external_body]
    pub(crate) fn sqrt(&self) -> (r: BigNat)
        ensures
            r.value() * r.value() <= self.value(),
            self.value() < (r.value() + 1) * (r.value() + 1),
    {
        BigNat { digits: BigUint::from_slice(&self.digits).sqrt().to_u32_digits() }
    }
}

} // verus!

verus! {

impl BigNat {
    /// Relies on `BigUint::trailing_zeros`: the number of low zero bits of a nonzero value.
    #[verifier::external_body]
    pub(crate) fn trailing_zeros(&self) -> (r: Option<u64>)
        ensures
            r.is_none() == (self.value() == 0),
            r.is_some() ==> self.value() % pow2(r.unwrap() as nat) == 0,
            r.is_some() ==> (self.value() / pow2(r.unwrap() as nat)) % 2 == 1,
    {
        BigUint::from_slice(&self.digits).trailing_zeros()
    }

    /// Relies on `BigUint >> u64`: the value divided by two raised to `k`.
    #[verifier::external_body]
    pub(crate) fn shr(&self, k: u64) -> (r: BigNat)
        ensures
            r.value() == self.value() / pow2(k as nat),
    {
        BigNat { digits: (BigUint::from_slice(&self.digits) >> k).to_u32_digits() }
    }
}

} // verus!
