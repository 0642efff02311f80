//! The strong Lucas test with Selfridge's choice of parameters.
use crate::bignat::BigNat;
use crate::sequences::{lemma_lucas_mod, lucas_u, lucas_v};
use vstd::arithmetic::power2::pow2;
use vstd::prelude::*;

verus! {

/// `(-1 / n)` for odd `n`.
pub open spec fn neg_one_symbol(n: nat) -> int {
    if n % 4 == 1 { 1 } else { -1 }
}

/// `(2 / n)` for odd `n`.
pub open spec fn two_symbol(n: nat) -> int {
    if n % 8 == 3 || n % 8 == 5 { -1 } else { 1 }
}

/// The sign quadratic reciprocity gives when swapping odd `a` and `n`.
pub open spec fn reciprocity_sign(a: nat, n: nat) -> int {
    if a % 4 == 3 && n % 4 == 3 { -1 } else { 1 }
}

/// The Jacobi symbol `(a / n)` for `0 <= a` and odd `n`, by the rules for two and
/// for reciprocity.
pub open spec fn jacobi_nat(a: nat, n: nat) -> int
    decreases a,
{
    if a == 0 {
        if n == 1 { 1 } else { 0 }
    } else if a % 2 == 0 {
        two_symbol(n) * jacobi_nat(a / 2, n)
    } else {
        reciprocity_sign(a, n) * jacobi_nat(n % a, a)
    }
}

/// The Jacobi symbol `(a / n)` for any integer `a` and odd `n`.
pub open spec fn jacobi(a: int, n: nat) -> int {
    if a < 0 {
        neg_one_symbol(n) * jacobi_nat(((-a) % (n as int)) as nat, n)
    } else {
        jacobi_nat((a % (n as int)) as nat, n)
    }
}

/// The `k`-th candidate of Selfridge's method: 5, -7, 9, -11, 13, ...
pub open spec fn selfridge_d(k: nat) -> int {
    if k % 2 == 0 { 5 + 2 * k as int } else { -(5 + 2 * k as int) }
}

/// How many candidates of Selfridge's method are tried.
pub const SELFRIDGE_STEPS: u32 = 1000000;

/// The first candidate from the `k`-th on whose Jacobi symbol with `n` is `-1`; `None`
/// where one with symbol zero and magnitude other than `n` comes first (then `n`
/// shares a factor with it and is composite), or none is found within the steps.
pub open spec fn selfridge_search(n: nat, k: nat) -> Option<int>
    decreases SELFRIDGE_STEPS - k,
{
    if k >= SELFRIDGE_STEPS {
        None
    } else {
        let j = jacobi(selfridge_d(k), n);
        if j == -1 {
            Some(selfridge_d(k))
        } else if j == 0 && 5 + 2 * k != n {
            None
        } else {
            selfridge_search(n, k + 1)
        }
    }
}

/// Whether `n` is a perfect square.
pub open spec fn is_square(n: nat) -> bool {
    exists|r: nat| #[trigger] (r * r) == n
}

/// Halving modulo odd `n`: the residue `h` with `2 * h == x (mod n)`.
pub open spec fn half_mod(x: int, n: nat) -> int {
    let y = x % (n as int);
    if y % 2 == 0 { y / 2 } else { (y + n) / 2 }
}

/// The doubling recursion modulo `n` for the Lucas sequences with `P = 1`, given
/// residues `dm` of `D` and `qm` of `Q`: `U_2k = U_k V_k`, `V_2k = V_k^2 - 2 Q^k`,
/// `U_(k+1) = (U_k + V_k) / 2`, `V_(k+1) = (D U_k + V_k) / 2`. Where `D = 1 - 4Q`
/// it gives `(U_k, V_k, Q^k)` modulo `n` (`lemma_lucas_mod`).
pub open spec fn lucas_mod(n: nat, dm: int, qm: int, k: nat) -> (int, int, int)
    decreases k,
{
    if k == 0 {
        (0int, 2int % (n as int), 1int % (n as int))
    } else if k % 2 == 0 {
        let (u, v, qk) = lucas_mod(n, dm, qm, k / 2);
        ((u * v) % (n as int), (v * v - 2 * qk) % (n as int), (qk * qk) % (n as int))
    } else {
        let (u, v, qk) = lucas_mod(n, dm, qm, (k - 1) as nat);
        (half_mod(u + v, n), half_mod(dm * u + v, n), (qk * qm) % (n as int))
    }
}

/// The strong Lucas conditions for `D`, with `Q = (1 - D) / 4`, `n + 1 == d * 2^s`
/// and `d` odd: `U_d == 0 (mod n)` or `V_(d * 2^r) == 0 (mod n)` for some `r < s`.
pub open spec fn lucas_conditions(n: nat, d_param: int) -> bool {
    let q = (1 - d_param) / 4;
    let (d, s) = crate::probable::split_twos(n + 1);
    lucas_u(q, d) % (n as int) == 0 || exists|r: nat|
        r < s && #[trigger] (lucas_v(q, d * pow2(r)) % (n as int)) == 0
}

/// Whether odd `n` passes the strong Lucas test: it is no perfect square, Selfridge's
/// method finds `D`, and the strong conditions hold for it.
pub open spec fn strong_lucas_passes(n: nat) -> bool {
    !is_square(n) && match selfridge_search(n, 0) {
        Some(d_param) => lucas_conditions(n, d_param),
        None => false,
    }
}

/// `(a / n)` for machine-sized `a` and odd `n`.
fn jacobi_small(a: u64, n: u64) -> (r: i64)
    ensures
        r == jacobi_nat(a as nat, n as nat),
        -1 <= r <= 1,
    decreases a,
{
    if a == 0 {
        if n == 1 { 1 } else { 0 }
    } else if a % 2 == 0 {
        let s: i64 = if n % 8 == 3 || n % 8 == 5 { -1 } else { 1 };
        s * jacobi_small(a / 2, n)
    } else {
        let s: i64 = if a % 4 == 3 && n % 4 == 3 { -1 } else { 1 };
        s * jacobi_small(n % a, a)
    }
}

/// `(D / n)` for `D == -k` when `negative`, else `D == k`, with `k` odd.
pub fn jacobi_signed(negative: bool, k: u32, n: &BigNat) -> (r: i64)
    requires
        k % 2 == 1,
        n.value() % 2 == 1,
    ensures
        r == jacobi(if negative { -(k as int) } else { k as int }, n.value()),
{
    let n4 = n.rem_small(4);
    let base: i64 = match n.to_u64() {
        Some(nv) => {
            let j = jacobi_small(k as u64 % nv, nv);
            assert(j == jacobi_nat(((k as int) % (n.value() as int)) as nat, n.value()));
            j
        },
        None => {
            let s: i64 = if k % 4 == 3 && n4 == 3 { -1 } else { 1 };
            let nk = n.rem_small(k);
            proof {
                assert((k as int) % (n.value() as int) == k as int) by {
                    vstd::arithmetic::div_mod::lemma_small_mod(k as nat, n.value());
                }
            }
            let j = jacobi_small(nk as u64, k as u64);
            assert(jacobi_nat(k as nat, n.value()) == reciprocity_sign(k as nat, n.value())
                * jacobi_nat(n.value() % (k as nat), k as nat));
            assert(reciprocity_sign(k as nat, n.value()) == s);
            assert(((k as int) % (n.value() as int)) as nat == k as nat);
            assert(j == jacobi_nat(n.value() % (k as nat), k as nat));
            let r = if s == 1 { j } else { -j };
            assert(jacobi_nat(k as nat, n.value()) == s * j);
            assert(s * j == r) by (nonlinear_arith)
                requires s == 1 || s == -1, r == (if s == 1 { j as int } else { -j });
            assert(r == jacobi_nat(((k as int) % (n.value() as int)) as nat, n.value()));
            r
        },
    };
    assert(base == jacobi_nat(((k as int) % (n.value() as int)) as nat, n.value()));
    if negative {
        let r = if n4 == 1 { base } else { -base };
        proof {
            let j = jacobi_nat(((k as int) % (n.value() as int)) as nat, n.value());
            let t = neg_one_symbol(n.value());
            assert((-(-(k as int))) % (n.value() as int) == (k as int) % (n.value() as int));
            assert(t * j == r) by (nonlinear_arith)
                requires t == 1 || t == -1, j == base, r == (if t == 1 { base as int } else { -base });
        }
        r
    } else {
        base
    }
}

/// The integer `-k` when `negative`, else `k`.
pub open spec fn signed(negative: bool, k: nat) -> int {
    if negative { -(k as int) } else { k as int }
}

/// `x mod n` for `x == -k` when `negative`, else `x == k`.
fn signed_mod(negative: bool, k: u32, n: &BigNat) -> (r: BigNat)
    requires
        n.value() > 0,
    ensures
        r.value() == signed(negative, k as nat) % (n.value() as int),
{
    let km = BigNat::from_u64(k as u64).rem(n);
    if !negative || km.equals(&BigNat::from_u64(0)) {
        if negative {
            proof {
                let q = (k as int) / (n.value() as int);
                let nn = n.value() as int;
                vstd::arithmetic::div_mod::lemma_fundamental_div_mod(k as int, nn);
                assert(-(k as int) == (-q) * nn + 0) by (nonlinear_arith)
                    requires k as int == nn * q + 0;
                vstd::arithmetic::div_mod::lemma_fundamental_div_mod_converse(-(k as int), nn, -q, 0);
            }
        }
        km
    } else {
        let r = n.sub(&km);
        proof {
            let q = (k as int) / (n.value() as int);
            let nn = n.value() as int;
            let m = km.value() as int;
            vstd::arithmetic::div_mod::lemma_fundamental_div_mod(k as int, nn);
            assert(-(k as int) == (-q - 1) * nn + (nn - m)) by (nonlinear_arith)
                requires k as int == nn * q + m;
            vstd::arithmetic::div_mod::lemma_fundamental_div_mod_converse(-(k as int), nn, -q - 1, nn - m);
        }
        r
    }
}

/// Halving modulo odd `n`.
fn half(x: &BigNat, n: &BigNat) -> (r: BigNat)
    requires
        n.value() % 2 == 1,
    ensures
        r.value() == half_mod(x.value() as int, n.value()),
        r.value() < n.value(),
{
    let y = x.rem(n);
    if y.rem_small(2) == 0 {
        y.div_small(2)
    } else {
        y.add(n).div_small(2)
    }
}

/// `(U_k, V_k, Q^k)` modulo `n`, by doubling.
pub fn lucas_sequence(n: &BigNat, dm: &BigNat, qm: &BigNat, k: &BigNat) -> (r: (BigNat, BigNat, BigNat))
    requires
        n.value() % 2 == 1,
        n.value() > 1,
    ensures
        (r.0.value() as int, r.1.value() as int, r.2.value() as int) == lucas_mod(
            n.value(),
            dm.value() as int,
            qm.value() as int,
            k.value(),
        ),
        r.2.value() < n.value(),
    decreases k.value(),
{
    let nv = Ghost(n.value() as int);
    if k.equals(&BigNat::from_u64(0)) {
        let u = BigNat::from_u64(0);
        let v = BigNat::from_u64(2).rem(n);
        let q = BigNat::from_u64(1).rem(n);
        return (u, v, q);
    }
    if k.rem_small(2) == 0 {
        let h = k.div_small(2);
        let (u, v, qk) = lucas_sequence(n, dm, qm, &h);
        let u2 = u.mul(&v).rem(n);
        let two = BigNat::from_u64(2);
        let v2 = v.mul(&v).add(&two.mul(&n.sub(&qk))).rem(n);
        let q2 = qk.mul(&qk).rem(n);
        proof {
            let x = (v.value() * v.value()) as int - 2 * qk.value();
            vstd::arithmetic::div_mod::lemma_mod_multiples_vanish(2, x, nv@);
            assert(v2.value() == (nv@ * 2 + x) % nv@);
        }
        (u2, v2, q2)
    } else {
        let km = k.sub(&BigNat::from_u64(1));
        let (u, v, qk) = lucas_sequence(n, dm, qm, &km);
        let u2 = half(&u.add(&v), n);
        let v2 = half(&dm.mul(&u).add(&v), n);
        let q2 = qk.mul(qm).rem(n);
        (u2, v2, q2)
    }
}

/// Selfridge's method: the index of the first candidate `D` whose Jacobi symbol with
/// `n` is `-1`, or `None` where one with symbol zero and `|D| != n` comes first or
/// none is found.
pub fn selfridge(n: &BigNat) -> (r: Option<u32>)
    requires
        n.value() % 2 == 1,
    ensures
        r.is_none() ==> selfridge_search(n.value(), 0).is_none(),
        r.is_some() ==> r.unwrap() < SELFRIDGE_STEPS && selfridge_search(n.value(), 0) == Some(
            selfridge_d(r.unwrap() as nat),
        ),
{
    let mut k: u32 = 0;
    while k < SELFRIDGE_STEPS
        invariant
            k <= SELFRIDGE_STEPS,
            n.value() % 2 == 1,
            selfridge_search(n.value(), 0) == selfridge_search(n.value(), k as nat),
        decreases SELFRIDGE_STEPS - k,
    {
        let negative = k % 2 == 1;
        let mag = 5 + 2 * k;
        let j = jacobi_signed(negative, mag, n);
        assert(signed(negative, mag as nat) == selfridge_d(k as nat));
        if j == -1 {
            return Some(k);
        }
        if j == 0 && !n.equals(&BigNat::from_u64(mag as u64)) {
            return None;
        }
        k = k + 1;
    }
    None
}

proof fn lemma_not_square(n: nat, root: nat)
    requires
        root * root <= n,
        n < (root + 1) * (root + 1),
        root * root != n,
    ensures
        !is_square(n),
{
    assert forall|r: nat| #[trigger] (r * r) != n by {
        if r > root {
            assert(r * r >= (root + 1) * (root + 1)) by (nonlinear_arith)
                requires r >= root + 1;
        } else if r < root {
            assert(r * r <= root * root) by (nonlinear_arith)
                requires r <= root;
        }
    }
}

proof fn lemma_no_zero_v(n: nat, q: int, dm: int, qm: int, d: nat, s: nat)
    requires
        n % 2 == 1,
        n > 1,
        dm == (1 - 4 * q) % (n as int),
        qm == q % (n as int),
        forall|j: nat| j < s ==> #[trigger] lucas_mod(n, dm, qm, d * pow2(j)).1 != 0,
    ensures
        forall|j: nat| j < s ==> #[trigger] (lucas_v(q, d * pow2(j)) % (n as int)) != 0,
{
    assert forall|j: nat| j < s implies #[trigger] (lucas_v(q, d * pow2(j)) % (n as int)) != 0 by {
        lemma_lucas_mod(n, q, dm, qm, d * pow2(j));
        assert(lucas_mod(n, dm, qm, d * pow2(j)).1 != 0);
    }
}

/// Whether odd `n` passes the strong Lucas test.
pub fn strong_lucas(n: &BigNat) -> (r: bool)
    requires
        n.value() % 2 == 1,
        n.value() > 1,
    ensures
        r == strong_lucas_passes(n.value()),
{
    let root = n.sqrt();
    if root.mul(&root).equals(n) {
        assert(is_square(n.value())) by {
            assert(root.value() * root.value() == n.value());
        }
        return false;
    }
    proof {
        lemma_not_square(n.value(), root.value());
    }
    let k = match selfridge(n) {
        Some(k) => k,
        None => {
            return false;
        },
    };
    let negative = k % 2 == 1;
    let mag = 5 + 2 * k;
    let q_mag = if negative { (mag + 1) / 4 } else { (mag - 1) / 4 };
    let ghost d_param = selfridge_d(k as nat);
    let ghost q_param = (1 - d_param) / 4;
    assert((1 - d_param) / 4 == signed(!negative, q_mag as nat));
    assert(1 - 4 * q_param == d_param);
    let dm = signed_mod(negative, mag, n);
    let qm = signed_mod(!negative, q_mag, n);
    let one = BigNat::from_u64(1);
    let (d, s) = crate::probable::split_twos_exec(&n.add(&one));
    let (u, v0, q0) = lucas_sequence(n, &dm, &qm, &d);
    let zero = BigNat::from_u64(0);
    let ghost nv = n.value();
    let ghost dmv = dm.value() as int;
    let ghost qmv = qm.value() as int;
    proof {
        lemma_lucas_mod(nv, q_param, dmv, qmv, d.value());
    }
    if u.equals(&zero) {
        return true;
    }
    let mut v = v0;
    let mut qk = q0;
    let two = BigNat::from_u64(2);
    let mut r: u64 = 0;
    proof {
        vstd::arithmetic::power2::lemma2_to64();
        assert(d.value() * pow2(0) == d.value());
        assert(signed(negative, mag as nat) == d_param);
    }
    while r < s
        invariant
            nv == n.value(),
            nv % 2 == 1,
            nv > 1,
            dmv == dm.value(),
            qmv == qm.value(),
            dmv == d_param % (nv as int),
            selfridge_search(nv, 0) == Some(d_param),
            !is_square(nv),
            qmv == ((1 - d_param) / 4) % (nv as int),
            two.value() == 2,
            zero.value() == 0,
            d.value() % 2 == 1,
            crate::probable::split_twos(nv + 1) == (d.value(), s as nat),
            lucas_u(q_param, d.value()) % (nv as int) != 0,
            q_param == (1 - d_param) / 4,
            dmv == (1 - 4 * q_param) % (nv as int),
            qmv == q_param % (nv as int),
            r <= s,
            r < s ==> v.value() == lucas_mod(nv, dmv, qmv, d.value() * pow2(r as nat)).1,
            r < s ==> qk.value() == lucas_mod(nv, dmv, qmv, d.value() * pow2(r as nat)).2,
            qk.value() < nv,
            forall|j: nat| j < r ==> #[trigger] lucas_mod(nv, dmv, qmv, d.value() * pow2(j)).1 != 0,
        decreases s - r,
    {
        if v.equals(&zero) {
            proof {
                lemma_lucas_mod(nv, q_param, dmv, qmv, d.value() * pow2(r as nat));
                assert(lucas_v(q_param, d.value() * pow2(r as nat)) % (nv as int) == 0);
            }
            assert(lucas_conditions(nv, d_param));
            return true;
        }
        if r + 1 < s {
            let v2 = v.mul(&v).add(&two.mul(&n.sub(&qk))).rem(n);
            let q2 = qk.mul(&qk).rem(n);
            proof {
                let x = (v.value() * v.value()) as int - 2 * qk.value();
                vstd::arithmetic::div_mod::lemma_mod_multiples_vanish(2, x, nv as int);
                let kk = d.value() * pow2(r as nat);
                let k2 = d.value() * pow2((r + 1) as nat);
                vstd::arithmetic::power2::lemma_pow2_unfold((r + 1) as nat);
                vstd::arithmetic::power2::lemma_pow2_pos(r as nat);
                assert(k2 == 2 * kk && kk > 0) by (nonlinear_arith)
                    requires k2 == d.value() * pow2((r + 1) as nat), kk == d.value() * pow2(r as nat),
                        pow2((r + 1) as nat) == 2 * pow2(r as nat), pow2(r as nat) > 0, d.value() > 0;
                assert(k2 % 2 == 0 && k2 / 2 == kk);
            }
            v = v2;
            qk = q2;
        }
        r = r + 1;
    }
    proof {
        lemma_no_zero_v(nv, q_param, dmv, qmv, d.value(), s as nat);
    }
    false
}

} // verus!
