//! The Lucas sequences with `P = 1` and their doubling identities.
use crate::lucas::{half_mod, lucas_mod};
use vstd::arithmetic::power::pow;
use vstd::prelude::*;

verus! {

/// `U_k` for `P = 1`: `U_0 = 0`, `U_1 = 1`, `U_k = U_(k-1) - Q U_(k-2)`.
pub open spec fn lucas_u(q: int, k: nat) -> int
    decreases k,
{
    if k == 0 {
        0
    } else if k == 1 {
        1
    } else {
        lucas_u(q, (k - 1) as nat) - q * lucas_u(q, (k - 2) as nat)
    }
}

/// `V_k` for `P = 1`: `V_0 = 2`, `V_1 = 1`, `V_k = V_(k-1) - Q V_(k-2)`.
pub open spec fn lucas_v(q: int, k: nat) -> int
    decreases k,
{
    if k == 0 {
        2
    } else if k == 1 {
        1
    } else {
        lucas_v(q, (k - 1) as nat) - q * lucas_v(q, (k - 2) as nat)
    }
}

/// The successor identities, with `D = 1 - 4Q`: `2 U_(k+1) = U_k + V_k` and
/// `2 V_(k+1) = D U_k + V_k`.
pub proof fn lemma_lucas_successor(q: int, k: nat)
    ensures
        2 * lucas_u(q, k + 1) == lucas_u(q, k) + lucas_v(q, k),
        2 * lucas_v(q, k + 1) == (1 - 4 * q) * lucas_u(q, k) + lucas_v(q, k),
    decreases k,
{
    if k == 1 {
        assert(lucas_u(q, 1) == 1 && lucas_u(q, 0) == 0);
        assert(lucas_v(q, 1) == 1 && lucas_v(q, 0) == 2);
        assert(lucas_u(q, 2) == 1 - q * 0);
        assert(lucas_v(q, 2) == 1 - q * 2);
    } else if k >= 2 {
        lemma_lucas_successor(q, (k - 1) as nat);
        lemma_lucas_successor(q, (k - 2) as nat);
        let u1 = lucas_u(q, (k - 1) as nat);
        let u2 = lucas_u(q, (k - 2) as nat);
        let v1 = lucas_v(q, (k - 1) as nat);
        let v2 = lucas_v(q, (k - 2) as nat);
        let uk = lucas_u(q, k);
        let vk = lucas_v(q, k);
        assert(lucas_u(q, k + 1) == uk - q * u1);
        assert(lucas_v(q, k + 1) == vk - q * v1);
        assert(2 * (uk - q * u1) == uk + vk) by (nonlinear_arith)
            requires 2 * uk == u1 + v1, 2 * u1 == u2 + v2, uk == u1 - q * u2, vk == v1 - q * v2;
        assert(2 * (vk - q * v1) == (1 - 4 * q) * uk + vk) by (nonlinear_arith)
            requires
                2 * vk == (1 - 4 * q) * u1 + v1,
                2 * v1 == (1 - 4 * q) * u2 + v2,
                uk == u1 - q * u2,
                vk == v1 - q * v2;
    }
}

/// The addition identities: `2 U_(m+j) = U_m V_j + U_j V_m` and
/// `2 V_(m+j) = V_m V_j + D U_m U_j`, with `D = 1 - 4Q`.
pub proof fn lemma_lucas_add(q: int, m: nat, j: nat)
    ensures
        2 * lucas_u(q, m + j) == lucas_u(q, m) * lucas_v(q, j) + lucas_u(q, j) * lucas_v(q, m),
        2 * lucas_v(q, m + j) == lucas_v(q, m) * lucas_v(q, j) + (1 - 4 * q) * lucas_u(q, m) * lucas_u(q, j),
    decreases j,
{
    if j == 0 {
    } else if j == 1 {
        lemma_lucas_successor(q, m);
    } else {
        lemma_lucas_add(q, m, (j - 1) as nat);
        lemma_lucas_add(q, m, (j - 2) as nat);
        let um = lucas_u(q, m);
        let vm = lucas_v(q, m);
        let u1 = lucas_u(q, (j - 1) as nat);
        let u2 = lucas_u(q, (j - 2) as nat);
        let v1 = lucas_v(q, (j - 1) as nat);
        let v2 = lucas_v(q, (j - 2) as nat);
        let a1 = lucas_u(q, (m + j - 1) as nat);
        let a2 = lucas_u(q, (m + j - 2) as nat);
        let b1 = lucas_v(q, (m + j - 1) as nat);
        let b2 = lucas_v(q, (m + j - 2) as nat);
        assert(lucas_u(q, m + j) == a1 - q * a2);
        assert(lucas_v(q, m + j) == b1 - q * b2);
        let d = 1 - 4 * q;
        assert(2 * (a1 - q * a2) == um * (v1 - q * v2) + (u1 - q * u2) * vm) by (nonlinear_arith)
            requires 2 * a1 == um * v1 + u1 * vm, 2 * a2 == um * v2 + u2 * vm;
        assert(2 * (b1 - q * b2) == vm * (v1 - q * v2) + d * um * (u1 - q * u2)) by (nonlinear_arith)
            requires 2 * b1 == vm * v1 + d * um * u1, 2 * b2 == vm * v2 + d * um * u2;
    }
}

/// `V_k^2 - D U_k^2 == 4 Q^k`, with `D = 1 - 4Q`.
pub proof fn lemma_lucas_norm(q: int, k: nat)
    ensures
        lucas_v(q, k) * lucas_v(q, k) - (1 - 4 * q) * lucas_u(q, k) * lucas_u(q, k) == 4 * pow(q, k),
    decreases k,
{
    if k == 0 {
        reveal(pow);
    } else {
        let h = (k - 1) as nat;
        lemma_lucas_norm(q, h);
        lemma_lucas_successor(q, h);
        let u = lucas_u(q, h);
        let v = lucas_v(q, h);
        let u1 = lucas_u(q, k);
        let v1 = lucas_v(q, k);
        let p = pow(q, h);
        let d = 1 - 4 * q;
        assert(pow(q, k) == q * p) by {
            reveal(pow);
        }
        assert((2 * v1) * (2 * v1) == (d * u + v) * (d * u + v));
        assert((2 * u1) * (2 * u1) == (u + v) * (u + v));
        assert(4 * (v1 * v1 - d * u1 * u1) == (2 * v1) * (2 * v1) - d * ((2 * u1) * (2 * u1))) by (nonlinear_arith);
        assert((d * u + v) * (d * u + v) - d * ((u + v) * (u + v)) == (1 - d) * (v * v - d * u * u)) by (nonlinear_arith);
        assert((1 - d) * (v * v - d * u * u) == 16 * (q * p)) by (nonlinear_arith)
            requires v * v - d * u * u == 4 * p, d == 1 - 4 * q;
    }
}

/// The doubling identities: `U_2k = U_k V_k` and `V_2k = V_k^2 - 2 Q^k`.
pub proof fn lemma_lucas_double(q: int, k: nat)
    ensures
        lucas_u(q, k + k) == lucas_u(q, k) * lucas_v(q, k),
        lucas_v(q, k + k) == lucas_v(q, k) * lucas_v(q, k) - 2 * pow(q, k),
{
    lemma_lucas_add(q, k, k);
    lemma_lucas_norm(q, k);
    let u = lucas_u(q, k);
    let v = lucas_v(q, k);
    assert(u * v + u * v == 2 * (u * v)) by (nonlinear_arith);
}

proof fn lemma_half_mod(x: int, y: int, n: nat)
    requires
        n % 2 == 1,
        n > 1,
        x % (n as int) == (2 * y) % (n as int),
    ensures
        half_mod(x, n) == y % (n as int),
{
    let ni = n as int;
    let t = y % ni;
    vstd::arithmetic::div_mod::lemma_mul_mod_noop_right(2, y, ni);
    if 2 * t < ni {
        vstd::arithmetic::div_mod::lemma_small_mod((2 * t) as nat, n);
    } else {
        vstd::arithmetic::div_mod::lemma_fundamental_div_mod_converse(2 * t, ni, 1, 2 * t - ni);
    }
}

/// The doubling recursion modulo odd `n` computes the Lucas sequences: with residues
/// `dm` of `D = 1 - 4Q` and `qm` of `Q`, it gives `(U_k, V_k, Q^k)` modulo `n`.
pub proof fn lemma_lucas_mod(n: nat, q: int, dm: int, qm: int, k: nat)
    requires
        n % 2 == 1,
        n > 1,
        dm == (1 - 4 * q) % (n as int),
        qm == q % (n as int),
    ensures
        lucas_mod(n, dm, qm, k) == (
            lucas_u(q, k) % (n as int),
            lucas_v(q, k) % (n as int),
            pow(q, k) % (n as int),
        ),
    decreases k,
{
    let ni = n as int;
    if k == 0 {
        assert(pow(q, 0) == 1) by {
            reveal(pow);
        }
        assert(lucas_u(q, 0) == 0 && lucas_v(q, 0) == 2);
        assert(0int % ni == 0);
    } else if k % 2 == 0 {
        let h = k / 2;
        lemma_lucas_mod(n, q, dm, qm, h);
        lemma_lucas_double(q, h);
        assert(h + h == k);
        let uh = lucas_u(q, h);
        let vh = lucas_v(q, h);
        let ph = pow(q, h);
        vstd::arithmetic::div_mod::lemma_mul_mod_noop(uh, vh, ni);
        vstd::arithmetic::div_mod::lemma_mul_mod_noop(vh, vh, ni);
        vstd::arithmetic::div_mod::lemma_mul_mod_noop(ph, ph, ni);
        vstd::arithmetic::div_mod::lemma_mul_mod_noop_right(2, ph, ni);
        let a = (vh % ni) * (vh % ni);
        let b = 2 * (ph % ni);
        vstd::arithmetic::div_mod::lemma_sub_mod_noop(a, b, ni);
        vstd::arithmetic::div_mod::lemma_sub_mod_noop(vh * vh, 2 * ph, ni);
        vstd::arithmetic::power::lemma_pow_adds(q, h, h);
        assert(lucas_mod(n, dm, qm, k).0 == lucas_u(q, k) % ni);
        assert(lucas_mod(n, dm, qm, k).1 == lucas_v(q, k) % ni);
        assert(lucas_mod(n, dm, qm, k).2 == pow(q, k) % ni);
    } else {
        let h = (k - 1) as nat;
        lemma_lucas_mod(n, q, dm, qm, h);
        lemma_lucas_successor(q, h);
        let uh = lucas_u(q, h);
        let vh = lucas_v(q, h);
        let ph = pow(q, h);
        vstd::arithmetic::div_mod::lemma_add_mod_noop(uh, vh, ni);
        lemma_half_mod((uh % ni) + (vh % ni), lucas_u(q, k), n);
        vstd::arithmetic::div_mod::lemma_mul_mod_noop(1 - 4 * q, uh, ni);
        vstd::arithmetic::div_mod::lemma_add_mod_noop(dm * (uh % ni), vh % ni, ni);
        vstd::arithmetic::div_mod::lemma_add_mod_noop((1 - 4 * q) * uh, vh, ni);
        vstd::arithmetic::div_mod::lemma_mod_twice(vh, ni);
        assert((dm * (uh % ni) + vh % ni) % ni == ((1 - 4 * q) * uh + vh) % ni);
        lemma_half_mod(dm * (uh % ni) + vh % ni, lucas_v(q, k), n);
        vstd::arithmetic::div_mod::lemma_mul_mod_noop(ph, q, ni);
        assert(pow(q, k) == q * ph) by {
            reveal(pow);
        }
        assert(ph * q == q * ph) by (nonlinear_arith);
        assert(lucas_mod(n, dm, qm, k).0 == lucas_u(q, k) % ni);
        assert(lucas_mod(n, dm, qm, k).1 == lucas_v(q, k) % ni);
        assert(lucas_mod(n, dm, qm, k).2 == pow(q, k) % ni);
    }
}

} // verus!
