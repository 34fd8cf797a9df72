//! Fermat's little theorem: for a prime `p` and `a` not a multiple of `p`,
//! `a^(p-1) = 1` modulo `p`. It is why `a^(p-2)` is the inverse of `a`.
//!
//! The proof is the classical one. Euclid's lemma gives that `p` divides
//! the binomial coefficients `C(p, k)` for `0 < k < p`; the binomial theorem
//! then gives `(a + 1)^p = a^p + 1` modulo `p`, and `a^p = a` follows by
//! induction on `a`.

use vstd::prelude::*;
use vstd::arithmetic::power::pow;
use vstd::arithmetic::power::lemma_pow0;
use vstd::arithmetic::power::lemma_pow1;
use vstd::arithmetic::power::lemma_pow_adds;
use vstd::arithmetic::div_mod::lemma_fundamental_div_mod;
use vstd::arithmetic::div_mod::lemma_mod_bound;
use vstd::arithmetic::div_mod::lemma_small_mod;
use vstd::arithmetic::div_mod::lemma_mod_multiples_basic;
use vstd::arithmetic::div_mod::lemma_mul_mod_noop_general;
use vstd::arithmetic::div_mod::lemma_add_mod_noop;
use vstd::arithmetic::div_mod::lemma_sub_mod_noop;
use super::modular::lemma_mod_add_multiple;
use super::modular::mod_pow;
use super::modular::mod_mul;

verus! {

/// Whether `p` is a prime number.
pub open spec fn is_prime(p: nat) -> bool {
    p >= 2 && forall|d: nat| 1 < d < p ==> #[trigger] (p % d) != 0
}

/// Whether `p` divides `x`.
pub open spec fn divides(p: int, x: int) -> bool {
    x % p == 0
}

/// A number that `p` divides is `p` times its quotient by `p`.
pub proof fn lemma_divides_quotient(p: int, x: int)
    requires
        p > 0,
        divides(p, x),
    ensures
        x == p * (x / p),
{
    lemma_fundamental_div_mod(x, p);
}

/// `p` divides its multiples.
pub proof fn lemma_multiple_divides(p: int, k: int)
    requires
        p > 0,
    ensures
        divides(p, p * k),
        divides(p, k * p),
{
    lemma_mod_multiples_basic(k, p);
    assert(k * p == p * k) by (nonlinear_arith);
}

/// Euclid's lemma for a factor below the prime: if `p` divides `x * y`
/// and `0 < x < p`, then `p` divides `y`.
proof fn lemma_euclid_small(p: nat, x: nat, y: int)
    requires
        is_prime(p),
        0 < x < p,
        divides(p as int, x * y),
    ensures
        divides(p as int, y),
    decreases x,
{
    let pi = p as int;
    let xi = x as int;
    if x == 1 {
        assert(1 * y == y);
    } else {
        let q = pi / xi;
        let r = pi % xi;
        lemma_fundamental_div_mod(pi, xi);
        lemma_mod_bound(pi, xi);
        assert(p % x != 0);
        assert(0 < r < xi);
        // r * y = p * y - q * (x * y)
        lemma_divides_quotient(pi, xi * y);
        let k = (xi * y) / pi;
        assert(r * y == pi * (y - q * k)) by (nonlinear_arith)
            requires
                pi == xi * q + r,
                xi * y == pi * k,
        ;
        lemma_multiple_divides(pi, y - q * k);
        lemma_euclid_small(p, r as nat, y);
    }
}

/// Euclid's lemma: a prime that divides a product divides a factor.
pub proof fn lemma_euclid(p: nat, x: int, y: int)
    requires
        is_prime(p),
        divides(p as int, x * y),
    ensures
        divides(p as int, x) || divides(p as int, y),
{
    let pi = p as int;
    if !divides(pi, x) {
        let r = x % pi;
        lemma_mod_bound(x, pi);
        lemma_mul_mod_noop_general(x, y, pi);
        lemma_mul_mod_noop_general(r, y, pi);
        assert(divides(pi, r * y));
        lemma_euclid_small(p, r as nat, y);
    }
}

/// The binomial coefficient `C(n, k)`, by Pascal's rule.
pub open spec fn binomial(n: nat, k: nat) -> nat
    decreases n,
{
    if k == 0 {
        1
    } else if n == 0 {
        0
    } else {
        binomial((n - 1) as nat, (k - 1) as nat) + binomial((n - 1) as nat, k)
    }
}

/// `C(n, k) = 0` for `k > n`, and `C(n, n) = 1`.
proof fn lemma_binomial_edge(n: nat, k: nat)
    ensures
        k > n ==> binomial(n, k) == 0,
        binomial(n, n) == 1,
    decreases n,
{
    if n > 0 {
        lemma_binomial_edge((n - 1) as nat, (k - 1) as nat);
        lemma_binomial_edge((n - 1) as nat, k);
        lemma_binomial_edge((n - 1) as nat, n);
    }
}

/// `k * C(n, k) = n * C(n - 1, k - 1)`.
proof fn lemma_binomial_absorb(n: nat, k: nat)
    requires
        n >= 1,
        k >= 1,
    ensures
        k * binomial(n, k) == n * binomial((n - 1) as nat, (k - 1) as nat),
    decreases n,
{
    let n1 = (n - 1) as nat;
    let k1 = (k - 1) as nat;
    if n == 1 {
        lemma_binomial_edge(0, k);
        lemma_binomial_edge(0, k1);
        if k == 1 {
            assert(binomial(1, 1) == 1);
        } else {
            assert(binomial(0, k1) == 0);
            assert(binomial(1, k) == 0);
            assert(k * 0 == 0 && n * 0 == 0);
        }
    } else {
        // C(n, k) = C(n1, k1) + C(n1, k)
        let a = binomial(n1, k1) as int;
        let b = binomial(n1, k) as int;
        let n2 = (n1 - 1) as nat;
        lemma_binomial_absorb(n1, k);
        // k * b = n1 * C(n2, k1)
        let c = binomial(n2, k1) as int;
        if k == 1 {
            // a = 1, c = 1
            assert(a == 1);
            assert(c == 1);
            assert(1 * (a + b) == n * a) by (nonlinear_arith)
                requires
                    1 * b == n1 * c,
                    a == 1,
                    c == 1,
                    n == n1 + 1,
            ;
        } else {
            lemma_binomial_absorb(n1, k1);
            let d = binomial(n2, (k1 - 1) as nat) as int;
            // k1 * a = n1 * d, and a = d + c
            assert(a == d + c);
            assert(k * (a + b) == n * a) by (nonlinear_arith)
                requires
                    k * b == n1 * c,
                    k1 * a == n1 * d,
                    a == d + c,
                    k == k1 + 1,
                    n == n1 + 1,
            ;
        }
    }
}

/// A prime `p` divides `C(p, k)` for `0 < k < p`.
proof fn lemma_binomial_prime(p: nat, k: nat)
    requires
        is_prime(p),
        0 < k < p,
    ensures
        divides(p as int, binomial(p, k) as int),
{
    lemma_binomial_absorb(p, k);
    let c = binomial(p, k) as int;
    let d = binomial((p - 1) as nat, (k - 1) as nat) as int;
    assert(k * c == (p as int) * d);
    lemma_multiple_divides(p as int, d);
    assert(divides(p as int, k * c));
    lemma_euclid_small(p, k, c);
}

/// The sum of `C(n, k) * a^k` over `k < m`.
pub open spec fn binomial_sum(n: nat, a: int, m: nat) -> int
    decreases m,
{
    if m == 0 {
        0
    } else {
        binomial_sum(n, a, (m - 1) as nat) + binomial(n, (m - 1) as nat) * pow(a, (m - 1) as nat)
    }
}

/// Pascal's rule on the sums:
/// `sum(n + 1, m + 1) = sum(n, m + 1) + a * sum(n, m)`.
proof fn lemma_binomial_sum_step(n: nat, a: int, m: nat)
    ensures
        binomial_sum(n + 1, a, m + 1) == binomial_sum(n, a, m + 1) + a * binomial_sum(n, a, m),
    decreases m,
{
    if m == 0 {
        assert(binomial_sum(n + 1, a, 0) == 0);
        assert(binomial_sum(n, a, 0) == 0);
        assert(binomial(n + 1, 0) == 1);
        assert(binomial(n, 0) == 1);
        assert(a * 0 == 0);
    } else {
        let m1 = (m - 1) as nat;
        lemma_binomial_sum_step(n, a, m1);
        // sum(n+1, m+1) = sum(n+1, m) + C(n+1, m) a^m
        let s1 = binomial_sum(n + 1, a, m);
        let s0 = binomial_sum(n, a, m);
        let sm = binomial_sum(n, a, m1);
        let c = binomial(n, m) as int;
        let c1 = binomial(n, m1) as int;
        let am = pow(a, m);
        let am1 = pow(a, m1);
        assert(binomial(n + 1, m) == c1 + c);
        lemma_pow_adds(a, 1, m1);
        lemma_pow1(a);
        assert(am == a * am1);
        assert(binomial_sum(n + 1, a, m + 1) == s1 + (c1 + c) * am);
        assert(binomial_sum(n, a, m + 1) == s0 + c * am);
        assert(s0 == sm + c1 * am1);
        assert(s1 == s0 + a * sm);
        assert(s1 + (c1 + c) * am == (s0 + c * am) + a * (sm + c1 * am1)) by (nonlinear_arith)
            requires
                s1 == s0 + a * sm,
                am == a * am1,
        ;
    }
}

/// The binomial theorem: `(a + 1)^n` is the sum of `C(n, k) * a^k` over
/// `k <= n`.
proof fn lemma_binomial_theorem(n: nat, a: int)
    ensures
        pow(a + 1, n) == binomial_sum(n, a, n + 1),
    decreases n,
{
    if n == 0 {
        lemma_pow0(a + 1);
        lemma_pow0(a);
        assert(binomial_sum(0, a, 0) == 0);
        assert(binomial_sum(0, a, 1) == binomial_sum(0, a, 0) + binomial(0, 0) * pow(a, 0));
    } else {
        let n1 = (n - 1) as nat;
        lemma_binomial_theorem(n1, a);
        lemma_binomial_sum_step(n1, a, n);
        // sum(n1, n + 1) = sum(n1, n) + C(n1, n) a^n = sum(n1, n)
        lemma_binomial_edge(n1, n);
        assert(binomial(n1, n) == 0);
        assert(0 * pow(a, n) == 0);
        assert(binomial_sum(n1, a, n + 1) == binomial_sum(n1, a, n));
        lemma_pow_adds(a + 1, 1, n1);
        lemma_pow1(a + 1);
        let s = binomial_sum(n1, a, n);
        assert((a + 1) * s == s + a * s) by (nonlinear_arith);
    }
}

/// Modulo a prime `p`, the sum of `C(p, k) * a^k` over `k < m` is 1 for
/// `1 <= m <= p`: all terms but the first vanish.
proof fn lemma_binomial_sum_prime(p: nat, a: int, m: nat)
    requires
        is_prime(p),
        1 <= m <= p,
    ensures
        binomial_sum(p, a, m) % (p as int) == 1,
    decreases m,
{
    let pi = p as int;
    if m == 1 {
        lemma_pow0(a);
        assert(binomial_sum(p, a, 0) == 0);
        assert(binomial_sum(p, a, 1) == binomial_sum(p, a, 0) + binomial(p, 0) * pow(a, 0));
        lemma_small_mod(1, p);
    } else {
        let m1 = (m - 1) as nat;
        lemma_binomial_sum_prime(p, a, m1);
        lemma_binomial_prime(p, m1);
        let c = binomial(p, m1) as int;
        let t = pow(a, m1);
        lemma_mul_mod_noop_general(c, t, pi);
        assert(0 * (t % pi) == 0);
        lemma_small_mod(0, p);
        assert((c * t) % pi == 0);
        lemma_add_mod_noop(binomial_sum(p, a, m1), c * t, pi);
        lemma_small_mod(1, p);
    }
}

/// `a^p = a` modulo a prime `p`, for `a >= 0`.
proof fn lemma_fermat_power(p: nat, a: nat)
    requires
        is_prime(p),
    ensures
        pow(a as int, p) % (p as int) == (a as int) % (p as int),
    decreases a,
{
    let pi = p as int;
    if a == 0 {
        vstd::arithmetic::power::lemma0_pow(p);
    } else {
        let b = (a - 1) as int;
        lemma_fermat_power(p, (a - 1) as nat);
        lemma_binomial_theorem(p, b);
        lemma_binomial_sum_prime(p, b, p);
        // (b + 1)^p = sum(p, b, p) + C(p, p) b^p
        lemma_binomial_edge(p, p);
        let s = binomial_sum(p, b, p);
        let bp = pow(b, p);
        assert(binomial_sum(p, b, p + 1) == s + binomial(p, p) * bp);
        assert(1 * bp == bp);
        lemma_add_mod_noop(s, bp, pi);
        lemma_add_mod_noop(1, b, pi);
        lemma_small_mod(1, p);
    }
}

/// Fermat's little theorem: `a^(p-1) = 1` modulo a prime `p` that does not
/// divide `a`.
pub proof fn lemma_fermat(p: nat, a: nat)
    requires
        is_prime(p),
        a % p != 0,
    ensures
        pow(a as int, (p - 1) as nat) % (p as int) == 1,
{
    let pi = p as int;
    let ai = a as int;
    let e = (p - 1) as nat;
    lemma_fermat_power(p, a);
    lemma_pow_adds(ai, 1, e);
    lemma_pow1(ai);
    let t = pow(ai, e);
    // a * t = a (mod p), so p divides a * (t - 1)
    assert(ai * (t - 1) == ai * t - ai) by (nonlinear_arith);
    lemma_sub_mod_noop(ai * t, ai, pi);
    lemma_small_mod(0, p);
    assert(divides(pi, ai * (t - 1)));
    lemma_euclid(p, ai, t - 1);
    assert(divides(pi, t - 1));
    lemma_divides_quotient(pi, t - 1);
    lemma_mod_add_multiple(1, (t - 1) / pi, pi);
    lemma_small_mod(1, p);
}

/// For a prime `p` and `0 < a < p`: `a * a^(p-2) = 1` modulo `p`, and
/// `a^(p-2)` is not 0.
pub proof fn lemma_inverse_by_power(p: nat, a: nat)
    requires
        is_prime(p),
        0 < a < p,
    ensures
        mod_mul(a, mod_pow(a, (p - 2) as nat, p), p) == 1,
        mod_pow(a, (p - 2) as nat, p) != 0,
{
    let pi = p as int;
    let ai = a as int;
    let e = (p - 2) as nat;
    lemma_small_mod(a, p);
    lemma_fermat(p, a);
    lemma_pow_adds(ai, 1, e);
    lemma_pow1(ai);
    let t = pow(ai, e);
    lemma_mul_mod_noop_general(ai, t, pi);
    lemma_mod_bound(t, pi);
    if t % pi == 0 {
        assert(ai * 0 == 0);
        lemma_small_mod(0, p);
    }
}

/// For a prime `p > 2`: `0^(p-2) = 0` modulo `p`.
pub proof fn lemma_zero_not_invertible(p: nat)
    requires
        p > 2,
    ensures
        mod_pow(0, (p - 2) as nat, p) == 0,
{
    vstd::arithmetic::power::lemma0_pow((p - 2) as nat);
    lemma_small_mod(0, p);
}

} // verus!
