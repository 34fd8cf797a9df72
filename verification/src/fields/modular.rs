//! Arithmetic modulo a number: the mathematics that the field strategies
//! are specified by.

use vstd::prelude::*;
use vstd::arithmetic::power::pow;
use vstd::arithmetic::div_mod::lemma_mul_mod_noop_general;
use vstd::arithmetic::div_mod::lemma_mod_multiples_vanish;
use vstd::arithmetic::div_mod::lemma_small_mod;
use vstd::arithmetic::div_mod::lemma_add_mod_noop;
use vstd::arithmetic::div_mod::lemma_sub_mod_noop;
use vstd::arithmetic::div_mod::lemma_mod_bound;

use crate::biginteger::limb::Limb;
use crate::biginteger::limb::bit;
use crate::biginteger::limbint::LimbInt;

verus! {

/// `(a + b) mod p`.
pub open spec fn mod_add(a: nat, b: nat, p: nat) -> nat {
    (a + b) % p
}

/// `(a - b) mod p`, in `[0, p)`.
pub open spec fn mod_sub(a: nat, b: nat, p: nat) -> nat {
    ((a as int - b as int) % (p as int)) as nat
}

/// `(-a) mod p`, in `[0, p)`.
pub open spec fn mod_neg(a: nat, p: nat) -> nat {
    mod_sub(0, a, p)
}

/// `(a * b) mod p`.
pub open spec fn mod_mul(a: nat, b: nat, p: nat) -> nat {
    (a * b) % p
}

/// `a^e mod p`.
pub open spec fn mod_pow(a: nat, e: nat, p: nat) -> nat {
    (pow(a as int, e) % (p as int)) as nat
}

/// Adding a multiple of `p` does not change a number modulo `p`.
pub proof fn lemma_mod_add_multiple(a: int, k: int, p: int)
    requires
        p > 0,
    ensures
        (a + k * p) % p == a % p,
        (a + p * k) % p == a % p,
{
    lemma_mod_multiples_vanish(k, a, p);
    assert(k * p == p * k) by (nonlinear_arith);
}

/// Congruent numbers stay congruent when multiplied by the same number.
pub proof fn lemma_mod_mul_congruent(a: int, b: int, c: int, p: int)
    requires
        p > 0,
        a % p == b % p,
    ensures
        (a * c) % p == (b * c) % p,
        (c * a) % p == (c * b) % p,
{
    lemma_mul_mod_noop_general(a, c, p);
    lemma_mul_mod_noop_general(b, c, p);
    lemma_mul_mod_noop_general(c, a, p);
    lemma_mul_mod_noop_general(c, b, p);
}

/// A number in `[0, p)` that is congruent to `a` is `a mod p`.
pub proof fn lemma_mod_unique(r: int, a: int, k: int, p: int)
    requires
        p > 0,
        0 <= r < p,
        r == a + k * p,
    ensures
        r == a % p,
{
    lemma_mod_add_multiple(a, k, p);
    lemma_small_mod(r as nat, p as nat);
}

/// `a^0 = 1` and `a^1 = a`, modulo `p >= 2`.
pub proof fn lemma_mod_pow_zero(a: nat, p: nat)
    requires
        p >= 2,
        a < p,
    ensures
        mod_pow(a, 0, p) == 1,
        mod_pow(a, 1, p) == a,
{
    vstd::arithmetic::power::lemma_pow0(a as int);
    vstd::arithmetic::power::lemma_pow1(a as int);
    lemma_small_mod(1, p);
    lemma_small_mod(a, p);
}

/// `a^i * a^j = a^(i+j)`, modulo `p`.
pub proof fn lemma_mod_pow_step(a: nat, i: nat, j: nat, p: nat)
    requires
        p >= 1,
    ensures
        mod_mul(mod_pow(a, i, p), mod_pow(a, j, p), p) == mod_pow(a, i + j, p),
{
    vstd::arithmetic::power::lemma_pow_adds(a as int, i, j);
    lemma_mul_mod_noop_general(pow(a as int, i), pow(a as int, j), p as int);
    lemma_mod_bound(pow(a as int, i), p as int);
    lemma_mod_bound(pow(a as int, j), p as int);
    lemma_mod_bound(pow(a as int, i + j), p as int);
}

/// `-(1 + 1) = p - 2` modulo `p >= 2`.
pub proof fn lemma_mod_neg_two(p: nat)
    requires
        p >= 2,
    ensures
        mod_neg(mod_add(1, 1, p), p) == (p - 2) as nat,
{
    if p == 2 {
        assert(mod_add(1, 1, p) == 0);
        assert(mod_neg(0, p) == 0);
    } else {
        lemma_small_mod(2, p);
        lemma_mod_add_multiple(-2, 1, p as int);
        lemma_small_mod((p - 2) as nat, p);
    }
}

/// Scaling by `k` commutes with addition modulo `p`.
pub proof fn lemma_scaled_add(a: int, b: int, k: int, p: int)
    requires
        p > 0,
    ensures
        (((a + b) % p) * k) % p == (((a * k) % p) + ((b * k) % p)) % p,
{
    lemma_mul_mod_noop_general(a + b, k, p);
    assert((a + b) * k == a * k + b * k) by (nonlinear_arith);
    lemma_add_mod_noop(a * k, b * k, p);
}

/// Scaling by `k` commutes with subtraction modulo `p`.
pub proof fn lemma_scaled_sub(a: int, b: int, k: int, p: int)
    requires
        p > 0,
    ensures
        (((a - b) % p) * k) % p == (((a * k) % p) - ((b * k) % p)) % p,
{
    lemma_mul_mod_noop_general(a - b, k, p);
    assert((a - b) * k == a * k - b * k) by (nonlinear_arith);
    lemma_sub_mod_noop(a * k, b * k, p);
}

/// The product of two scaled numbers, scaled down once, is the scaled
/// product.
pub proof fn lemma_scaled_mul(a: int, b: int, k: int, p: int)
    requires
        p > 0,
    ensures
        ((((a * b) * k) % p) * k) % p == (((a * k) % p) * ((b * k) % p)) % p,
{
    lemma_mul_mod_noop_general((a * b) * k, k, p);
    lemma_mul_mod_noop_general(a * k, b * k, p);
    assert(((a * b) * k) * k == (a * k) * (b * k)) by (nonlinear_arith);
}

/// `(lhs + other) mod modulus` for two numbers below the modulus: the sum
/// is formed with its carry, the modulus subtracted with its borrow, and the
/// two bits decide which of the two is kept.
pub fn add_mod<L: Limb, const N: usize>(
    lhs: &LimbInt<L, N>,
    other: &LimbInt<L, N>,
    modulus: &LimbInt<L, N>,
) -> (r: LimbInt<L, N>)
    requires
        lhs@ < modulus@,
        other@ < modulus@,
    ensures
        r@ == mod_add(lhs@, other@, modulus@),
        r@ < modulus@,
{
    let (d, c_1) = lhs.carrying_add(*other, false);
    let (e, c_2) = d.carrying_sub(*modulus, false);
    proof {
        let w = LimbInt::<L, N>::modulus() as int;
        let p = modulus@ as int;
        d.lemma_bound();
        e.lemma_bound();
        modulus.lemma_bound();
        assert(bit(c_1) * w == if c_1 { w } else { 0 }) by (nonlinear_arith);
        assert(bit(c_2) * w == if c_2 { w } else { 0 }) by (nonlinear_arith);
        let sum = lhs@ + other@;
        if c_1 == c_2 {
            lemma_mod_unique(e@ as int, sum as int, -1, p);
        } else {
            lemma_small_mod(sum, modulus@);
        }
    }
    if c_1 == c_2 {
        e
    } else {
        d
    }
}

/// `(lhs - other) mod modulus` for two numbers below the modulus: the
/// difference is formed with its borrow, and the modulus added back where
/// it fell below zero.
pub fn sub_mod<L: Limb, const N: usize>(
    lhs: &LimbInt<L, N>,
    other: &LimbInt<L, N>,
    modulus: &LimbInt<L, N>,
) -> (r: LimbInt<L, N>)
    requires
        lhs@ < modulus@,
        other@ < modulus@,
    ensures
        r@ == mod_sub(lhs@, other@, modulus@),
        r@ < modulus@,
{
    let (d, c_1) = lhs.carrying_sub(*other, false);
    let (e, _c_2) = d.carrying_add(*modulus, false);
    proof {
        let w = LimbInt::<L, N>::modulus() as int;
        let p = modulus@ as int;
        d.lemma_bound();
        e.lemma_bound();
        modulus.lemma_bound();
        assert(bit(c_1) * w == if c_1 { w } else { 0 }) by (nonlinear_arith);
        assert(bit(_c_2) * w == if _c_2 { w } else { 0 }) by (nonlinear_arith);
        let diff = lhs@ as int - other@ as int;
        if !c_1 {
            lemma_small_mod(diff as nat, modulus@);
        } else {
            lemma_mod_unique(e@ as int, diff, 1, p);
        }
    }
    if !c_1 {
        d
    } else {
        e
    }
}

/// Whether two integers are congruent modulo `p`.
pub open spec fn congruent(a: int, b: int, p: int) -> bool {
    a % p == b % p
}

/// A residue is congruent to the number it is the residue of.
pub proof fn lemma_congruent_mod(a: int, p: int)
    requires
        p > 0,
    ensures
        congruent(a % p, a, p),
        0 <= a % p < p,
{
    vstd::arithmetic::div_mod::lemma_mod_twice(a, p);
    lemma_mod_bound(a, p);
}

/// Sums of congruent numbers are congruent.
pub proof fn lemma_congruent_add(a: int, x: int, b: int, y: int, p: int)
    requires
        p > 0,
        congruent(a, x, p),
        congruent(b, y, p),
    ensures
        congruent(a + b, x + y, p),
{
    lemma_add_mod_noop(a, b, p);
    lemma_add_mod_noop(x, y, p);
}

/// Differences of congruent numbers are congruent.
pub proof fn lemma_congruent_sub(a: int, x: int, b: int, y: int, p: int)
    requires
        p > 0,
        congruent(a, x, p),
        congruent(b, y, p),
    ensures
        congruent(a - b, x - y, p),
{
    lemma_sub_mod_noop(a, b, p);
    lemma_sub_mod_noop(x, y, p);
}

/// Products of congruent numbers are congruent.
pub proof fn lemma_congruent_mul(a: int, x: int, b: int, y: int, p: int)
    requires
        p > 0,
        congruent(a, x, p),
        congruent(b, y, p),
    ensures
        congruent(a * b, x * y, p),
{
    lemma_mul_mod_noop_general(a, b, p);
    lemma_mul_mod_noop_general(x, y, p);
}

/// Two residues that are congruent are equal.
pub proof fn lemma_congruent_residues(a: int, b: int, p: int)
    requires
        p > 0,
        0 <= a < p,
        0 <= b < p,
        congruent(a, b, p),
    ensures
        a == b,
{
    lemma_small_mod(a as nat, p as nat);
    lemma_small_mod(b as nat, p as nat);
}

} // verus!
