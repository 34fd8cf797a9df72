//! Montgomery arithmetic modulo an odd number `p`.
//!
//! With `R = b^N`, an element `x` of the field is stored as `x * R mod p`.
//! Products are brought back into that form by Montgomery reduction, which
//! divides by `R` modulo `p` without ever dividing by `p`.

use vstd::prelude::*;
use vstd::arithmetic::power::pow;
use vstd::arithmetic::div_mod::lemma_fundamental_div_mod;
use vstd::arithmetic::div_mod::lemma_mod_multiples_basic;
use vstd::arithmetic::div_mod::lemma_mul_mod_noop_general;
use vstd::arithmetic::div_mod::lemma_small_mod;
use vstd::arithmetic::div_mod::lemma_mod_bound;
use std::marker::PhantomData;
use crate::biginteger::limb::Limb;
use crate::biginteger::limb::bit;
use crate::biginteger::limbint::LimbInt;
use crate::biginteger::limbint::limbs_val;
use crate::biginteger::limbint::base_pow;
use crate::biginteger::limbint::lemma_base_pow;
use crate::biginteger::limbint::lemma_base_pow_adds;
use crate::biginteger::limbint::lemma_base_pow_monotonic;
use crate::biginteger::limbint::lemma_limbs_val_mod;
use crate::biginteger::limbint::lemma_limbs_val_bound;
use super::modular::lemma_mod_add_multiple;
use super::modular::lemma_mod_mul_congruent;
use super::modular::lemma_scaled_add;
use super::modular::lemma_scaled_sub;
use super::modular::lemma_scaled_mul;
use super::modular::add_mod;
use super::modular::sub_mod;
use super::modular::mod_sub;
use super::abstract_operations::PrimeFieldOperations;

verus! {

/// The constants of a Montgomery field over `N` limbs.
pub trait MontParameters<const N: usize> {
    /// The limb type, whose number of values is the base `b`.
    type Limb: Limb;

    /// The modulus `p`.
    const MODULUS: [Self::Limb; N];

    /// `m' = -p^(-1) mod b`.
    const MP: Self::Limb;

    /// `R^2 mod p`.
    const R2: [Self::Limb; N];

    /// `R mod p`.
    const R: [Self::Limb; N];
}

/// The modulus `p` as a number.
pub open spec fn mont_modulus<const N: usize, P: MontParameters<N>>() -> nat {
    limbs_val(P::MODULUS@, N as nat)
}

/// `R = b^N`.
pub open spec fn mont_radix<const N: usize, P: MontParameters<N>>() -> nat {
    base_pow::<P::Limb>(N as nat)
}

/// What the constants must satisfy for the arithmetic to be that of the
/// integers modulo `p`: `p >= 2`, `m' * p = -1 mod b` (so `p` is odd),
/// `R` and `R2` as documented.
pub open spec fn mont_valid<const N: usize, P: MontParameters<N>>() -> bool {
    let p = mont_modulus::<N, P>();
    let r = mont_radix::<N, P>();
    &&& N >= 1
    &&& p >= 2
    &&& (P::MP.val() * p + 1) % P::Limb::base() == 0
    &&& limbs_val(P::R@, N as nat) == r % p
    &&& limbs_val(P::R2@, N as nat) == (r * r) % p
}

/// The inverse of the base `b` modulo `p`: `(m' * p + 1) / b`, reduced.
pub open spec fn mont_base_inv<const N: usize, P: MontParameters<N>>() -> nat {
    (((P::MP.val() * mont_modulus::<N, P>() + 1) / P::Limb::base()) % mont_modulus::<N, P>())
}

/// The inverse of `R` modulo `p`.
pub open spec fn mont_radix_inv<const N: usize, P: MontParameters<N>>() -> nat {
    (pow(mont_base_inv::<N, P>() as int, N as nat) % (mont_modulus::<N, P>() as int)) as nat
}

/// `radix_inv * R = 1 mod p`, and `p < R`.
pub proof fn lemma_mont_radix_inv<const N: usize, P: MontParameters<N>>()
    requires
        mont_valid::<N, P>(),
    ensures
        (mont_radix_inv::<N, P>() * mont_radix::<N, P>()) % mont_modulus::<N, P>() == 1,
        mont_modulus::<N, P>() < mont_radix::<N, P>(),
        mont_radix_inv::<N, P>() < mont_modulus::<N, P>(),
{
    let p = mont_modulus::<N, P>() as int;
    let b = P::Limb::base() as int;
    let n = N as nat;
    lemma_limbs_val_bound(P::MODULUS@, n);
    P::MP.lemma_limb_range();
    let x = P::MP.val() as int * p + 1;
    let k = x / b;
    lemma_fundamental_div_mod(x, b);
    assert(b * k == x);
    // b * k = 1 mod p
    lemma_mod_add_multiple(1, P::MP.val() as int, p);
    lemma_small_mod(1, p as nat);
    assert((b * k) % p == 1);
    let ki = mont_base_inv::<N, P>() as int;
    assert(ki == k % p);
    // (ki * b)^N = 1 mod p
    lemma_mul_mod_noop_general(k, b, p);
    assert((ki * b) % p == 1) by {
        assert(k * b == b * k) by (nonlinear_arith);
        lemma_mul_mod_noop_general(k % p, b, p);
    }
    vstd::arithmetic::power::lemma_pow_mod_noop(ki * b, n, p);
    vstd::arithmetic::power::lemma1_pow(n);
    assert(pow(ki * b, n) % p == 1);
    vstd::arithmetic::power::lemma_pow_distributes(ki, b, n);
    let pk = pow(ki, n);
    let pb = pow(b, n);
    assert((pk * pb) % p == 1);
    lemma_mul_mod_noop_general(pk, pb, p);
    lemma_mul_mod_noop_general(pk % p, pb, p);
    vstd::arithmetic::power::lemma_pow_positive(b, n);
    lemma_mod_bound(pk, p);
}

/// One round of Montgomery reduction clears one more limb of the low
/// half: with `u = x * m' mod b`, the sum `a + p * u * b^i` is a multiple of
/// `b^(i+1)`.
proof fn lemma_redc_round_low(
    a: int,
    x: int,
    bi: int,
    q: int,
    base: int,
    t1: int,
    u: int,
    t2: int,
    mp: int,
    p: int,
    t3: int,
    w: int,
    w1: int,
    cl: int,
    ch: int,
    c: int,
    nl: int,
)
    requires
        q == base * bi,
        a == x * bi + q * t1,
        x * mp == u + base * t2,
        mp * p + 1 == base * t3,
        w == q * w1,
        cl + ch * w == p * (u * bi),
        nl + c * w == a + cl,
        q > 0,
    ensures
        nl % q == 0,
{
    let m = x * t3 - p * t2 + t1 - w1 * (ch + c);
    assert((x + p * u) * bi == x * bi + p * (u * bi)) by (nonlinear_arith);
    assert(x + p * u == base * (x * t3 - p * t2)) by (nonlinear_arith)
        requires
            x * mp == u + base * t2,
            mp * p + 1 == base * t3,
    ;
    assert((base * (x * t3 - p * t2)) * bi == q * (x * t3 - p * t2)) by (nonlinear_arith)
        requires
            q == base * bi,
    ;
    assert((ch + c) * w == q * (w1 * (ch + c))) by (nonlinear_arith)
        requires
            w == q * w1,
    ;
    assert((ch + c) * w == ch * w + c * w) by (nonlinear_arith);
    assert(q * m == q * (x * t3 - p * t2) + q * t1 - q * (w1 * (ch + c))) by (nonlinear_arith)
        requires
            m == x * t3 - p * t2 + t1 - w1 * (ch + c),
    ;
    assert(nl == m * q) by (nonlinear_arith)
        requires
            nl == q * m,
    ;
    lemma_mod_multiples_basic(m, q);
}

/// One round of Montgomery reduction keeps the running sum, and the sum
/// overflows `2N` limbs at most once.
proof fn lemma_redc_round_sum(
    a: int,
    ar: int,
    o: int,
    w: int,
    t: int,
    p: int,
    uacc: int,
    u: int,
    bi: int,
    base: int,
    cl: int,
    ch: int,
    c: int,
    c2: int,
    nl: int,
    nr: int,
)
    requires
        a + w * ar + o * (w * w) == t + p * uacc,
        cl + ch * w == p * (u * bi),
        nl + c * w == a + cl,
        nr + c2 * w == ar + ch + c,
        0 <= uacc < bi,
        0 <= u < base,
        base * bi <= w,
        0 <= t < w * w,
        0 < p < w,
        0 <= nl,
        0 <= nr,
        0 <= o <= 1,
        0 <= c2 <= 1,
    ensures
        nl + w * nr + (o + c2) * (w * w) == t + p * (uacc + u * bi),
        uacc + u * bi < base * bi,
        o + c2 <= 1,
{
    assert(w * (ar + ch + c - c2 * w) == w * ar + ch * w + c * w - c2 * (w * w))
        by (nonlinear_arith);
    assert((o + c2) * (w * w) == o * (w * w) + c2 * (w * w)) by (nonlinear_arith);
    assert(p * (uacc + u * bi) == p * uacc + p * (u * bi)) by (nonlinear_arith);
    assert(u * bi <= (base - 1) * bi) by (nonlinear_arith)
        requires
            0 <= u <= base - 1,
            0 <= bi,
    ;
    assert((base - 1) * bi == base * bi - bi) by (nonlinear_arith);
    let un = uacc + u * bi;
    assert(p * un < w * w) by (nonlinear_arith)
        requires
            0 <= un < w,
            0 < p < w,
    ;
    assert(w * nr >= 0) by (nonlinear_arith)
        requires
            w > 0,
            nr >= 0,
    ;
    if o + c2 >= 2 {
        assert((o + c2) * (w * w) >= 2 * (w * w)) by (nonlinear_arith)
            requires
                o + c2 >= 2,
        ;
    }
}

/// Where the running sum overflowed, what is left in the high half is
/// below `p`, and adding `R mod p` to it does not overflow.
proof fn lemma_redc_overflow(ar: int, w: int, t: int, p: int, uacc: int, rc: int)
    requires
        w * ar + w * w == t + p * uacc,
        0 <= uacc < w,
        0 < p < w,
        0 <= t < w * w,
        rc == w % p,
    ensures
        ar + rc < w,
        ar < p,
{
    let d = w / p;
    lemma_fundamental_div_mod(w, p);
    lemma_mod_bound(w, p);
    assert(d >= 1) by (nonlinear_arith)
        requires
            w == p * d + rc,
            0 <= rc < p,
            p < w,
            p > 0,
    ;
    assert(p * d >= p) by (nonlinear_arith)
        requires
            d >= 1,
            p > 0,
    ;
    assert(p * uacc < p * w) by (nonlinear_arith)
        requires
            0 <= uacc < w,
            0 < p,
    ;
    assert(ar < p) by (nonlinear_arith)
        requires
            w * ar + w * w < w * w + p * w,
            w > 0,
    ;
}

/// After the rounds: what is left once `R` is divided out, brought below
/// `p` where the input was below `p * R`.
proof fn lemma_redc_final(
    ar: int,
    o: int,
    w: int,
    t: int,
    p: int,
    uacc: int,
    rc: int,
    a2: int,
    sub: int,
    res: int,
)
    requires
        w * ar + o * (w * w) == t + p * uacc,
        0 <= uacc < w,
        0 < p < w,
        0 <= t < w * w,
        0 <= ar < w,
        0 <= o <= 1,
        rc == w % p,
        o == 1 ==> a2 == ar + rc,
        o == 0 ==> a2 == ar,
        0 <= sub <= 1,
        sub == 1 <==> a2 >= p,
        res == a2 - sub * p,
    ensures
        (res * w) % p == t % p,
        t < p * w ==> 0 <= res < p,
        o == 1 ==> ar + rc < w,
        0 <= res,
{
    let d = w / p;
    lemma_fundamental_div_mod(w, p);
    lemma_mod_bound(w, p);
    assert(w == p * d + rc);
    assert(d >= 1) by (nonlinear_arith)
        requires
            w == p * d + rc,
            0 <= rc < p,
            p < w,
            p > 0,
    ;
    assert(p * d >= p) by (nonlinear_arith)
        requires
            d >= 1,
            p > 0,
    ;
    let v = ar + o * w;
    assert(v * w == t + p * uacc) by (nonlinear_arith)
        requires
            w * ar + o * (w * w) == t + p * uacc,
            v == ar + o * w,
    ;
    assert(p * uacc < p * w) by (nonlinear_arith)
        requires
            0 <= uacc < w,
            0 < p,
    ;
    assert(v < w + p) by (nonlinear_arith)
        requires
            v * w < w * w + p * w,
            w > 0,
    ;
    // a2 = v - k * p for k = o * d
    let k = o * d + sub;
    assert(res == v - k * p) by (nonlinear_arith)
        requires
            res == a2 - sub * p,
            o == 1 ==> a2 == ar + rc,
            o == 0 ==> a2 == ar,
            v == ar + o * w,
            w == p * d + rc,
            k == o * d + sub,
            0 <= o <= 1,
    ;
    assert(res * w == t + (uacc - k * w) * p) by (nonlinear_arith)
        requires
            res == v - k * p,
            v * w == t + p * uacc,
    ;
    lemma_mod_add_multiple(t, uacc - k * w, p);
    if t < p * w {
        if o == 0 {
            assert(v < 2 * p) by (nonlinear_arith)
                requires
                    v * w == t + p * uacc,
                    t < p * w,
                    p * uacc < p * w,
                    w > 0,
            ;
        }
    }
}

/// A number below `p` whose product with `R` is congruent to `t` is
/// `t * radix_inv mod p`.
pub proof fn lemma_redc_value<const N: usize, P: MontParameters<N>>(r: nat, t: nat)
    requires
        mont_valid::<N, P>(),
        r < mont_modulus::<N, P>(),
        (r * mont_radix::<N, P>()) % mont_modulus::<N, P>() == t % mont_modulus::<N, P>(),
    ensures
        r == (t * mont_radix_inv::<N, P>()) % mont_modulus::<N, P>(),
{
    let p = mont_modulus::<N, P>() as int;
    let w = mont_radix::<N, P>() as int;
    let wi = mont_radix_inv::<N, P>() as int;
    lemma_mont_radix_inv::<N, P>();
    lemma_mod_mul_congruent(r * w, t as int, wi, p);
    assert((r * w) * wi == r * (wi * w)) by (nonlinear_arith);
    lemma_mul_mod_noop_general(r as int, wi * w, p);
    lemma_small_mod(r, p as nat);
    assert(r * 1 == r);
}

/// The multiple of `p` that Montgomery reduction adds to `t`: the number
/// `u < R` for which `t + u * p` is a multiple of `R`.
pub open spec fn mont_clearing<const N: usize, P: MontParameters<N>>(t: nat) -> nat {
    choose|u: nat|
        u < mont_radix::<N, P>() && #[trigger] ((t + u * mont_modulus::<N, P>()) % mont_radix::<
            N,
            P,
        >()) == 0
}

/// What is left of `t` once the multiple of `p` is added and `R` divided
/// out: `(t + u * p) / R`, a number below `R + p`.
pub open spec fn mont_quotient<const N: usize, P: MontParameters<N>>(t: nat) -> nat {
    (t + mont_clearing::<N, P>(t) * mont_modulus::<N, P>()) / mont_radix::<N, P>()
}

/// What Montgomery reduction returns for the double-width number `t`: the
/// quotient, brought back into `N` limbs by replacing `R` with `R mod p`
/// where it is `R` or more, and with `p` subtracted once where that does not
/// go below zero.
pub open spec fn mont_reduced<const N: usize, P: MontParameters<N>>(t: nat) -> nat {
    let p = mont_modulus::<N, P>();
    let r = mont_radix::<N, P>();
    let v = mont_quotient::<N, P>(t);
    let a = if v >= r {
        (v - r + r % p) as nat
    } else {
        v
    };
    if a >= p {
        (a - p) as nat
    } else {
        a
    }
}

/// A multiple of `p` that is a multiple of `b^k` is a multiple of `b^k`
/// already without the factor `p`, because `p` has an inverse modulo `b`.
proof fn lemma_unit_multiple<const N: usize, P: MontParameters<N>>(x: int, k: nat)
    requires
        mont_valid::<N, P>(),
        0 <= x,
        (mont_modulus::<N, P>() * x) % (base_pow::<P::Limb>(k) as int) == 0,
    ensures
        x % (base_pow::<P::Limb>(k) as int) == 0,
    decreases k,
{
    let p = mont_modulus::<N, P>() as int;
    let b = P::Limb::base() as int;
    lemma_base_pow::<P::Limb>(k);
    if k == 0 {
    } else {
        let j = (k - 1) as nat;
        lemma_base_pow::<P::Limb>(j);
        let bj = base_pow::<P::Limb>(j) as int;
        let bk = base_pow::<P::Limb>(k) as int;
        assert(bk == bj * b) by (nonlinear_arith)
            requires
                bk == b * bj,
        ;
        // p x is a multiple of b^j
        lemma_fundamental_div_mod(p * x, bk);
        let c = (p * x) / bk;
        assert(p * x == (c * b) * bj) by (nonlinear_arith)
            requires
                p * x == bk * c,
                bk == bj * b,
        ;
        lemma_mod_multiples_basic(c * b, bj);
        lemma_unit_multiple::<N, P>(x, j);
        // x = b^j * y
        lemma_fundamental_div_mod(x, bj);
        let y = x / bj;
        assert(y >= 0) by (nonlinear_arith)
            requires
                x == bj * y,
                x >= 0,
                bj > 0,
        ;
        assert(p * y >= 0) by (nonlinear_arith)
            requires
                p >= 0,
                y >= 0,
        ;
        assert(p * x == bj * (p * y)) by (nonlinear_arith)
            requires
                x == bj * y,
        ;
        vstd::arithmetic::div_mod::lemma_truncate_middle(p * y, bj, b);
        assert(bj * ((p * y) % b) == 0);
        lemma_mod_bound(p * y, b);
        assert((p * y) % b == 0) by (nonlinear_arith)
            requires
                bj * ((p * y) % b) == 0,
                bj > 0,
        ;
        // y is a multiple of b, as p has an inverse modulo b
        P::MP.lemma_limb_range();
        let mp = P::MP.val() as int;
        lemma_fundamental_div_mod(mp * p + 1, b);
        let t3 = (mp * p + 1) / b;
        lemma_fundamental_div_mod(p * y, b);
        let q = (p * y) / b;
        assert(y == (y * t3 - mp * q) * b) by (nonlinear_arith)
            requires
                mp * p + 1 == b * t3,
                p * y == b * q,
        ;
        lemma_mod_multiples_basic(y * t3 - mp * q, b);
        vstd::arithmetic::div_mod::lemma_truncate_middle(y, bj, b);
        assert(bj * (y % b) == 0);
        assert((bj * y) % (bj * b) == 0);
    }
}

/// There is one multiple of `p` that clears the low half.
proof fn lemma_clearing_unique<const N: usize, P: MontParameters<N>>(t: nat, u1: nat, u2: nat)
    requires
        mont_valid::<N, P>(),
        u2 <= u1 < mont_radix::<N, P>(),
        (t + u1 * mont_modulus::<N, P>()) % mont_radix::<N, P>() == 0,
        (t + u2 * mont_modulus::<N, P>()) % mont_radix::<N, P>() == 0,
    ensures
        u1 == u2,
{
    let p = mont_modulus::<N, P>() as int;
    let w = mont_radix::<N, P>() as int;
    let x = u1 - u2;
    lemma_base_pow::<P::Limb>(N as nat);
    lemma_fundamental_div_mod(t + u1 * p, w);
    lemma_fundamental_div_mod(t + u2 * p, w);
    let c1 = (t + u1 * p) / w;
    let c2 = (t + u2 * p) / w;
    assert(p * x == (c1 - c2) * w) by (nonlinear_arith)
        requires
            t + u1 * p == w * c1,
            t + u2 * p == w * c2,
            x == u1 - u2,
    ;
    lemma_mod_multiples_basic(c1 - c2, w);
    lemma_unit_multiple::<N, P>(x, N as nat);
    lemma_small_mod(x as nat, w as nat);
}

/// The multiple of `p` that clears the low half of `t` is `u`, and the
/// quotient `v`, where `t + u * p = v * R` and `u < R`.
proof fn lemma_clearing_is<const N: usize, P: MontParameters<N>>(t: nat, u: nat, v: nat)
    requires
        mont_valid::<N, P>(),
        u < mont_radix::<N, P>(),
        t + u * mont_modulus::<N, P>() == v * mont_radix::<N, P>(),
    ensures
        mont_clearing::<N, P>(t) == u,
        mont_quotient::<N, P>(t) == v,
{
    let p = mont_modulus::<N, P>();
    let w = mont_radix::<N, P>();
    lemma_base_pow::<P::Limb>(N as nat);
    lemma_mod_multiples_basic(v as int, w as int);
    assert((t + u * p) % w == 0);
    let c = mont_clearing::<N, P>(t);
    assert(c < w && (t + c * p) % w == 0);
    if c <= u {
        lemma_clearing_unique::<N, P>(t, u, c);
    } else {
        lemma_clearing_unique::<N, P>(t, c, u);
    }
    vstd::arithmetic::div_mod::lemma_fundamental_div_mod_converse(
        (t + u * p) as int,
        w as int,
        v as int,
        0,
    );
    assert(v * w == w * v) by (nonlinear_arith);
}

/// Field arithmetic on Montgomery representatives, for the constants `P`.
pub struct MontgomeryOperations<const N: usize, P: MontParameters<N>> {
    _marker: PhantomData<P>,
}

impl<const N: usize, P: MontParameters<N>> MontgomeryOperations<N, P> {
    /// Montgomery reduction of the double-width number `t` given as
    /// (low, high): a number `r` with `r * R = t mod p`.
    ///
    /// In each of `N` rounds a multiple of `p` is added that clears one more
    /// limb of the low half. What remains in the high half is `t / R` modulo
    /// `p`; where the sum has outgrown `2N` limbs, `R mod p` is added in
    /// place of the lost `R`; `p` is subtracted once where that does not go
    /// below zero. For `t < p * R` the result is below `p`, and is
    /// `t * R^(-1) mod p`.
    pub fn montgomery_reduction(element: &(LimbInt<P::Limb, N>, LimbInt<P::Limb, N>)) -> (r:
        LimbInt<P::Limb, N>)
        requires
            mont_valid::<N, P>(),
        ensures
            r@ == mont_reduced::<N, P>(element.0@ + element.1@ * mont_radix::<N, P>()),
            (r@ * mont_radix::<N, P>()) % mont_modulus::<N, P>() == (element.0@ + element.1@
                * mont_radix::<N, P>()) % mont_modulus::<N, P>(),
            element.0@ + element.1@ * mont_radix::<N, P>() < mont_modulus::<N, P>()
                * mont_radix::<N, P>() ==> r@ == ((element.0@ + element.1@ * mont_radix::<N, P>())
                * mont_radix_inv::<N, P>()) % mont_modulus::<N, P>(),
    {
        let mut a_l = element.0;
        let mut a_r = element.1;
        let modulus = LimbInt::from_limbs(P::MODULUS);
        let mut over = false;
        let ghost w = mont_radix::<N, P>() as int;
        let ghost p = mont_modulus::<N, P>() as int;
        let ghost t = (element.0@ + element.1@ * mont_radix::<N, P>()) as int;
        let ghost mut uacc: int = 0;
        proof {
            lemma_mont_radix_inv::<N, P>();
            lemma_base_pow::<P::Limb>(0);
            a_l.lemma_bound();
            a_r.lemma_bound();
            assert(p * 0 == 0);
            assert(0 * (w * w) == 0);
            assert(element.1@ * mont_radix::<N, P>() == w * a_r@) by (nonlinear_arith)
                requires
                    w == mont_radix::<N, P>(),
                    a_r@ == element.1@,
            ;
            assert(w * a_r@ <= w * (w - 1)) by (nonlinear_arith)
                requires
                    0 <= a_r@ <= w - 1,
                    w > 0,
            ;
            assert(w * (w - 1) == w * w - w) by (nonlinear_arith);
        }
        let mut i: usize = 0;
        while i < N
            invariant
                i <= N,
                mont_valid::<N, P>(),
                modulus.limbs == P::MODULUS,
                w == mont_radix::<N, P>(),
                p == mont_modulus::<N, P>(),
                0 < p < w,
                0 <= t < w * w,
                a_l@ + w * a_r@ + bit(over) * (w * w) == t + p * uacc,
                0 <= uacc < base_pow::<P::Limb>(i as nat),
                limbs_val(a_l.limbs@, i as nat) == 0,
            decreases N - i,
        {
            let (u, hi) = a_l.limbs[i].mul_carry(P::MP, P::Limb::ZERO);
            let (c_l, c_h) = modulus.mul_by_limb_shift(u, i);
            let (n_l, c) = a_l.carrying_add(c_l, false);
            let (n_r, c2) = a_r.carrying_add(c_h, c);
            proof {
                let base = P::Limb::base() as int;
                let bi = base_pow::<P::Limb>(i as nat) as int;
                let q = base_pow::<P::Limb>((i + 1) as nat) as int;
                let rest = (N - i - 1) as nat;
                lemma_base_pow::<P::Limb>(i as nat);
                lemma_base_pow::<P::Limb>((i + 1) as nat);
                lemma_base_pow_adds::<P::Limb>((i + 1) as nat, rest);
                lemma_base_pow_monotonic::<P::Limb>((i + 1) as nat, N as nat);
                lemma_limbs_val_mod(a_l.limbs@, (i + 1) as nat, N as nat);
                lemma_limbs_val_mod(n_l.limbs@, (i + 1) as nat, N as nat);
                P::Limb::ZERO.lemma_limb_range();
                u.lemma_limb_range();
                let x = a_l.limbs[i as int].val() as int;
                lemma_fundamental_div_mod(a_l@ as int, q);
                let mpx = P::MP.val() as int * p + 1;
                lemma_fundamental_div_mod(mpx, base);
                assert(modulus@ == p);
                assert(c_h@ * LimbInt::<P::Limb, N>::modulus() == c_h@ * w);
                assert(hi.val() * P::Limb::base() == base * hi.val()) by (nonlinear_arith)
                    requires
                        base == P::Limb::base(),
                ;
                assert(x * P::MP.val() == u.val() + base * hi.val());
                lemma_redc_round_low(
                    a_l@ as int,
                    x,
                    bi,
                    q,
                    base,
                    a_l@ as int / q,
                    u.val() as int,
                    hi.val() as int,
                    P::MP.val() as int,
                    p,
                    mpx / base,
                    w,
                    base_pow::<P::Limb>(rest) as int,
                    c_l@ as int,
                    c_h@ as int,
                    bit(c) as int,
                    n_l@ as int,
                );
                lemma_redc_round_sum(
                    a_l@ as int,
                    a_r@ as int,
                    bit(over) as int,
                    w,
                    t,
                    p,
                    uacc,
                    u.val() as int,
                    bi,
                    base,
                    c_l@ as int,
                    c_h@ as int,
                    bit(c) as int,
                    bit(c2) as int,
                    n_l@ as int,
                    n_r@ as int,
                );
                uacc = uacc + u.val() * bi;
            }
            a_l = n_l;
            a_r = n_r;
            over = over || c2;
            i += 1;
        }
        let ghost ar0 = a_r@ as int;
        proof {
            a_r.lemma_bound();
        }
        if over {
            proof {
                lemma_limbs_val_bound(P::R@, N as nat);
                assert(1 * (w * w) == w * w);
                lemma_redc_overflow(ar0, w, t, p, uacc, w % p);
            }
            let (fixed, c3) = a_r.carrying_add(LimbInt::from_limbs(P::R), false);
            proof {
                fixed.lemma_bound();
                assert(bit(c3) * w == if c3 { w } else { 0 }) by (nonlinear_arith);
            }
            a_r = fixed;
        }
        let (e, borrow) = a_r.carrying_sub(modulus, false);
        let res = if !borrow { e } else { a_r };
        proof {
            let a2 = if over { ar0 + (w % p) } else { ar0 };
            let sub = if borrow { 0int } else { 1int };
            e.lemma_bound();
            a_r.lemma_bound();
            assert(bit(borrow) * w == if borrow { w } else { 0 }) by (nonlinear_arith);
            assert(0 * (w * w) == 0);
            element.1.lemma_bound();
            lemma_redc_final(
                ar0,
                bit(over) as int,
                w,
                t,
                p,
                uacc,
                w % p,
                a2,
                sub,
                a2 - sub * p,
            );
            assert(res@ == a2 - sub * p);
            let v = ar0 + bit(over) * w;
            assert(w * v == w * ar0 + bit(over) * (w * w)) by (nonlinear_arith)
                requires
                    v == ar0 + bit(over) * w,
            ;
            assert(v * w == w * v) by (nonlinear_arith);
            assert(uacc * p == p * uacc) by (nonlinear_arith);
            assert(bit(over) * w == if over { w } else { 0 }) by (nonlinear_arith);
            lemma_clearing_is::<N, P>(t as nat, uacc as nat, v as nat);
            assert(res@ == mont_reduced::<N, P>(t as nat));
            if t < p * w {
                lemma_redc_value::<N, P>(res@, t as nat);
            }
        }
        res
    }

    /// The Montgomery product: `montgomery_reduction` of `element * other`.
    /// On representatives `x * R` and `y * R` below `p` it gives the
    /// representative of `x * y`.
    pub fn montgomery_mul(element: &LimbInt<P::Limb, N>, other: &LimbInt<P::Limb, N>) -> (r:
        LimbInt<P::Limb, N>)
        requires
            mont_valid::<N, P>(),
        ensures
            r@ == mont_reduced::<N, P>(element@ * other@),
            (r@ * mont_radix::<N, P>()) % mont_modulus::<N, P>() == (element@ * other@)
                % mont_modulus::<N, P>(),
            element@ * other@ < mont_modulus::<N, P>() * mont_radix::<N, P>() ==> r@ == ((element@
                * other@) * mont_radix_inv::<N, P>()) % mont_modulus::<N, P>(),
    {
        let multiple = element.carrying_mul(*other, LimbInt::zero());
        Self::montgomery_reduction(&multiple)
    }
}

/// The element that the Montgomery representative `e` stands for:
/// `e * radix_inv mod p`.
pub open spec fn mont_value<const N: usize, P: MontParameters<N>>(e: nat) -> nat {
    (e * mont_radix_inv::<N, P>()) % mont_modulus::<N, P>()
}

/// The Montgomery representative of the element `v`: `v * R mod p`.
pub open spec fn mont_repr<const N: usize, P: MontParameters<N>>(v: nat) -> nat {
    (v * mont_radix::<N, P>()) % mont_modulus::<N, P>()
}

/// `mont_value` and `mont_repr` are inverse to each other on `0 .. p`.
pub proof fn lemma_mont_value_repr<const N: usize, P: MontParameters<N>>(x: nat)
    requires
        mont_valid::<N, P>(),
        x < mont_modulus::<N, P>(),
    ensures
        mont_repr::<N, P>(mont_value::<N, P>(x)) == x,
        mont_value::<N, P>(mont_repr::<N, P>(x)) == x,
        mont_value::<N, P>(x) < mont_modulus::<N, P>(),
        mont_repr::<N, P>(x) < mont_modulus::<N, P>(),
{
    let p = mont_modulus::<N, P>() as int;
    let w = mont_radix::<N, P>() as int;
    let wi = mont_radix_inv::<N, P>() as int;
    let xi = x as int;
    lemma_mont_radix_inv::<N, P>();
    lemma_mul_mod_noop_general(xi * wi, w, p);
    lemma_mul_mod_noop_general(xi * w, wi, p);
    assert((xi * wi) * w == xi * (wi * w)) by (nonlinear_arith);
    assert((xi * w) * wi == xi * (wi * w)) by (nonlinear_arith);
    lemma_mul_mod_noop_general(xi, wi * w, p);
    lemma_small_mod(x, p as nat);
    assert(xi * 1 == xi);
    lemma_mod_bound(xi * wi, p);
    lemma_mod_bound(xi * w, p);
}

/// Reducing `x * R2` gives the representative of `x mod p`.
proof fn lemma_mont_reduce<const N: usize, P: MontParameters<N>>(x: nat, r: nat)
    requires
        mont_valid::<N, P>(),
        r == ((x * limbs_val(P::R2@, N as nat)) * mont_radix_inv::<N, P>()) % mont_modulus::<
            N,
            P,
        >(),
    ensures
        mont_value::<N, P>(r) == x % mont_modulus::<N, P>(),
{
    let p = mont_modulus::<N, P>() as int;
    let w = mont_radix::<N, P>() as int;
    let wi = mont_radix_inv::<N, P>() as int;
    let r2 = limbs_val(P::R2@, N as nat) as int;
    let xi = x as int;
    lemma_mont_radix_inv::<N, P>();
    // r * wi = x * r2 * wi * wi = x * (w * wi) * (w * wi) = x  (mod p)
    lemma_mul_mod_noop_general((xi * r2) * wi, wi, p);
    assert(((xi * r2) * wi) * wi == r2 * (xi * wi * wi)) by (nonlinear_arith);
    lemma_mul_mod_noop_general(r2, xi * wi * wi, p);
    lemma_mul_mod_noop_general(w * w, xi * wi * wi, p);
    assert((w * w) * (xi * wi * wi) == (xi * (wi * w)) * (wi * w)) by (nonlinear_arith);
    lemma_mul_mod_noop_general(xi * (wi * w), wi * w, p);
    lemma_mul_mod_noop_general(xi, wi * w, p);
    assert((xi % p) * 1 == xi % p);
    lemma_mod_bound(xi, p);
    lemma_small_mod((xi % p) as nat, p as nat);
    assert(((xi % p) * 1) % p == xi % p);
    assert((xi * (wi * w)) % p == xi % p);
    assert(((xi % p) * 1) == (xi % p));
}

impl<const N: usize, P: MontParameters<N>> PrimeFieldOperations for MontgomeryOperations<N, P> {
    type BigInt = LimbInt<P::Limb, N>;

    open spec fn valid() -> bool {
        mont_valid::<N, P>()
    }

    open spec fn modulus() -> nat {
        mont_modulus::<N, P>()
    }

    open spec fn wf(element: Self::BigInt) -> bool {
        element@ < mont_modulus::<N, P>()
    }

    open spec fn value(element: Self::BigInt) -> nat {
        mont_value::<N, P>(element@)
    }

    open spec fn encode(value: nat) -> Self::BigInt {
        LimbInt::from_nat(mont_repr::<N, P>(value))
    }

    proof fn lemma_modulus() {
        assert(Self::valid());
        assert(mont_valid::<N, P>());
        assert(mont_modulus::<N, P>() >= 2);
        assert(Self::modulus() == mont_modulus::<N, P>());
    }

    proof fn lemma_value(element: Self::BigInt) {
        assert(Self::valid());
        assert(mont_valid::<N, P>());
        assert(Self::wf(element));
        assert(element@ < mont_modulus::<N, P>());
        lemma_mont_value_repr::<N, P>(element@);
        element.lemma_from_nat_view();
        assert(Self::value(element) == mont_value::<N, P>(element@));
        assert(Self::modulus() == mont_modulus::<N, P>());
        assert(Self::encode(Self::value(element)) == LimbInt::<P::Limb, N>::from_nat(
            mont_repr::<N, P>(mont_value::<N, P>(element@)),
        ));
    }

    proof fn lemma_encode(value: nat) {
        assert(mont_valid::<N, P>());
        lemma_mont_value_repr::<N, P>(value);
        lemma_mont_radix_inv::<N, P>();
        LimbInt::<P::Limb, N>::lemma_from_nat(mont_repr::<N, P>(value));
    }

    open spec fn int_bits() -> nat {
        8 * (N as nat * P::Limb::BYTES as nat)
    }

    fn modulus_int() -> (r: Self::BigInt) {
        let r = LimbInt::from_limbs(P::MODULUS);
        proof {
            r.lemma_int_val();
            assert(Self::int_bits() == 8 * (N as nat * P::Limb::BYTES as nat));
        }
        r
    }

    #[inline]
    fn zero() -> (r: Self::BigInt) {
        proof {
            assert(0 * mont_radix_inv::<N, P>() == 0);
            lemma_small_mod(0, mont_modulus::<N, P>());
        }
        LimbInt::zero()
    }

    #[inline]
    fn one() -> (r: Self::BigInt) {
        proof {
            let p = mont_modulus::<N, P>() as int;
            let w = mont_radix::<N, P>() as int;
            let wi = mont_radix_inv::<N, P>() as int;
            lemma_mont_radix_inv::<N, P>();
            lemma_mod_bound(w, p);
            lemma_mul_mod_noop_general(w, wi, p);
            assert(w * wi == wi * w) by (nonlinear_arith);
        }
        LimbInt::from_limbs(P::R)
    }

    fn is_canonical(element: &Self::BigInt) -> (r: bool) {
        let modulus = LimbInt::from_limbs(P::MODULUS);
        !modulus.le(element)
    }

    fn is_zero(element: &Self::BigInt) -> (r: bool) {
        proof {
            lemma_mont_value_repr::<N, P>(element@);
            lemma_mont_value_repr::<N, P>(0);
            assert(0 * mont_radix_inv::<N, P>() == 0);
            assert(0 * mont_radix::<N, P>() == 0);
            lemma_small_mod(0, mont_modulus::<N, P>());
        }
        element.is_zero()
    }

    fn as_int(element: &Self::BigInt) -> (r: Self::BigInt) {
        let one = LimbInt::one();
        proof {
            lemma_mont_radix_inv::<N, P>();
            element.lemma_bound();
            assert(element@ * 1 == element@);
            let p = mont_modulus::<N, P>() as int;
            let w = mont_radix::<N, P>() as int;
            assert(w <= p * w) by (nonlinear_arith)
                requires
                    p >= 1,
                    w >= 0,
            ;
        }
        let r = Self::montgomery_mul(element, &one);
        proof {
            r.lemma_int_val();
            assert(Self::int_bits() == 8 * (N as nat * P::Limb::BYTES as nat));
        }
        r
    }

    fn reduce(element: &Self::BigInt) -> (r: Self::BigInt) {
        let xr2 = element.carrying_mul(LimbInt::from_limbs(P::R2), LimbInt::zero());
        let r = Self::montgomery_reduction(&xr2);
        proof {
            element.lemma_int_val();
            let p = mont_modulus::<N, P>() as int;
            let w = mont_radix::<N, P>() as int;
            let r2 = limbs_val(P::R2@, N as nat) as int;
            lemma_mont_radix_inv::<N, P>();
            element.lemma_bound();
            lemma_mod_bound(w * w, p);
            let x = element@ as int;
            assert(x * r2 < p * w) by (nonlinear_arith)
                requires
                    0 <= x < w,
                    0 <= r2 < p,
            ;
            lemma_mont_reduce::<N, P>(element@, r@);
            lemma_mod_bound((x * r2) * mont_radix_inv::<N, P>(), p);
        }
        r
    }

    /// The representative of the candidate modulo `p`.
    open spec fn sampled(candidate: Self::BigInt) -> Self::BigInt {
        Self::encode(candidate@ % mont_modulus::<N, P>())
    }

    proof fn lemma_sampled(candidate: Self::BigInt) {
        candidate.lemma_int_val();
        assert(Self::modulus() == mont_modulus::<N, P>());
        lemma_small_mod(candidate@, mont_modulus::<N, P>());
        Self::lemma_encode(candidate@);
        assert(Self::sampled(candidate) == Self::encode(candidate@ % mont_modulus::<N, P>()));
    }

    fn sample(candidate: &Self::BigInt) -> (r: Option<Self::BigInt>) {
        let modulus = LimbInt::from_limbs(P::MODULUS);
        proof {
            candidate.lemma_int_val();
            assert(Self::modulus() == mont_modulus::<N, P>());
            assert(Self::sampled(*candidate) == Self::encode(candidate@ % mont_modulus::<N, P>()));
        }
        if candidate.le(&modulus) {
            let r = Self::reduce(candidate);
            proof {
                Self::lemma_value(r);
            }
            Some(r)
        } else {
            None
        }
    }

    fn add_assign(lhs: &mut Self::BigInt, other: &Self::BigInt) {
        let modulus = LimbInt::from_limbs(P::MODULUS);
        let r = add_mod(lhs, other, &modulus);
        proof {
            lemma_scaled_add(
                lhs@ as int,
                other@ as int,
                mont_radix_inv::<N, P>() as int,
                mont_modulus::<N, P>() as int,
            );
        }
        *lhs = r;
    }

    fn sub_assign(lhs: &mut Self::BigInt, other: &Self::BigInt) {
        let modulus = LimbInt::from_limbs(P::MODULUS);
        let r = sub_mod(lhs, other, &modulus);
        proof {
            let p = mont_modulus::<N, P>() as int;
            let wi = mont_radix_inv::<N, P>() as int;
            let a = lhs@ as int;
            let b = other@ as int;
            lemma_scaled_sub(a, b, wi, p);
            lemma_mod_bound(a - b, p);
            lemma_mod_bound(a * wi, p);
            lemma_mod_bound(b * wi, p);
            assert(r@ as int == (a - b) % p);
            assert(mont_value::<N, P>(lhs@) as int == (a * wi) % p);
            assert(mont_value::<N, P>(other@) as int == (b * wi) % p);
            assert(mont_value::<N, P>(r@) as int == (((a - b) % p) * wi) % p);
            assert(mod_sub(mont_value::<N, P>(lhs@), mont_value::<N, P>(other@), p as nat) as int
                == ((a * wi) % p - (b * wi) % p) % p);
            assert(Self::modulus() == mont_modulus::<N, P>());
            assert(Self::value(*lhs) == mont_value::<N, P>(lhs@));
            assert(Self::value(*other) == mont_value::<N, P>(other@));
            assert(Self::value(r) == mont_value::<N, P>(r@));
            assert(Self::value(r) == mod_sub(
                Self::value(*lhs),
                Self::value(*other),
                Self::modulus(),
            ));
        }
        *lhs = r;
    }

    fn mul_assign(lhs: &mut Self::BigInt, other: &Self::BigInt) {
        let r = Self::montgomery_mul(lhs, other);
        proof {
            let p = mont_modulus::<N, P>() as int;
            let w = mont_radix::<N, P>() as int;
            let wi = mont_radix_inv::<N, P>() as int;
            let a = lhs@ as int;
            let b = other@ as int;
            lemma_mont_radix_inv::<N, P>();
            assert(a * b < p * w) by (nonlinear_arith)
                requires
                    0 <= a < p,
                    0 <= b < p,
                    p < w,
            ;
            lemma_scaled_mul(a, b, wi, p);
            lemma_mod_bound((a * b) * wi, p);
        }
        *lhs = r;
    }
}

/// Montgomery reduction of `a * R` recovers `a`: for `a < p` the number
/// `a * R` is below `p * R`, where `montgomery_reduction` returns
/// `(a * R) * radix_inv mod p`, which is `a`.
pub proof fn lemma_reduction_recovers<const N: usize, P: MontParameters<N>>(a: nat)
    requires
        mont_valid::<N, P>(),
        a < mont_modulus::<N, P>(),
    ensures
        a * mont_radix::<N, P>() < mont_modulus::<N, P>() * mont_radix::<N, P>(),
        ((a * mont_radix::<N, P>()) * mont_radix_inv::<N, P>()) % mont_modulus::<N, P>() == a,
{
    let p = mont_modulus::<N, P>() as int;
    let w = mont_radix::<N, P>() as int;
    let wi = mont_radix_inv::<N, P>() as int;
    let ai = a as int;
    lemma_mont_radix_inv::<N, P>();
    assert(ai * w < p * w) by (nonlinear_arith)
        requires
            0 <= ai < p,
            w > 0,
    ;
    assert((ai * w) * wi == ai * (wi * w)) by (nonlinear_arith);
    lemma_mul_mod_noop_general(ai, wi * w, p);
    lemma_small_mod(a, p as nat);
    assert(ai * 1 == ai);
}

} // verus!
