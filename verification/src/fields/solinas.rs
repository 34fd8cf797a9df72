//! Reduction modulo a prime near a power of the base.
//!
//! Where `b^N = C mod p` for a constant `C` of one limb, the high half of a
//! double-width number can be folded into the low half: `lo + hi * b^N` is
//! congruent to `lo + hi * C`.

use vstd::prelude::*;
use std::marker::PhantomData;
use vstd::arithmetic::div_mod::lemma_add_mod_noop;
use vstd::arithmetic::div_mod::lemma_small_mod;
use crate::biginteger::limb::Limb;
use crate::biginteger::limb::bit;
use crate::biginteger::limbint::LimbInt;
use crate::biginteger::limbint::limbs_val;
use crate::biginteger::limbint::base_pow;
use crate::biginteger::limbint::lemma_base_pow;
use crate::biginteger::limbint::lemma_base_pow_monotonic;
use super::general_reduction::GeneralReduction;
use super::modular::lemma_mod_mul_congruent;
use super::modular::lemma_mod_add_multiple;

verus! {

/// The constants of a pseudo-Mersenne modulus over `N` limbs.
pub trait SolinasParameters<const N: usize> {
    /// The limb type, whose number of values is the base `b`.
    type Limb: Limb;

    /// The modulus `p`, which divides `b^N - C`.
    const MODULUS: [Self::Limb; N];

    /// The constant `C` with `b^N = C mod p`.
    const C: Self::Limb;
}

/// The modulus `p` as a number.
pub open spec fn solinas_modulus<const N: usize, P: SolinasParameters<N>>() -> nat {
    limbs_val(P::MODULUS@, N as nat)
}

/// What the constants must satisfy: at least one limb, `p >= 2`, and
/// `b^N = C mod p`.
pub open spec fn solinas_valid<const N: usize, P: SolinasParameters<N>>() -> bool {
    &&& N >= 1
    &&& solinas_modulus::<N, P>() >= 2
    &&& base_pow::<P::Limb>(N as nat) % solinas_modulus::<N, P>() == P::C.val() % solinas_modulus::<
        N,
        P,
    >()
}

/// Reduction by folding the high half, for the constants `P`.
pub struct SolinasReduction<const N: usize, P: SolinasParameters<N>> {
    _marker: PhantomData<P>,
}

/// The modulus of the reduction is that of the parameters.
pub proof fn lemma_solinas_modulus<const N: usize, P: SolinasParameters<N>>()
    ensures
        <SolinasReduction<N, P> as GeneralReduction<N>>::MODULUS@ == P::MODULUS@,
        <SolinasReduction<N, P> as GeneralReduction<N>>::valid() == solinas_valid::<N, P>(),
{
}

/// Folding keeps the residue, and makes the number smaller where the high
/// half is not zero.
proof fn lemma_fold(lo: int, hi: int, w: int, c: int, p: int, base: int)
    requires
        p > 0,
        w % p == c % p,
        0 <= c < base <= w,
        0 <= hi,
    ensures
        (lo + hi * c) % p == (lo + hi * w) % p,
        hi > 0 ==> lo + hi * c < lo + hi * w,
{
    lemma_mod_mul_congruent(w, c, hi, p);
    lemma_add_mod_noop(lo, hi * c, p);
    lemma_add_mod_noop(lo, hi * w, p);
    if hi > 0 {
        assert(hi * c < hi * w) by (nonlinear_arith)
            requires
                hi > 0,
                c < w,
        ;
    }
}

impl<const N: usize, P: SolinasParameters<N>> GeneralReduction<N> for SolinasReduction<N, P> {
    type Limb = P::Limb;

    const MODULUS: [Self::Limb; N] = P::MODULUS;

    open spec fn valid() -> bool {
        solinas_valid::<N, P>()
    }

    proof fn lemma_valid() {
        assert(Self::valid());
        assert(solinas_valid::<N, P>());
        assert(Self::MODULUS@ == P::MODULUS@);
    }

    /// Folds the high half into the low half until it is zero, then
    /// subtracts `p` until what is left is below `p`.
    fn reduction(element: &([Self::Limb; N], [Self::Limb; N])) -> (r: [Self::Limb; N]) {
        let mut a_l = LimbInt::from_limbs(element.0);
        let mut a_h = LimbInt::from_limbs(element.1);
        let ghost w = base_pow::<P::Limb>(N as nat) as int;
        let ghost p = solinas_modulus::<N, P>() as int;
        let ghost t = a_l@ + a_h@ * w;
        let ghost c = P::C.val() as int;
        proof {
            assert(solinas_valid::<N, P>());
            assert(Self::MODULUS@ == P::MODULUS@);
            lemma_base_pow::<P::Limb>(0);
            lemma_base_pow::<P::Limb>(1);
            lemma_base_pow_monotonic::<P::Limb>(1, N as nat);
            P::C.lemma_limb_range();
            assert(c * 1 == c);
        }
        // c_vec = [C, 0, 0, .., 0]
        let c_vec = LimbInt::single_power(P::C, 0);

        // a = a_h * c_vec + a_l
        let (l, h) = a_h.carrying_mul(c_vec, a_l);
        proof {
            lemma_fold(a_l@ as int, a_h@ as int, w, c, p, P::Limb::base() as int);
            assert(h@ * LimbInt::<P::Limb, N>::modulus() == h@ * w);
        }
        a_l = l;
        a_h = h;
        while !a_h.is_zero()
            invariant
                solinas_valid::<N, P>(),
                w == base_pow::<P::Limb>(N as nat),
                p == solinas_modulus::<N, P>(),
                c == P::C.val(),
                c_vec@ == c,
                0 <= c < P::Limb::base() <= w,
                (a_l@ + a_h@ * w) % p == t % p,
            decreases a_l@ + a_h@ * w,
        {
            let (l, h) = a_h.carrying_mul(c_vec, a_l);
            proof {
                lemma_fold(a_l@ as int, a_h@ as int, w, c, p, P::Limb::base() as int);
                assert(h@ * LimbInt::<P::Limb, N>::modulus() == h@ * w);
            }
            a_l = l;
            a_h = h;
        }
        let modules = LimbInt::from_limbs(Self::MODULUS);
        proof {
            assert(a_h@ * w == 0) by (nonlinear_arith)
                requires
                    a_h@ == 0,
            ;
        }
        while modules.le(&a_l)
            invariant
                modules@ == p,
                p >= 2,
                (a_l@ as int) % p == t % p,
            decreases a_l@,
        {
            let (d, borrow) = a_l.carrying_sub(modules, false);
            proof {
                let wm = LimbInt::<P::Limb, N>::modulus() as int;
                d.lemma_bound();
                assert(bit(borrow) * wm == if borrow { wm } else { 0 }) by (nonlinear_arith);
                lemma_mod_add_multiple(a_l@ as int, -1, p);
            }
            a_l = d;
        }
        proof {
            lemma_small_mod(a_l@, p as nat);
        }
        a_l.limbs
    }
}

} // verus!
