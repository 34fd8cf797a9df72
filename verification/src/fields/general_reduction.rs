//! Field arithmetic on canonical residues, for moduli that come with their
//! own way of reducing a double-width number.

use vstd::prelude::*;
use std::marker::PhantomData;
use crate::biginteger::limb::Limb;
use crate::biginteger::limbint::LimbInt;
use crate::biginteger::limbint::limbs_val;
use crate::biginteger::limbint::base_pow;
use crate::biginteger::limbint::lemma_limbs_val_bound;
use super::abstract_operations::PrimeFieldOperations;
use super::modular::add_mod;
use super::modular::sub_mod;
use super::modular::mod_add;
use super::modular::mod_sub;
use super::modular::mod_mul;

verus! {

/// A modulus together with an algorithm that reduces double-width numbers
/// modulo it. Useful for primes of a special form.
pub trait GeneralReduction<const N: usize> {
    type Limb: Limb;

    /// The modulus `p`.
    const MODULUS: [Self::Limb; N];

    /// Whether the constants that the algorithm rests on are consistent.
    spec fn valid() -> bool;

    /// Valid constants have at least one limb and a modulus of at least 2.
    proof fn lemma_valid()
        requires
            Self::valid(),
        ensures
            N >= 1,
            limbs_val(Self::MODULUS@, N as nat) >= 2,
    ;

    /// The double-width number (low, high) modulo `p`.
    fn reduction(element: &([Self::Limb; N], [Self::Limb; N])) -> (r: [Self::Limb; N])
        requires
            Self::valid(),
        ensures
            limbs_val(r@, N as nat) == (limbs_val(element.0@, N as nat) + limbs_val(
                element.1@,
                N as nat,
            ) * base_pow::<Self::Limb>(N as nat)) % limbs_val(Self::MODULUS@, N as nat),
    ;

    /// `reduction` on big integers.
    fn reduction_limbint(element: &(LimbInt<Self::Limb, N>, LimbInt<Self::Limb, N>)) -> (r:
        LimbInt<Self::Limb, N>)
        requires
            Self::valid(),
        ensures
            r@ == (element.0@ + element.1@ * base_pow::<Self::Limb>(N as nat)) % limbs_val(
                Self::MODULUS@,
                N as nat,
            ),
    {
        let res_limbs = Self::reduction(&((element.0.limbs), (element.1.limbs)));

        LimbInt { limbs: res_limbs }
    }
}

/// The modulus of a reduction as a number.
pub open spec fn reduction_modulus<const N: usize, P: GeneralReduction<N>>() -> nat {
    limbs_val(P::MODULUS@, N as nat)
}

/// Field arithmetic in which an element is stored as the integer in
/// `0 .. p` itself, reduced by the algorithm `P`.
pub struct GeneralReductionOperations<const N: usize, P: GeneralReduction<N>> {
    _marker: PhantomData<P>,
}

impl<const N: usize, P: GeneralReduction<N>> PrimeFieldOperations for GeneralReductionOperations<
    N,
    P,
> {
    type BigInt = LimbInt<P::Limb, N>;

    open spec fn valid() -> bool {
        P::valid()
    }

    open spec fn modulus() -> nat {
        reduction_modulus::<N, P>()
    }

    open spec fn wf(element: Self::BigInt) -> bool {
        element@ < reduction_modulus::<N, P>()
    }

    open spec fn value(element: Self::BigInt) -> nat {
        element@
    }

    open spec fn encode(value: nat) -> Self::BigInt {
        LimbInt::from_nat(value)
    }

    proof fn lemma_modulus() {
        assert(Self::valid());
        P::lemma_valid();
        assert(Self::modulus() == reduction_modulus::<N, P>());
    }

    proof fn lemma_value(element: Self::BigInt) {
        assert(Self::wf(element));
        assert(Self::modulus() == reduction_modulus::<N, P>());
        assert(Self::value(element) == element@);
        element.lemma_from_nat_view();
        assert(Self::encode(Self::value(element)) == LimbInt::<P::Limb, N>::from_nat(element@));
    }

    proof fn lemma_encode(value: nat) {
        assert(Self::modulus() == reduction_modulus::<N, P>());
        lemma_limbs_val_bound(P::MODULUS@, N as nat);
        LimbInt::<P::Limb, N>::lemma_from_nat(value);
        assert(Self::encode(value) == LimbInt::<P::Limb, N>::from_nat(value));
        assert(Self::value(Self::encode(value)) == Self::encode(value)@);
        assert(Self::wf(Self::encode(value)) == (Self::encode(value)@ < reduction_modulus::<
            N,
            P,
        >()));
    }

    open spec fn int_bits() -> nat {
        8 * (N as nat * P::Limb::BYTES as nat)
    }

    fn modulus_int() -> (r: Self::BigInt) {
        let r = LimbInt::from_limbs(P::MODULUS);
        proof {
            r.lemma_int_val();
        }
        r
    }

    #[inline]
    fn zero() -> (r: Self::BigInt) {
        proof {
            P::lemma_valid();
        }
        LimbInt::zero()
    }

    #[inline]
    fn one() -> (r: Self::BigInt) {
        proof {
            P::lemma_valid();
        }
        LimbInt::one()
    }

    fn is_canonical(element: &Self::BigInt) -> (r: bool) {
        let modulus = LimbInt::from_limbs(P::MODULUS);
        !modulus.le(element)
    }

    fn is_zero(element: &Self::BigInt) -> (r: bool) {
        element.is_zero()
    }

    fn as_int(element: &Self::BigInt) -> (r: Self::BigInt) {
        proof {
            element.lemma_int_val();
            assert(Self::int_bits() == 8 * (N as nat * P::Limb::BYTES as nat));
        }
        *element
    }

    fn reduce(element: &Self::BigInt) -> (r: Self::BigInt) {
        let padded = (*element, LimbInt::zero());
        proof {
            P::lemma_valid();
            element.lemma_int_val();
            assert(0 * base_pow::<P::Limb>(N as nat) == 0);
            vstd::arithmetic::div_mod::lemma_mod_bound(
                element@ as int,
                reduction_modulus::<N, P>() as int,
            );
        }
        P::reduction_limbint(&padded)
    }

    /// The candidate itself. The candidate `p` is not canonical.
    open spec fn sampled(candidate: Self::BigInt) -> Self::BigInt {
        candidate
    }

    proof fn lemma_sampled(candidate: Self::BigInt) {
        candidate.lemma_int_val();
        assert(Self::modulus() == reduction_modulus::<N, P>());
        assert(Self::sampled(candidate) == candidate);
        assert(Self::value(candidate) == candidate@);
        assert(Self::wf(candidate) == (candidate@ < reduction_modulus::<N, P>()));
    }

    fn sample(candidate: &Self::BigInt) -> (r: Option<Self::BigInt>) {
        let modulus = LimbInt::from_limbs(P::MODULUS);
        proof {
            candidate.lemma_int_val();
            assert(Self::modulus() == reduction_modulus::<N, P>());
            assert(Self::sampled(*candidate) == *candidate);
        }
        if candidate.le(&modulus) {
            Some(*candidate)
        } else {
            None
        }
    }

    fn add_assign(lhs: &mut Self::BigInt, other: &Self::BigInt) {
        let modulus = LimbInt::from_limbs(P::MODULUS);
        let r = add_mod(lhs, other, &modulus);
        proof {
            assert(Self::modulus() == reduction_modulus::<N, P>());
            assert(Self::value(r) == mod_add(
                Self::value(*lhs),
                Self::value(*other),
                Self::modulus(),
            ));
        }
        *lhs = r;
    }

    fn sub_assign(lhs: &mut Self::BigInt, other: &Self::BigInt) {
        let modulus = LimbInt::from_limbs(P::MODULUS);
        let r = sub_mod(lhs, other, &modulus);
        proof {
            assert(Self::modulus() == reduction_modulus::<N, P>());
            assert(Self::value(r) == mod_sub(
                Self::value(*lhs),
                Self::value(*other),
                Self::modulus(),
            ));
        }
        *lhs = r;
    }

    fn mul_assign(lhs: &mut Self::BigInt, other: &Self::BigInt) {
        let double = lhs.carrying_mul(*other, LimbInt::zero());
        let r = P::reduction_limbint(&double);
        proof {
            P::lemma_valid();
            let p = reduction_modulus::<N, P>() as int;
            vstd::arithmetic::div_mod::lemma_mod_bound((lhs@ * other@) as int, p);
            assert(Self::modulus() == reduction_modulus::<N, P>());
            assert(double.1@ * LimbInt::<P::Limb, N>::modulus() == double.1@ * base_pow::<P::Limb>(
                N as nat,
            ));
            assert(Self::value(r) == mod_mul(
                Self::value(*lhs),
                Self::value(*other),
                Self::modulus(),
            ));
        }
        *lhs = r;
    }
}

} // verus!
