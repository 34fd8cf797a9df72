//! The arithmetic of a prime field alone, without exponentiation and
//! inversion, which can then be chosen separately.

use vstd::prelude::*;
use crate::biginteger::Integer;
use crate::biginteger::int_val;
use crate::fields::modular::mod_add;
use crate::fields::modular::mod_sub;
use crate::fields::modular::mod_neg;
use crate::fields::modular::mod_mul;
use super::PrimeFieldOperations;
use super::exponentiation::Exponentiation;
use super::inversion::Inversion;
use crate::fields::fermat::is_prime;
use crate::fields::fermat::lemma_inverse_by_power;
use crate::fields::fermat::lemma_zero_not_invertible;
use crate::fields::montgomery::MontgomeryOperations;
use crate::fields::montgomery::MontParameters;
use crate::fields::general_reduction::GeneralReductionOperations;
use crate::fields::general_reduction::GeneralReduction;

verus! {

/// How the elements of a prime field are stored, added, subtracted and
/// multiplied. Every strategy for a prime field has these operations.
pub trait ArithmeticOperations {
    type BigInt: Integer + Copy;

    /// Whether the constants are consistent.
    spec fn valid() -> bool;

    /// The order `p` of the field.
    spec fn modulus() -> nat;

    /// Whether a big integer is the canonical representative of an element.
    spec fn wf(element: Self::BigInt) -> bool;

    /// The element that a representative stands for, in `0 .. p`.
    spec fn value(element: Self::BigInt) -> nat;

    /// The order is at least 2, and a canonical representative stands for
    /// an element below it.
    proof fn lemma_arithmetic(element: Self::BigInt)
        requires
            Self::valid(),
        ensures
            Self::modulus() >= 2,
            Self::wf(element) ==> Self::value(element) < Self::modulus(),
    ;

    /// The representative of 0.
    fn zero() -> (r: Self::BigInt)
        requires
            Self::valid(),
        ensures
            Self::wf(r),
            Self::value(r) == 0,
    ;

    /// The representative of 1.
    fn one() -> (r: Self::BigInt)
        requires
            Self::valid(),
        ensures
            Self::wf(r),
            Self::value(r) == 1,
    ;

    /// From a representative to the integer in `0 .. p` it stands for.
    fn as_int(element: &Self::BigInt) -> (r: Self::BigInt)
        requires
            Self::valid(),
            Self::wf(*element),
        ensures
            int_val(&r) == Self::value(*element),
    ;

    /// From any integer to the representative of its residue modulo `p`.
    fn reduce(element: &Self::BigInt) -> (r: Self::BigInt)
        requires
            Self::valid(),
        ensures
            Self::wf(r),
            Self::value(r) == int_val(element) % Self::modulus(),
    ;

    /// Whether the representative stands for 0.
    fn is_zero(element: &Self::BigInt) -> (r: bool)
        requires
            Self::valid(),
            Self::wf(*element),
        ensures
            r == (Self::value(*element) == 0),
    ;

    /// Whether two representatives stand for the same element: their
    /// difference is 0.
    fn equals(lhs: &Self::BigInt, rhs: &Self::BigInt) -> (r: bool)
        requires
            Self::valid(),
            Self::wf(*lhs),
            Self::wf(*rhs),
        ensures
            r == (Self::value(*lhs) == Self::value(*rhs)),
    {
        let mut res = *lhs;
        Self::sub_assign(&mut res, rhs);
        let r = Self::is_zero(&res);
        proof {
            Self::lemma_arithmetic(*lhs);
            Self::lemma_arithmetic(*rhs);
            let p = Self::modulus() as int;
            let a = Self::value(*lhs) as int;
            let b = Self::value(*rhs) as int;
            if a >= b {
                vstd::arithmetic::div_mod::lemma_small_mod((a - b) as nat, p as nat);
            } else {
                crate::fields::modular::lemma_mod_add_multiple(a - b, 1, p);
                vstd::arithmetic::div_mod::lemma_small_mod((a - b + p) as nat, p as nat);
            }
        }
        r
    }

    /// Addition of the element `other` to the element `lhs` in place.
    fn add_assign(lhs: &mut Self::BigInt, other: &Self::BigInt)
        requires
            Self::valid(),
            Self::wf(*old(lhs)),
            Self::wf(*other),
        ensures
            Self::wf(*final(lhs)),
            Self::value(*final(lhs)) == mod_add(
                Self::value(*old(lhs)),
                Self::value(*other),
                Self::modulus(),
            ),
    ;

    /// Subtraction of the element `other` from the element `lhs` in place.
    fn sub_assign(lhs: &mut Self::BigInt, other: &Self::BigInt)
        requires
            Self::valid(),
            Self::wf(*old(lhs)),
            Self::wf(*other),
        ensures
            Self::wf(*final(lhs)),
            Self::value(*final(lhs)) == mod_sub(
                Self::value(*old(lhs)),
                Self::value(*other),
                Self::modulus(),
            ),
    ;

    /// Negation of an element, computed as `0 - element`.
    fn negation_in_place(element: &mut Self::BigInt)
        requires
            Self::valid(),
            Self::wf(*old(element)),
        ensures
            Self::wf(*final(element)),
            Self::value(*final(element)) == mod_neg(Self::value(*old(element)), Self::modulus()),
    {
        let mut res = Self::zero();
        Self::sub_assign(&mut res, element);
        *element = res;
    }

    /// Multiplication of two elements in place.
    fn mul_assign(lhs: &mut Self::BigInt, other: &Self::BigInt)
        requires
            Self::valid(),
            Self::wf(*old(lhs)),
            Self::wf(*other),
        ensures
            Self::wf(*final(lhs)),
            Self::value(*final(lhs)) == mod_mul(
                Self::value(*old(lhs)),
                Self::value(*other),
                Self::modulus(),
            ),
    ;

    /// Squaring the element in place.
    fn square_assign(element: &mut Self::BigInt)
        requires
            Self::valid(),
            Self::wf(*old(element)),
        ensures
            Self::wf(*final(element)),
            Self::value(*final(element)) == mod_mul(
                Self::value(*old(element)),
                Self::value(*old(element)),
                Self::modulus(),
            ),
    {
        let other = *element;
        Self::mul_assign(element, &other);
    }

    /// Doubling the element in place.
    fn double_assign(element: &mut Self::BigInt)
        requires
            Self::valid(),
            Self::wf(*old(element)),
        ensures
            Self::wf(*final(element)),
            Self::value(*final(element)) == mod_add(
                Self::value(*old(element)),
                Self::value(*old(element)),
                Self::modulus(),
            ),
    {
        let other = *element;
        Self::add_assign(element, &other);
    }
}

/// The arithmetic of a strategy is the strategy's own.
pub proof fn lemma_same_arithmetic<S: PrimeFieldOperations>(
    a: <S as PrimeFieldOperations>::BigInt,
)
    ensures
        <S as ArithmeticOperations>::valid() == <S as PrimeFieldOperations>::valid(),
        <S as ArithmeticOperations>::modulus() == <S as PrimeFieldOperations>::modulus(),
        <S as ArithmeticOperations>::wf(a) == <S as PrimeFieldOperations>::wf(a),
        <S as ArithmeticOperations>::value(a) == <S as PrimeFieldOperations>::value(a),
{
}

impl<S: PrimeFieldOperations> ArithmeticOperations for S {
    type BigInt = <S as PrimeFieldOperations>::BigInt;

    open spec fn valid() -> bool {
        <S as PrimeFieldOperations>::valid()
    }

    open spec fn modulus() -> nat {
        <S as PrimeFieldOperations>::modulus()
    }

    open spec fn wf(element: Self::BigInt) -> bool {
        <S as PrimeFieldOperations>::wf(element)
    }

    open spec fn value(element: Self::BigInt) -> nat {
        <S as PrimeFieldOperations>::value(element)
    }

    proof fn lemma_arithmetic(element: Self::BigInt) {
        lemma_same_arithmetic::<S>(element);
        <S as PrimeFieldOperations>::lemma_modulus();
        if <S as PrimeFieldOperations>::wf(element) {
            <S as PrimeFieldOperations>::lemma_value(element);
        }
    }

    #[inline]
    fn zero() -> (r: Self::BigInt) {
        let r = <S as PrimeFieldOperations>::zero();
        proof {
            lemma_same_arithmetic::<S>(r);
        }
        r
    }

    #[inline]
    fn one() -> (r: Self::BigInt) {
        let r = <S as PrimeFieldOperations>::one();
        proof {
            lemma_same_arithmetic::<S>(r);
        }
        r
    }

    fn is_zero(element: &Self::BigInt) -> (r: bool) {
        proof {
            lemma_same_arithmetic::<S>(*element);
        }
        <S as PrimeFieldOperations>::is_zero(element)
    }

    fn as_int(element: &Self::BigInt) -> (r: Self::BigInt) {
        proof {
            lemma_same_arithmetic::<S>(*element);
        }
        <S as PrimeFieldOperations>::as_int(element)
    }

    fn reduce(element: &Self::BigInt) -> (r: Self::BigInt) {
        let r = <S as PrimeFieldOperations>::reduce(element);
        proof {
            lemma_same_arithmetic::<S>(r);
        }
        r
    }

    fn add_assign(lhs: &mut Self::BigInt, other: &Self::BigInt) {
        proof {
            lemma_same_arithmetic::<S>(*lhs);
            lemma_same_arithmetic::<S>(*other);
        }
        let mut res = *lhs;
        <S as PrimeFieldOperations>::add_assign(&mut res, other);
        proof {
            lemma_same_arithmetic::<S>(res);
        }
        *lhs = res;
    }

    fn sub_assign(lhs: &mut Self::BigInt, other: &Self::BigInt) {
        proof {
            lemma_same_arithmetic::<S>(*lhs);
            lemma_same_arithmetic::<S>(*other);
        }
        let mut res = *lhs;
        <S as PrimeFieldOperations>::sub_assign(&mut res, other);
        proof {
            lemma_same_arithmetic::<S>(res);
        }
        *lhs = res;
    }

    fn mul_assign(lhs: &mut Self::BigInt, other: &Self::BigInt) {
        proof {
            lemma_same_arithmetic::<S>(*lhs);
            lemma_same_arithmetic::<S>(*other);
        }
        let mut res = *lhs;
        <S as PrimeFieldOperations>::mul_assign(&mut res, other);
        proof {
            lemma_same_arithmetic::<S>(res);
        }
        *lhs = res;
    }
}

/// The inverse as the power `element^(p-2)`, as every strategy provides
/// it.
fn inverse_by_power<S: PrimeFieldOperations>(element: &<S as PrimeFieldOperations>::BigInt) -> (r:
    Option<<S as PrimeFieldOperations>::BigInt>)
    requires
        <S as PrimeFieldOperations>::valid(),
        <S as PrimeFieldOperations>::wf(*element),
    ensures
        r matches Some(x) ==> <S as ArithmeticOperations>::wf(x),
        is_prime(<S as ArithmeticOperations>::modulus()) && <S as ArithmeticOperations>::modulus()
            > 2 ==> (r is None <==> <S as ArithmeticOperations>::value(*element) == 0),
        is_prime(<S as ArithmeticOperations>::modulus()) && <S as ArithmeticOperations>::modulus()
            > 2 ==> (r matches Some(x) ==> mod_mul(
            <S as ArithmeticOperations>::value(*element),
            <S as ArithmeticOperations>::value(x),
            <S as ArithmeticOperations>::modulus(),
        ) == 1),
{
    let r = <S as PrimeFieldOperations>::inverse(element);
    proof {
        let p = <S as PrimeFieldOperations>::modulus();
        let v = <S as PrimeFieldOperations>::value(*element);
        lemma_same_arithmetic::<S>(*element);
        <S as PrimeFieldOperations>::lemma_value(*element);
        if r is Some {
            lemma_same_arithmetic::<S>(r->0);
        }
        if is_prime(p) && p > 2 {
            if v != 0 {
                lemma_inverse_by_power(p, v);
            } else {
                lemma_zero_not_invertible(p);
            }
        }
    }
    r
}

impl<const N: usize, P: MontParameters<N>> Exponentiation<MontgomeryOperations<N, P>>
    for MontgomeryOperations<N, P> {

}

impl<const N: usize, P: MontParameters<N>> Inversion<MontgomeryOperations<N, P>>
    for MontgomeryOperations<N, P> {
    fn inverse(element: &<Self as PrimeFieldOperations>::BigInt) -> (r: Option<
        <Self as PrimeFieldOperations>::BigInt,
    >) {
        proof {
            lemma_same_arithmetic::<Self>(*element);
        }
        inverse_by_power::<Self>(element)
    }
}

impl<const N: usize, P: GeneralReduction<N>> Exponentiation<GeneralReductionOperations<N, P>>
    for GeneralReductionOperations<N, P> {

}

impl<const N: usize, P: GeneralReduction<N>> Inversion<GeneralReductionOperations<N, P>>
    for GeneralReductionOperations<N, P> {
    fn inverse(element: &<Self as PrimeFieldOperations>::BigInt) -> (r: Option<
        <Self as PrimeFieldOperations>::BigInt,
    >) {
        proof {
            lemma_same_arithmetic::<Self>(*element);
        }
        inverse_by_power::<Self>(element)
    }
}

} // verus!
