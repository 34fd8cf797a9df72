//! Finite fields of prime order.
//!
//! A field element is a big integer in some representation; the way of
//! reducing modulo the prime is a strategy that the element type is
//! generic over. What an operation returns is specified by the integers
//! modulo the order of the field.

pub mod modular;
pub mod abstract_operations;
pub mod montgomery;
pub mod general_reduction;
pub mod solinas;
pub mod operators;
pub mod algebra;
pub mod fermat;

use vstd::prelude::*;
use crate::biginteger::Integer;
use crate::biginteger::int_val;
use modular::mod_add;
use modular::mod_sub;
use modular::mod_neg;
use modular::mod_mul;
use modular::mod_pow;

verus! {

/// Types with an additive identity.
pub trait Zero: Sized {
    /// What has to hold for `zero()` to be called; for a field, that its
    /// constants are valid.
    spec fn zero_defined() -> bool;

    /// The additive identity.
    spec fn zero_spec() -> Self;

    fn zero() -> (r: Self)
        requires
            Self::zero_defined(),
        ensures
            r == Self::zero_spec(),
    ;
}

/// Types with a multiplicative identity.
pub trait One: Sized {
    /// What has to hold for `one()` to be called; for a field, that its
    /// constants are valid.
    spec fn one_defined() -> bool;

    /// The multiplicative identity.
    spec fn one_spec() -> Self;

    fn one() -> (r: Self)
        requires
            Self::one_defined(),
        ensures
            r == Self::one_spec(),
    ;
}

/// The sum of two field elements.
pub open spec fn f_add<F: Field>(a: F, b: F) -> F {
    F::from_value(mod_add(a.value(), b.value(), F::modulus()))
}

/// The difference of two field elements.
pub open spec fn f_sub<F: Field>(a: F, b: F) -> F {
    F::from_value(mod_sub(a.value(), b.value(), F::modulus()))
}

/// The negative of a field element.
pub open spec fn f_neg<F: Field>(a: F) -> F {
    F::from_value(mod_neg(a.value(), F::modulus()))
}

/// The product of two field elements.
pub open spec fn f_mul<F: Field>(a: F, b: F) -> F {
    F::from_value(mod_mul(a.value(), b.value(), F::modulus()))
}

/// A power of a field element.
pub open spec fn f_pow<F: Field>(a: F, e: nat) -> F {
    F::from_value(mod_pow(a.value(), e, F::modulus()))
}

/// The power `a^(p-2)`: the inverse of `a`, where `p` is prime and `a` is
/// not zero.
pub open spec fn f_inv<F: Field>(a: F) -> F {
    f_pow(a, (F::modulus() - 2) as nat)
}

/// Whether `a^(p-2)` is not zero. For a prime `p` this says that `a` is not
/// zero.
pub open spec fn invertible<F: Field>(a: F) -> bool {
    mod_pow(a.value(), (F::modulus() - 2) as nat, F::modulus()) != 0
}

/// The quotient `a / b = a * b^(p-2)`.
pub open spec fn f_div<F: Field>(a: F, b: F) -> F {
    f_mul(a, f_inv(b))
}

/// The sum of the first `k` elements, added up from 0 in the order of the
/// indices.
pub open spec fn f_sum<F: Field>(items: Seq<F>, k: nat) -> F
    decreases k,
{
    if k == 0 {
        F::zero_spec()
    } else {
        f_add(f_sum(items, (k - 1) as nat), items[k - 1])
    }
}

/// The product of the first `k` elements, multiplied up from 1 in the
/// order of the indices.
pub open spec fn f_product<F: Field>(items: Seq<F>, k: nat) -> F
    decreases k,
{
    if k == 0 {
        F::one_spec()
    } else {
        f_mul(f_product(items, (k - 1) as nat), items[k - 1])
    }
}

/// A field of prime order `modulus()`.
///
/// Every element stands for an integer in `0 .. modulus()`, its `value`,
/// and every integer there is the value of exactly one well-formed element.
/// The operations compute with the values modulo the order: what they
/// return is written out here over `from_value`, and is `f_add`, `f_sub`,
/// `f_mul`, `f_neg`, `f_pow`, `f_inv` and `f_div` of the arguments.
/// Executable values of an implementing type are always well-formed, so the
/// operations ask nothing of their arguments.
pub trait Field: Sized + Copy + Zero + One {
    /// Whether the constants that describe the field are consistent.
    spec fn valid() -> bool;

    /// The order `p` of the field.
    spec fn modulus() -> nat;

    /// Whether the element is in canonical form.
    spec fn wf(self) -> bool;

    /// The integer in `0 .. p` that the element stands for.
    spec fn value(self) -> nat;

    /// The element that stands for an integer in `0 .. p`.
    spec fn from_value(value: nat) -> Self;

    /// The order is at least 2, and 0 and 1 are what their names say.
    proof fn lemma_field()
        requires
            Self::valid(),
        ensures
            Self::modulus() >= 2,
            Self::zero_defined(),
            Self::one_defined(),
            Self::zero_spec() == Self::from_value(0),
            Self::one_spec() == Self::from_value(1),
    ;

    /// A well-formed element is determined by its value.
    proof fn lemma_value(self)
        requires
            Self::valid(),
            self.wf(),
        ensures
            self.value() < Self::modulus(),
            Self::from_value(self.value()) == self,
    ;

    /// Every integer in `0 .. p` is the value of a well-formed element.
    proof fn lemma_from_value(value: nat)
        requires
            Self::valid(),
            value < Self::modulus(),
        ensures
            Self::from_value(value).wf(),
            Self::from_value(value).value() == value,
    ;

    /// States what holds of every executable element: the field is valid
    /// and the element well-formed.
    fn check(&self)
        ensures
            Self::valid(),
            self.wf(),
    ;

    /// `self + rhs`.
    fn plus(&self, rhs: &Self) -> (r: Self)
        ensures
            r == Self::from_value(mod_add(self.value(), rhs.value(), Self::modulus())),
    ;

    /// `self - rhs`.
    fn minus(&self, rhs: &Self) -> (r: Self)
        ensures
            r == Self::from_value(mod_sub(self.value(), rhs.value(), Self::modulus())),
    ;

    /// `self * rhs`.
    fn times(&self, rhs: &Self) -> (r: Self)
        ensures
            r == Self::from_value(mod_mul(self.value(), rhs.value(), Self::modulus())),
    ;

    /// `-self`.
    fn negated(&self) -> (r: Self)
        ensures
            r == Self::from_value(mod_neg(self.value(), Self::modulus())),
    ;

    /// `self / rhs`, for a divisor that has an inverse.
    fn divided_by(&self, rhs: &Self) -> (r: Self)
        requires
            mod_pow(rhs.value(), (Self::modulus() - 2) as nat, Self::modulus()) != 0,
        ensures
            r == Self::from_value(
                mod_mul(
                    self.value(),
                    Self::from_value(
                        mod_pow(rhs.value(), (Self::modulus() - 2) as nat, Self::modulus()),
                    ).value(),
                    Self::modulus(),
                ),
            ),
    ;

    /// Whether two elements are the same element of the field.
    fn equals(&self, rhs: &Self) -> (r: bool)
        ensures
            r == (self.value() == rhs.value()),
            r == (*self == *rhs),
    ;

    /// Whether the element is 0.
    fn is_zero(&self) -> (r: bool)
        ensures
            r == (self.value() == 0),
    ;

    /// The multiplicative inverse, computed as `self^(p-2)`; `None` where
    /// that power is 0, which for a prime `p` is the case exactly for the
    /// element 0.
    fn inverse(&self) -> (r: Option<Self>)
        ensures
            r is Some <==> mod_pow(self.value(), (Self::modulus() - 2) as nat, Self::modulus())
                != 0,
            r matches Some(x) ==> x == Self::from_value(
                mod_pow(self.value(), (Self::modulus() - 2) as nat, Self::modulus()),
            ),
    ;

    /// Squares the field element in place.
    fn square_in_place(&mut self)
        ensures
            *final(self) == Self::from_value(
                mod_mul(old(self).value(), old(self).value(), Self::modulus()),
            ),
    ;

    /// The square of the field element.
    fn square(&self) -> (r: Self)
        ensures
            r == Self::from_value(mod_mul(self.value(), self.value(), Self::modulus())),
    {
        let mut result = *self;
        result.square_in_place();
        result
    }

    /// Doubles the field element in place.
    fn double_in_place(&mut self)
        ensures
            *final(self) == Self::from_value(
                mod_add(old(self).value(), old(self).value(), Self::modulus()),
            ),
    ;

    /// The double of the field element.
    fn double(&self) -> (r: Self)
        ensures
            r == Self::from_value(mod_add(self.value(), self.value(), Self::modulus())),
    {
        let mut result = *self;
        result.double_in_place();
        result
    }

    /// `self^exp` by squaring and multiplying over the 64 bits of `exp`.
    /// The multiplications depend on the bits: not for secret exponents.
    fn pow(&self, exp: u64) -> (r: Self)
        ensures
            r == Self::from_value(mod_pow(self.value(), exp as nat, Self::modulus())),
    ;

    /// `self^exp` by a ladder with one multiplication and one squaring per
    /// bit of the type of `exp`, whatever the bits are.
    fn exp<E: Integer>(&self, exp: &E) -> (r: Self)
        ensures
            r == Self::from_value(mod_pow(self.value(), int_val(exp), Self::modulus())),
    ;
}

/// A field of prime order whose elements can be read as, and made from,
/// big integers. Used for the scalars of a group.
pub trait PrimeField: Field {
    /// The integers that elements are read as. All values of the type have
    /// the same number of bits.
    type BigInteger: Integer;

    /// The number of bits of the integers that elements are read as.
    spec fn int_bits() -> nat;

    /// The order of the field.
    fn modulus_int() -> (r: Self::BigInteger)
        requires
            Self::valid(),
        ensures
            int_val(&r) == Self::modulus(),
    ;

    /// The integer in `0 .. p` that the element stands for.
    fn as_int(&self) -> (r: Self::BigInteger)
        ensures
            int_val(&r) == self.value(),
            crate::biginteger::int_bits(&r) == Self::int_bits(),
    ;

    /// The element that stands for `n mod p`.
    fn from_int(n: &Self::BigInteger) -> (r: Self)
        requires
            Self::valid(),
        ensures
            r == Self::from_value(int_val(n) % Self::modulus()),
    ;
}

} // verus!
