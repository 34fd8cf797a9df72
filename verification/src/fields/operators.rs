//! The arithmetic operators on field elements.

use vstd::prelude::*;
use std::ops::Add;
use std::ops::AddAssign;
use std::ops::Div;
use std::ops::DivAssign;
use std::ops::Mul;
use std::ops::MulAssign;
use std::ops::Neg;
use std::ops::Sub;
use std::ops::SubAssign;
use vstd::std_specs::ops::AddSpecImpl;
use vstd::std_specs::ops::DivSpecImpl;
use vstd::std_specs::ops::MulSpecImpl;
use vstd::std_specs::ops::NegSpecImpl;
use vstd::std_specs::ops::SubSpecImpl;
use super::abstract_operations::PrimeFieldOperations;
use super::abstract_operations::F;
use super::Field;
use super::f_add;
use super::f_sub;
use super::f_mul;
use super::f_div;
use super::f_neg;
use super::invertible;

verus! {

impl<S: PrimeFieldOperations> Add for F<S> {
    type Output = Self;

    /// The sum in the field.
    fn add(self, other: Self) -> (r: Self) {
        self.plus(&other)
    }
}

impl<S: PrimeFieldOperations> AddSpecImpl for F<S> {
    open spec fn obeys_add_spec() -> bool {
        true
    }

    open spec fn add_req(self, other: Self) -> bool {
        true
    }

    open spec fn add_spec(self, other: Self) -> Self {
        f_add(self, other)
    }
}

impl<'a, S: PrimeFieldOperations> Add<&'a F<S>> for F<S> {
    type Output = Self;

    /// The sum in the field.
    fn add(self, other: &'a Self) -> (r: Self) {
        self.plus(other)
    }
}

impl<'a, S: PrimeFieldOperations> AddSpecImpl<&'a F<S>> for F<S> {
    open spec fn obeys_add_spec() -> bool {
        true
    }

    open spec fn add_req(self, other: &'a Self) -> bool {
        true
    }

    open spec fn add_spec(self, other: &'a Self) -> Self {
        f_add(self, *other)
    }
}

impl<'a, S: PrimeFieldOperations> AddAssign<&'a F<S>> for F<S> {
    /// The sum in the field.
    fn add_assign(&mut self, other: &'a F<S>)
        ensures
            *final(self) == f_add(*old(self), *other),
    {
        *self = self.plus(other);
    }
}

impl<S: PrimeFieldOperations> AddAssign for F<S> {
    /// The sum in the field.
    fn add_assign(&mut self, other: F<S>)
        ensures
            *final(self) == f_add(*old(self), other),
    {
        *self = self.plus(&other);
    }
}

impl<S: PrimeFieldOperations> Sub for F<S> {
    type Output = Self;

    /// The difference in the field.
    fn sub(self, other: Self) -> (r: Self) {
        self.minus(&other)
    }
}

impl<S: PrimeFieldOperations> SubSpecImpl for F<S> {
    open spec fn obeys_sub_spec() -> bool {
        true
    }

    open spec fn sub_req(self, other: Self) -> bool {
        true
    }

    open spec fn sub_spec(self, other: Self) -> Self {
        f_sub(self, other)
    }
}

impl<'a, S: PrimeFieldOperations> Sub<&'a F<S>> for F<S> {
    type Output = Self;

    /// The difference in the field.
    fn sub(self, other: &'a Self) -> (r: Self) {
        self.minus(other)
    }
}

impl<'a, S: PrimeFieldOperations> SubSpecImpl<&'a F<S>> for F<S> {
    open spec fn obeys_sub_spec() -> bool {
        true
    }

    open spec fn sub_req(self, other: &'a Self) -> bool {
        true
    }

    open spec fn sub_spec(self, other: &'a Self) -> Self {
        f_sub(self, *other)
    }
}

impl<'a, S: PrimeFieldOperations> SubAssign<&'a F<S>> for F<S> {
    /// The difference in the field.
    fn sub_assign(&mut self, other: &'a F<S>)
        ensures
            *final(self) == f_sub(*old(self), *other),
    {
        *self = self.minus(other);
    }
}

impl<S: PrimeFieldOperations> SubAssign for F<S> {
    /// The difference in the field.
    fn sub_assign(&mut self, other: F<S>)
        ensures
            *final(self) == f_sub(*old(self), other),
    {
        *self = self.minus(&other);
    }
}

impl<S: PrimeFieldOperations> Mul for F<S> {
    type Output = Self;

    /// The product in the field.
    fn mul(self, other: Self) -> (r: Self) {
        self.times(&other)
    }
}

impl<S: PrimeFieldOperations> MulSpecImpl for F<S> {
    open spec fn obeys_mul_spec() -> bool {
        true
    }

    open spec fn mul_req(self, other: Self) -> bool {
        true
    }

    open spec fn mul_spec(self, other: Self) -> Self {
        f_mul(self, other)
    }
}

impl<'a, S: PrimeFieldOperations> Mul<&'a F<S>> for F<S> {
    type Output = Self;

    /// The product in the field.
    fn mul(self, other: &'a Self) -> (r: Self) {
        self.times(other)
    }
}

impl<'a, S: PrimeFieldOperations> MulSpecImpl<&'a F<S>> for F<S> {
    open spec fn obeys_mul_spec() -> bool {
        true
    }

    open spec fn mul_req(self, other: &'a Self) -> bool {
        true
    }

    open spec fn mul_spec(self, other: &'a Self) -> Self {
        f_mul(self, *other)
    }
}

impl<'a, S: PrimeFieldOperations> MulAssign<&'a F<S>> for F<S> {
    /// The product in the field.
    fn mul_assign(&mut self, other: &'a F<S>)
        ensures
            *final(self) == f_mul(*old(self), *other),
    {
        *self = self.times(other);
    }
}

impl<S: PrimeFieldOperations> MulAssign for F<S> {
    /// The product in the field.
    fn mul_assign(&mut self, other: F<S>)
        ensures
            *final(self) == f_mul(*old(self), other),
    {
        *self = self.times(&other);
    }
}

impl<S: PrimeFieldOperations> Div for F<S> {
    type Output = Self;

    /// The quotient in the field, for a divisor that has an inverse.
    fn div(self, other: Self) -> (r: Self) {
        self.divided_by(&other)
    }
}

impl<S: PrimeFieldOperations> DivSpecImpl for F<S> {
    open spec fn obeys_div_spec() -> bool {
        true
    }

    open spec fn div_req(self, other: Self) -> bool {
        invertible(other)
    }

    open spec fn div_spec(self, other: Self) -> Self {
        f_div(self, other)
    }
}

impl<'a, S: PrimeFieldOperations> Div<&'a F<S>> for F<S> {
    type Output = Self;

    /// The quotient in the field, for a divisor that has an inverse.
    fn div(self, other: &'a Self) -> (r: Self) {
        self.divided_by(other)
    }
}

impl<'a, S: PrimeFieldOperations> DivSpecImpl<&'a F<S>> for F<S> {
    open spec fn obeys_div_spec() -> bool {
        true
    }

    open spec fn div_req(self, other: &'a Self) -> bool {
        invertible(*other)
    }

    open spec fn div_spec(self, other: &'a Self) -> Self {
        f_div(self, *other)
    }
}

impl<'a, S: PrimeFieldOperations> DivAssign<&'a F<S>> for F<S> {
    /// The quotient in the field, for a divisor that has an inverse.
    fn div_assign(&mut self, other: &'a F<S>)
        requires
            invertible(*other),
        ensures
            *final(self) == f_div(*old(self), *other),
    {
        *self = self.divided_by(other);
    }
}

impl<S: PrimeFieldOperations> DivAssign for F<S> {
    /// The quotient in the field, for a divisor that has an inverse.
    fn div_assign(&mut self, other: F<S>)
        requires
            invertible(other),
        ensures
            *final(self) == f_div(*old(self), other),
    {
        *self = self.divided_by(&other);
    }
}

impl<S: PrimeFieldOperations> Neg for F<S> {
    type Output = Self;

    /// The negative in the field.
    fn neg(self) -> (r: Self) {
        self.negated()
    }
}

impl<S: PrimeFieldOperations> NegSpecImpl for F<S> {
    open spec fn obeys_neg_spec() -> bool {
        true
    }

    open spec fn neg_req(self) -> bool {
        true
    }

    open spec fn neg_spec(self) -> Self {
        f_neg(self)
    }
}

} // verus!
