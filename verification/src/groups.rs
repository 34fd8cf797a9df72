//! The interface of a group, and of a group of prime order as used in
//! cryptographic protocols.

use vstd::prelude::*;
use crate::biginteger::Integer;
use crate::biginteger::scalar_bits;
use crate::fields::PrimeField;
use crate::fields::Field;

verus! {

/// A group, written additively.
///
/// What the operations return is given by the spec functions of the
/// implementing type. Elements are compared by `same`, which may hold of
/// two values that are not equal as data.
pub trait Group: Sized + Copy {
    /// What has to hold for elements to be made: that the constants of the
    /// group are valid.
    spec fn valid() -> bool;

    spec fn identity_spec() -> Self;

    spec fn plus_spec(self, other: Self) -> Self;

    spec fn negative_spec(self) -> Self;

    spec fn double_spec(self) -> Self;

    /// The multiple of the element by the number that the bits stand for,
    /// most significant bit first.
    spec fn mul_bits_spec(self, bits: Seq<bool>) -> Self;

    /// Whether two values are the same element of the group.
    spec fn same(self, other: Self) -> bool;

    /// States what holds of every executable element: the group is valid.
    fn check(&self)
        ensures
            Self::valid(),
    ;

    fn identity() -> (r: Self)
        requires
            Self::valid(),
        ensures
            r == Self::identity_spec(),
    ;

    fn is_identity(&self) -> (r: bool)
        ensures
            r == self.same(Self::identity_spec()),
    ;

    /// Whether two values are the same element of the group.
    fn equals(&self, other: &Self) -> (r: bool)
        ensures
            r == self.same(*other),
    ;

    fn add_in_place(&mut self, other: &Self)
        ensures
            *final(self) == old(self).plus_spec(*other),
    ;

    fn neg_in_place(&mut self)
        ensures
            *final(self) == old(self).negative_spec(),
    ;

    fn double_in_place(&mut self)
        ensures
            *final(self) == old(self).double_spec(),
    ;

    fn double(&self) -> (r: Self)
        ensures
            r == self.double_spec(),
    {
        let mut res = *self;
        res.double_in_place();
        res
    }

    /// The multiple of the element by an integer, by a ladder over all bits
    /// of the integer.
    fn mul_int<I: Integer>(&self, scalar: &I) -> (r: Self)
        ensures
            r == self.mul_bits_spec(scalar_bits(scalar)),
    ;
}

/// A group of prime order, with a field of scalars and a representation of
/// its elements that is safe to make public.
///
/// Internally an element may be held in coordinates that say more than the
/// element itself; before it is sent it is turned into its `Public` form.
/// A public element can always be turned back.
pub trait PrimeGroup: Group {
    type ScalarField: PrimeField;

    /// The public form of an element.
    type Public: Copy;

    spec fn generator_spec() -> Self::Public;

    /// The generator that belongs to a scalar: the multiple of the
    /// generator by it, in public form, where it has one.
    spec fn generator_for_spec(scalar: Self::ScalarField) -> Option<Self::Public>;

    spec fn lift_spec(public: Self::Public) -> Self;

    spec fn is_valid_spec(input: Self::Public) -> bool;

    spec fn as_public_spec(self) -> Option<Self::Public>;

    spec fn msm_spec(bases: Seq<Self::Public>, scalars: Seq<Self::ScalarField>) -> Self;

    spec fn scalar_mul_spec(self, scalar: Self::ScalarField) -> Self;

    spec fn add_public_spec(self, other: Self::Public) -> Self;

    /// The multiple of the element by a scalar, with the same operations
    /// whatever the scalar is.
    fn scalar_mul(&self, scalar: &Self::ScalarField) -> (r: Self)
        ensures
            r == self.scalar_mul_spec(*scalar),
    ;

    /// Adds an element in its public form.
    fn add_public_in_place(&mut self, other: &Self::Public)
        ensures
            *final(self) == old(self).add_public_spec(*other),
    ;

    /// Whether two public elements are the same.
    spec fn same_public(a: Self::Public, b: Self::Public) -> bool;

    /// Whether two public elements are the same.
    fn public_equals(a: &Self::Public, b: &Self::Public) -> (r: bool)
        ensures
            r == Self::same_public(*a, *b),
    ;

    /// The generator of the group, or with a scalar its multiple by the
    /// scalar; `None` where the multiple has no public form.
    fn generator(scalar: Option<&Self::ScalarField>) -> (r: Option<Self::Public>)
        requires
            Self::valid(),
        ensures
            scalar is None ==> r == Some(Self::generator_spec()),
            scalar matches Some(s) ==> r == Self::generator_for_spec(*s),
    ;

    /// Whether a public element belongs to the group.
    fn is_valid(input: &Self::Public) -> (r: bool)
        requires
            Self::valid(),
            Self::ScalarField::valid(),
        ensures
            r == Self::is_valid_spec(*input),
    ;

    /// The public form of the element, where it has one.
    fn as_public(&self) -> (r: Option<Self::Public>)
        ensures
            r == self.as_public_spec(),
    ;

    /// The element that a public form stands for.
    fn lift(public: &Self::Public) -> (r: Self)
        ensures
            r == Self::lift_spec(*public),
    ;

    /// One generator for each scalar: the multiple of the generator by it.
    /// `None` where one of them has no public form.
    fn batch_generators(scalars: &[Self::ScalarField]) -> (r: Option<Vec<Self::Public>>)
        requires
            Self::valid(),
        ensures
            r is Some <==> forall|i: int|
                0 <= i < scalars@.len() ==> (#[trigger] Self::generator_for_spec(
                    scalars@[i],
                )) is Some,
            r matches Some(v) ==> v@.len() == scalars@.len() && forall|i: int|
                0 <= i < v@.len() ==> Some(#[trigger] v@[i]) == Self::generator_for_spec(
                    scalars@[i],
                ),
    ;

    /// The sum of `scalars[i] * bases[i]`. The two slices must have the
    /// same length. The result is to be made public before it is sent.
    fn msm(bases: &[Self::Public], scalars: &[Self::ScalarField]) -> (r: Self)
        requires
            Self::valid(),
            bases@.len() == scalars@.len(),
        ensures
            r == Self::msm_spec(bases@, scalars@),
    ;
}

} // verus!
