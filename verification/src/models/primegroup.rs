//! Groups of prime order made of the points of an elliptic curve.
//!
//! `GroupEC` holds a point in the coordinates that the curve operations
//! work in; `PublicEC` holds its public form. The operators on `GroupEC`
//! are the curve operations.

pub mod subgroup;

use vstd::prelude::*;
use std::ops::Add;
use std::ops::AddAssign;
use std::ops::Mul;
use std::ops::MulAssign;
use std::ops::Neg;
use std::ops::Sub;
use std::ops::SubAssign;
use vstd::std_specs::ops::AddSpecImpl;
use vstd::std_specs::ops::MulSpecImpl;
use vstd::std_specs::ops::NegSpecImpl;
use vstd::std_specs::ops::SubSpecImpl;
use vstd::std_specs::cmp::PartialEqSpecImpl;
use crate::biginteger::Integer;
use crate::fields::Field;
use crate::fields::PrimeField;
use crate::groups::Group;
use crate::groups::PrimeGroup;
use super::CurveOperations;
use super::coordinates::Coordinates;
use super::scalar_mul::ScalarMul;
use super::scalar_mul::ladder;
use super::scalar_mul::field_bits;
use super::scalar_mul::msm_sum;

verus! {

/// A group of prime order on an elliptic curve: the curve operations, a
/// field of scalars, and a public form of the points.
///
/// The group can be a subgroup of the curve, as is most common, or a
/// quotient of one.
pub trait PrimeGroupConfig: CurveOperations + Sized {
    /// The public form of a point.
    type Public: Copy;

    /// The field whose order is the order of the group.
    type ScalarField: PrimeField;

    spec fn generator_spec() -> Self::Public;

    /// The generator that belongs to a scalar: the multiple of the
    /// generator by it, in public form, where it has one.
    spec fn generator_for_spec(scalar: Self::ScalarField) -> Option<Self::Public>;

    spec fn lift_spec(public: Self::Public) -> Self::Point;

    spec fn is_valid_spec(input: Self::Public) -> bool;

    spec fn as_public_spec(point: Self::Point) -> Option<Self::Public>;

    /// The point that a public form stands for.
    fn lift(public: &Self::Public) -> (r: Self::Point)
        ensures
            r == Self::lift_spec(*public),
    ;

    /// The generator of the group, or with a scalar its multiple by the
    /// scalar; `None` where the multiple has no public form.
    fn generator(scalar: Option<&Self::ScalarField>) -> (r: Option<Self::Public>)
        requires
            Self::Field::valid(),
        ensures
            scalar is None ==> r == Some(Self::generator_spec()),
            scalar matches Some(s) ==> r == Self::generator_for_spec(*s),
    ;

    /// Whether the public element is an element of the group.
    fn is_valid(input: &Self::Public) -> (r: bool)
        requires
            Self::Field::valid(),
            <Self::ScalarField as Field>::valid(),
        ensures
            r == Self::is_valid_spec(*input),
    ;

    /// The public form of a point, where it has one.
    fn as_public(input: &Self::Point) -> (r: Option<Self::Public>)
        ensures
            r == Self::as_public_spec(*input),
    ;

    /// Adds a point in its public form to a point.
    fn add_public_in_place(lhs: &mut Self::Point, rhs: &Self::Public)
        ensures
            *final(lhs) == Self::add_public_spec(*old(lhs), *rhs),
    ;

    /// What `add_public_in_place` computes.
    spec fn add_public_spec(lhs: Self::Point, rhs: Self::Public) -> Self::Point;

    /// Whether two public forms are the same.
    spec fn same_public(a: Self::Public, b: Self::Public) -> bool;

    /// Whether two public forms are the same.
    fn public_equals(a: &Self::Public, b: &Self::Public) -> (r: bool)
        ensures
            r == Self::same_public(*a, *b),
    ;

    /// One generator for each scalar. `None` where one of them has no
    /// public form.
    fn batch_generators(scalars: &[Self::ScalarField]) -> (r: Option<Vec<Self::Public>>)
        requires
            Self::Field::valid(),
        ensures
            r is Some <==> forall|i: int|
                0 <= i < scalars@.len() ==> (#[trigger] Self::generator_for_spec(
                    scalars@[i],
                )) is Some,
            r matches Some(v) ==> v@.len() == scalars@.len() && forall|i: int|
                0 <= i < v@.len() ==> Some(#[trigger] v@[i]) == Self::generator_for_spec(
                    scalars@[i],
                ),
    ;

    /// `scalar * base` by the Montgomery ladder, with the same operations
    /// whatever the scalar is.
    fn scalar_mul(base: &Self::Point, scalar: &Self::ScalarField) -> (r: Self::Point)
        requires
            Self::Field::valid(),
        ensures
            r == ladder::<Self>(*base, field_bits(*scalar)),
    ;

    /// `scalar * base` for a base in public form.
    fn scalar_mul_pub(base: &Self::Public, scalar: &Self::ScalarField) -> (r: Self::Point)
        requires
            Self::Field::valid(),
        ensures
            r == ladder::<Self>(Self::lift_spec(*base), field_bits(*scalar)),
    ;

    /// The sum of `scalars[i] * bases[i]`. The two slices must have the
    /// same length.
    fn msm(bases: &[Self::Point], scalars: &[Self::ScalarField]) -> (r: Self::Point)
        requires
            Self::Field::valid(),
            bases@.len() == scalars@.len(),
        ensures
            r == msm_sum::<Self, Self::ScalarField>(bases@, scalars@, bases@.len()),
    ;

    /// The sum of `scalars[i] * bases[i]` for bases in public form. The two
    /// slices must have the same length.
    fn msm_pub(bases: &[Self::Public], scalars: &[Self::ScalarField]) -> (r: Self::Point)
        requires
            Self::Field::valid(),
            bases@.len() == scalars@.len(),
        ensures
            r == msm_sum::<Self, Self::ScalarField>(
                Seq::new(bases@.len(), |i: int| Self::lift_spec(bases@[i])),
                scalars@,
                bases@.len(),
            ),
    ;
}

/// An element of the group `P`, held as a point of the curve.
pub struct GroupEC<P: PrimeGroupConfig> {
    point: P::Point,
}

/// An element of the group `P` in its public form.
pub struct PublicEC<P: PrimeGroupConfig> {
    point: P::Public,
}

impl<P: PrimeGroupConfig> Clone for GroupEC<P> {
    fn clone(&self) -> (r: Self)
        ensures
            r == *self,
    {
        *self
    }
}

impl<P: PrimeGroupConfig> Copy for GroupEC<P> {

}

impl<P: PrimeGroupConfig> PartialEq for PublicEC<P> {
    fn eq(&self, other: &Self) -> (r: bool) {
        P::public_equals(&self.point, &other.point)
    }
}

impl<P: PrimeGroupConfig> PartialEqSpecImpl for PublicEC<P> {
    open spec fn obeys_eq_spec() -> bool {
        true
    }

    closed spec fn eq_spec(&self, other: &Self) -> bool {
        P::same_public(self.point, other.point)
    }
}

impl<P: PrimeGroupConfig> Eq for PublicEC<P> {

}

impl<P: PrimeGroupConfig> Clone for PublicEC<P> {
    fn clone(&self) -> (r: Self)
        ensures
            r == *self,
    {
        *self
    }
}

impl<P: PrimeGroupConfig> Copy for PublicEC<P> {

}

impl<P: PrimeGroupConfig> PublicEC<P> {
    /// The public form held.
    pub closed spec fn public(self) -> P::Public {
        self.point
    }

    pub fn new(point: P::Public) -> (r: Self)
        ensures
            r.public() == point,
    {
        Self { point }
    }

    /// The point that the public form stands for.
    pub fn into_point(self) -> (r: P::Point)
        ensures
            r == P::lift_spec(self.public()),
    {
        P::lift(&self.point)
    }

    /// The public form held.
    pub fn into_public(self) -> (r: P::Public)
        ensures
            r == self.public(),
    {
        self.point
    }

    /// `scalar * self`.
    pub fn scalar_mul(&self, scalar: &P::ScalarField) -> (r: GroupEC<P>)
        ensures
            r.point() == ladder::<P>(P::lift_spec(self.public()), field_bits(*scalar)),
    {
        let point = P::lift(&self.point);
        point.check();
        GroupEC { point: P::scalar_mul(&point, scalar) }
    }
}

impl<P: PrimeGroupConfig> GroupEC<P> {
    /// The point held.
    pub closed spec fn point(self) -> P::Point {
        self.point
    }

    pub fn new(point: P::Point) -> (r: Self)
        ensures
            r.point() == point,
    {
        Self { point }
    }

    /// The point held.
    pub fn into_point(self) -> (r: P::Point)
        ensures
            r == self.point(),
    {
        self.point
    }

    /// `self - other`, computed as `-((-self) + other)`.
    pub open spec fn minus_spec(self, other: Self) -> Self {
        self.negative_spec().plus_spec(other).negative_spec()
    }


    /// `self - other` for a public element: `-((-self) + other)`.
    pub open spec fn sub_public_spec(self, other: PublicEC<P>) -> Self {
        self.negative_spec().add_public_spec(other).negative_spec()
    }


    /// What the operations on elements are on the points held: the curve
    /// operations.
    pub proof fn lemma_operations(self, other: Self)
        ensures
            Self::identity_spec().point() == P::identity_spec(),
            self.plus_spec(other).point() == P::add_spec(self.point(), other.point()),
            self.negative_spec().point() == P::neg_spec(self.point()),
            self.double_spec().point() == P::double_spec(self.point()),
            self.same(other) == self.point().same_point(&other.point()),
            self.point() == other.point() ==> self == other,
    {
    }

    /// What the multiples of an element are on the point held: what the
    /// ladder computes.
    pub proof fn lemma_multiples(self, bits: Seq<bool>, scalar: P::ScalarField)
        ensures
            self.mul_bits_spec(bits).point() == ladder::<P>(self.point(), bits),
            self.scalar_mul_spec(scalar).point() == ladder::<P>(self.point(), field_bits(scalar)),
    {
    }

    /// What the operations with public elements are on the points held.
    pub proof fn lemma_public_operations(
        self,
        public: PublicEC<P>,
        bases: Seq<PublicEC<P>>,
        scalars: Seq<P::ScalarField>,
    )
        ensures
            self.add_public_spec(public).point() == P::add_public_spec(
                self.point(),
                public.public(),
            ),
            Self::same_public(public, Self::generator_spec()) == P::same_public(
                public.public(),
                P::generator_spec(),
            ),
            Self::lift_spec(public).point() == P::lift_spec(public.public()),
            Self::is_valid_spec(public) == P::is_valid_spec(public.public()),
            Self::generator_spec().public() == P::generator_spec(),
            self.as_public_spec() is Some <==> P::as_public_spec(self.point()) is Some,
            self.as_public_spec() matches Some(q) ==> Some(q.public()) == P::as_public_spec(
                self.point(),
            ),
            Self::msm_spec(bases, scalars).point() == msm_sum::<P, P::ScalarField>(
                Seq::new(bases.len(), |i: int| P::lift_spec(bases[i].public())),
                scalars,
                bases.len(),
            ),
    {
        assert(Seq::new(bases.len(), |i: int| P::lift_spec(bases[i].public())) =~= Seq::new(
            bases.len(),
            |i: int| P::lift_spec(bases[i].point),
        ));
    }

    /// The sum of the first `k` elements, added up from the identity in the
    /// order of the indices.
    pub open spec fn sum_spec(items: Seq<Self>, k: nat) -> Self
        decreases k,
    {
        if k == 0 {
            Self::identity_spec()
        } else {
            Self::sum_spec(items, (k - 1) as nat).plus_spec(items[k - 1])
        }
    }

    /// The sum of the elements.
    pub fn sum(items: &[Self]) -> (r: Self)
        requires
            <Self as Group>::valid(),
        ensures
            r == Self::sum_spec(items@, items@.len()),
    {
        let mut acc = Self::identity();
        let mut i: usize = 0;
        while i < items.len()
            invariant
                i <= items@.len(),
                acc == Self::sum_spec(items@, i as nat),
            decreases items@.len() - i,
        {
            acc.add_in_place(&items[i]);
            i += 1;
        }
        acc
    }

    /// Subtracts an element in place.
    pub fn sub_in_place(&mut self, other: &Self)
        ensures
            *final(self) == old(self).minus_spec(*other),
    {
        self.neg_in_place();
        self.add_in_place(other);
        self.neg_in_place();
    }


    /// Subtracts a public element in place.
    pub fn sub_public_in_place(&mut self, other: &PublicEC<P>)
        ensures
            *final(self) == old(self).sub_public_spec(*other),
    {
        self.neg_in_place();
        self.add_public_in_place(other);
        self.neg_in_place();
    }

}

impl<P: PrimeGroupConfig> From<PublicEC<P>> for GroupEC<P> {
    fn from(public: PublicEC<P>) -> (r: Self) {
        Self { point: public.into_point() }
    }
}

impl<P: PrimeGroupConfig> vstd::std_specs::convert::FromSpecImpl<PublicEC<P>> for GroupEC<P> {
    open spec fn obeys_from_spec() -> bool {
        true
    }

    closed spec fn from_spec(public: PublicEC<P>) -> Self {
        GroupEC { point: P::lift_spec(public.point) }
    }
}

// -----------------------------------------
// Group and PrimeGroup for GroupEC
// -----------------------------------------
impl<P: PrimeGroupConfig> Group for GroupEC<P> {
    open spec fn valid() -> bool {
        P::Field::valid()
    }

    closed spec fn identity_spec() -> Self {
        GroupEC { point: P::identity_spec() }
    }

    closed spec fn plus_spec(self, other: Self) -> Self {
        GroupEC { point: P::add_spec(self.point, other.point) }
    }

    closed spec fn negative_spec(self) -> Self {
        GroupEC { point: P::neg_spec(self.point) }
    }

    closed spec fn double_spec(self) -> Self {
        GroupEC { point: P::double_spec(self.point) }
    }

    closed spec fn mul_bits_spec(self, bits: Seq<bool>) -> Self {
        GroupEC { point: ladder::<P>(self.point, bits) }
    }

    closed spec fn same(self, other: Self) -> bool {
        self.point.same_point(&other.point)
    }

    fn check(&self) {
        self.point.check();
    }

    fn identity() -> (r: Self) {
        Self { point: P::identity() }
    }

    fn is_identity(&self) -> (r: bool) {
        self.point.check();
        self.point.equals(&P::identity())
    }

    fn equals(&self, other: &Self) -> (r: bool) {
        self.point.equals(&other.point)
    }

    fn add_in_place(&mut self, other: &Self) {
        let mut point = self.point;
        P::add_in_place(&mut point, &other.point);
        self.point = point;
    }

    fn neg_in_place(&mut self) {
        let mut point = self.point;
        P::neg_in_place(&mut point);
        self.point = point;
    }

    fn double_in_place(&mut self) {
        let mut point = self.point;
        P::double_in_place(&mut point);
        self.point = point;
    }

    fn mul_int<I: Integer>(&self, scalar: &I) -> (r: Self) {
        self.point.check();
        Self { point: ScalarMul::montgomery_ladder::<P, I>(&self.point, scalar) }
    }
}

impl<P: PrimeGroupConfig> PrimeGroup for GroupEC<P> {
    type ScalarField = P::ScalarField;

    type Public = PublicEC<P>;

    closed spec fn generator_spec() -> Self::Public {
        PublicEC { point: P::generator_spec() }
    }

    closed spec fn generator_for_spec(scalar: Self::ScalarField) -> Option<Self::Public> {
        match P::generator_for_spec(scalar) {
            Some(point) => Some(PublicEC { point }),
            None => None,
        }
    }

    closed spec fn lift_spec(public: Self::Public) -> Self {
        GroupEC { point: P::lift_spec(public.point) }
    }

    closed spec fn is_valid_spec(input: Self::Public) -> bool {
        P::is_valid_spec(input.point)
    }

    closed spec fn as_public_spec(self) -> Option<Self::Public> {
        match P::as_public_spec(self.point) {
            Some(point) => Some(PublicEC { point }),
            None => None,
        }
    }

    closed spec fn scalar_mul_spec(self, scalar: P::ScalarField) -> Self {
        GroupEC { point: ladder::<P>(self.point, field_bits(scalar)) }
    }

    closed spec fn add_public_spec(self, other: PublicEC<P>) -> Self {
        GroupEC { point: P::add_public_spec(self.point, other.point) }
    }

    closed spec fn same_public(a: PublicEC<P>, b: PublicEC<P>) -> bool {
        P::same_public(a.point, b.point)
    }

    fn scalar_mul(&self, scalar: &P::ScalarField) -> (r: Self) {
        self.point.check();
        Self { point: P::scalar_mul(&self.point, scalar) }
    }

    fn add_public_in_place(&mut self, other: &PublicEC<P>) {
        let mut point = self.point;
        P::add_public_in_place(&mut point, &other.point);
        self.point = point;
    }

    fn public_equals(a: &PublicEC<P>, b: &PublicEC<P>) -> (r: bool) {
        P::public_equals(&a.point, &b.point)
    }

    closed spec fn msm_spec(bases: Seq<Self::Public>, scalars: Seq<Self::ScalarField>) -> Self {
        GroupEC {
            point: msm_sum::<P, P::ScalarField>(
                Seq::new(bases.len(), |i: int| P::lift_spec(bases[i].point)),
                scalars,
                bases.len(),
            ),
        }
    }

    fn is_valid(input: &Self::Public) -> (r: bool) {
        P::is_valid(&input.point)
    }

    fn as_public(&self) -> (r: Option<Self::Public>) {
        match P::as_public(&self.point) {
            Some(point) => Some(PublicEC::new(point)),
            None => None,
        }
    }

    fn lift(public: &Self::Public) -> (r: Self) {
        Self { point: P::lift(&public.point) }
    }

    fn generator(scalar: Option<&Self::ScalarField>) -> (r: Option<Self::Public>) {
        match P::generator(scalar) {
            Some(point) => Some(PublicEC::new(point)),
            None => None,
        }
    }

    fn batch_generators(scalars: &[Self::ScalarField]) -> (r: Option<Vec<Self::Public>>) {
        match P::batch_generators(scalars) {
            Some(points) => {
                let mut out: Vec<PublicEC<P>> = Vec::new();
                let mut i: usize = 0;
                while i < points.len()
                    invariant
                        i <= points@.len(),
                        out@.len() == i,
                        forall|j: int| 0 <= j < i ==> (#[trigger] out@[j]).point == points@[j],
                    decreases points@.len() - i,
                {
                    out.push(PublicEC::new(points[i]));
                    i += 1;
                }
                proof {
                    assert forall|j: int| 0 <= j < out@.len() implies Some(#[trigger] out@[j])
                        == Self::generator_for_spec(scalars@[j]) by {
                        assert(Some(points@[j]) == P::generator_for_spec(scalars@[j]));
                    }
                    assert forall|j: int| 0 <= j < scalars@.len() implies (
                    #[trigger] Self::generator_for_spec(scalars@[j])) is Some by {
                        assert(P::generator_for_spec(scalars@[j]) is Some);
                    }
                }
                Some(out)
            },
            None => {
                proof {
                    let j = choose|j: int|
                        0 <= j < scalars@.len() && !((#[trigger] P::generator_for_spec(
                            scalars@[j],
                        )) is Some);
                    assert(Self::generator_for_spec(scalars@[j]) is None);
                }
                None
            },
        }
    }

    fn msm(bases: &[Self::Public], scalars: &[Self::ScalarField]) -> (r: Self) {
        let mut points: Vec<P::Public> = Vec::new();
        let mut i: usize = 0;
        while i < bases.len()
            invariant
                i <= bases@.len(),
                points@.len() == i,
                forall|j: int| 0 <= j < i ==> #[trigger] points@[j] == bases@[j].point,
            decreases bases@.len() - i,
        {
            points.push(bases[i].point);
            i += 1;
        }
        let point = P::msm_pub(points.as_slice(), scalars);
        proof {
            assert(Seq::new(points@.len(), |i: int| P::lift_spec(points@[i])) =~= Seq::new(
                bases@.len(),
                |i: int| P::lift_spec(bases@[i].point),
            ));
        }
        Self::new(point)
    }
}

impl<P: PrimeGroupConfig> PartialEq for GroupEC<P> {
    fn eq(&self, other: &Self) -> (r: bool) {
        self.equals(other)
    }
}

impl<P: PrimeGroupConfig> PartialEqSpecImpl for GroupEC<P> {
    open spec fn obeys_eq_spec() -> bool {
        true
    }

    open spec fn eq_spec(&self, other: &Self) -> bool {
        self.same(*other)
    }
}

impl<P: PrimeGroupConfig> Eq for GroupEC<P> {

}

// -----------------------------------------
// The operators
// -----------------------------------------
impl<P: PrimeGroupConfig> Add<GroupEC<P>> for GroupEC<P> {
    type Output = GroupEC<P>;

    /// The sum of two elements.
    fn add(self, other: GroupEC<P>) -> (r: GroupEC<P>) {
        let mut res = self;
        res.add_in_place(&other);
        res
    }
}

impl<P: PrimeGroupConfig> AddSpecImpl<GroupEC<P>> for GroupEC<P> {
    open spec fn obeys_add_spec() -> bool {
        true
    }

    open spec fn add_req(self, other: GroupEC<P>) -> bool {
        true
    }

    open spec fn add_spec(self, other: GroupEC<P>) -> GroupEC<P> {
        self.plus_spec(other)
    }
}

impl<'a, P: PrimeGroupConfig> Add<&'a GroupEC<P>> for GroupEC<P> {
    type Output = GroupEC<P>;

    /// The sum of two elements.
    fn add(self, other: &'a GroupEC<P>) -> (r: GroupEC<P>) {
        let mut res = self;
        res.add_in_place(other);
        res
    }
}

impl<'a, P: PrimeGroupConfig> AddSpecImpl<&'a GroupEC<P>> for GroupEC<P> {
    open spec fn obeys_add_spec() -> bool {
        true
    }

    open spec fn add_req(self, other: &'a GroupEC<P>) -> bool {
        true
    }

    open spec fn add_spec(self, other: &'a GroupEC<P>) -> GroupEC<P> {
        self.plus_spec(*other)
    }
}

impl<P: PrimeGroupConfig> Sub<GroupEC<P>> for GroupEC<P> {
    type Output = GroupEC<P>;

    /// The difference of two elements.
    fn sub(self, other: GroupEC<P>) -> (r: GroupEC<P>) {
        let mut res = self;
        res.sub_in_place(&other);
        res
    }
}

impl<P: PrimeGroupConfig> SubSpecImpl<GroupEC<P>> for GroupEC<P> {
    open spec fn obeys_sub_spec() -> bool {
        true
    }

    open spec fn sub_req(self, other: GroupEC<P>) -> bool {
        true
    }

    open spec fn sub_spec(self, other: GroupEC<P>) -> GroupEC<P> {
        self.minus_spec(other)
    }
}

impl<'a, P: PrimeGroupConfig> Sub<&'a GroupEC<P>> for GroupEC<P> {
    type Output = GroupEC<P>;

    /// The difference of two elements.
    fn sub(self, other: &'a GroupEC<P>) -> (r: GroupEC<P>) {
        let mut res = self;
        res.sub_in_place(other);
        res
    }
}

impl<'a, P: PrimeGroupConfig> SubSpecImpl<&'a GroupEC<P>> for GroupEC<P> {
    open spec fn obeys_sub_spec() -> bool {
        true
    }

    open spec fn sub_req(self, other: &'a GroupEC<P>) -> bool {
        true
    }

    open spec fn sub_spec(self, other: &'a GroupEC<P>) -> GroupEC<P> {
        self.minus_spec(*other)
    }
}

impl<P: PrimeGroupConfig> Add<PublicEC<P>> for GroupEC<P> {
    type Output = GroupEC<P>;

    /// The sum of an element and a public element.
    fn add(self, other: PublicEC<P>) -> (r: GroupEC<P>) {
        let mut res = self;
        res.add_public_in_place(&other);
        res
    }
}

impl<P: PrimeGroupConfig> AddSpecImpl<PublicEC<P>> for GroupEC<P> {
    open spec fn obeys_add_spec() -> bool {
        true
    }

    open spec fn add_req(self, other: PublicEC<P>) -> bool {
        true
    }

    open spec fn add_spec(self, other: PublicEC<P>) -> GroupEC<P> {
        self.add_public_spec(other)
    }
}

impl<'a, P: PrimeGroupConfig> Add<&'a PublicEC<P>> for GroupEC<P> {
    type Output = GroupEC<P>;

    /// The sum of an element and a public element.
    fn add(self, other: &'a PublicEC<P>) -> (r: GroupEC<P>) {
        let mut res = self;
        res.add_public_in_place(other);
        res
    }
}

impl<'a, P: PrimeGroupConfig> AddSpecImpl<&'a PublicEC<P>> for GroupEC<P> {
    open spec fn obeys_add_spec() -> bool {
        true
    }

    open spec fn add_req(self, other: &'a PublicEC<P>) -> bool {
        true
    }

    open spec fn add_spec(self, other: &'a PublicEC<P>) -> GroupEC<P> {
        self.add_public_spec(*other)
    }
}

impl<P: PrimeGroupConfig> Sub<PublicEC<P>> for GroupEC<P> {
    type Output = GroupEC<P>;

    /// The difference of an element and a public element.
    fn sub(self, other: PublicEC<P>) -> (r: GroupEC<P>) {
        let mut res = self;
        res.sub_public_in_place(&other);
        res
    }
}

impl<P: PrimeGroupConfig> SubSpecImpl<PublicEC<P>> for GroupEC<P> {
    open spec fn obeys_sub_spec() -> bool {
        true
    }

    open spec fn sub_req(self, other: PublicEC<P>) -> bool {
        true
    }

    open spec fn sub_spec(self, other: PublicEC<P>) -> GroupEC<P> {
        self.sub_public_spec(other)
    }
}

impl<'a, P: PrimeGroupConfig> Sub<&'a PublicEC<P>> for GroupEC<P> {
    type Output = GroupEC<P>;

    /// The difference of an element and a public element.
    fn sub(self, other: &'a PublicEC<P>) -> (r: GroupEC<P>) {
        let mut res = self;
        res.sub_public_in_place(other);
        res
    }
}

impl<'a, P: PrimeGroupConfig> SubSpecImpl<&'a PublicEC<P>> for GroupEC<P> {
    open spec fn obeys_sub_spec() -> bool {
        true
    }

    open spec fn sub_req(self, other: &'a PublicEC<P>) -> bool {
        true
    }

    open spec fn sub_spec(self, other: &'a PublicEC<P>) -> GroupEC<P> {
        self.sub_public_spec(*other)
    }
}

impl<P: PrimeGroupConfig> AddAssign<GroupEC<P>> for GroupEC<P> {
    /// Adds an element in place.
    fn add_assign(&mut self, other: GroupEC<P>)
        ensures
            *final(self) == old(self).plus_spec(other),
    {
        self.add_in_place(&other);
    }
}

impl<'a, P: PrimeGroupConfig> AddAssign<&'a GroupEC<P>> for GroupEC<P> {
    /// Adds an element in place.
    fn add_assign(&mut self, other: &'a GroupEC<P>)
        ensures
            *final(self) == old(self).plus_spec(*other),
    {
        self.add_in_place(other);
    }
}

impl<P: PrimeGroupConfig> SubAssign<GroupEC<P>> for GroupEC<P> {
    /// Subtracts an element in place.
    fn sub_assign(&mut self, other: GroupEC<P>)
        ensures
            *final(self) == old(self).minus_spec(other),
    {
        self.sub_in_place(&other);
    }
}

impl<'a, P: PrimeGroupConfig> SubAssign<&'a GroupEC<P>> for GroupEC<P> {
    /// Subtracts an element in place.
    fn sub_assign(&mut self, other: &'a GroupEC<P>)
        ensures
            *final(self) == old(self).minus_spec(*other),
    {
        self.sub_in_place(other);
    }
}

impl<P: PrimeGroupConfig> AddAssign<PublicEC<P>> for GroupEC<P> {
    /// Adds a public element in place.
    fn add_assign(&mut self, other: PublicEC<P>)
        ensures
            *final(self) == old(self).add_public_spec(other),
    {
        self.add_public_in_place(&other);
    }
}

impl<'a, P: PrimeGroupConfig> AddAssign<&'a PublicEC<P>> for GroupEC<P> {
    /// Adds a public element in place.
    fn add_assign(&mut self, other: &'a PublicEC<P>)
        ensures
            *final(self) == old(self).add_public_spec(*other),
    {
        self.add_public_in_place(other);
    }
}

impl<P: PrimeGroupConfig> SubAssign<PublicEC<P>> for GroupEC<P> {
    /// Subtracts a public element in place.
    fn sub_assign(&mut self, other: PublicEC<P>)
        ensures
            *final(self) == old(self).sub_public_spec(other),
    {
        self.sub_public_in_place(&other);
    }
}

impl<'a, P: PrimeGroupConfig> SubAssign<&'a PublicEC<P>> for GroupEC<P> {
    /// Subtracts a public element in place.
    fn sub_assign(&mut self, other: &'a PublicEC<P>)
        ensures
            *final(self) == old(self).sub_public_spec(*other),
    {
        self.sub_public_in_place(other);
    }
}


impl<P: PrimeGroupConfig> Neg for GroupEC<P> {
    type Output = GroupEC<P>;

    /// The negative of the element.
    fn neg(self) -> (r: GroupEC<P>) {
        let mut res = self;
        res.neg_in_place();
        res
    }
}

impl<P: PrimeGroupConfig> NegSpecImpl for GroupEC<P> {
    open spec fn obeys_neg_spec() -> bool {
        true
    }

    open spec fn neg_req(self) -> bool {
        true
    }

    open spec fn neg_spec(self) -> GroupEC<P> {
        self.negative_spec()
    }
}

impl<'a, P: PrimeGroupConfig> Mul<&'a P::ScalarField> for GroupEC<P> {
    type Output = GroupEC<P>;

    /// The multiple of the element by a scalar.
    fn mul(self, other: &'a P::ScalarField) -> (r: GroupEC<P>) {
        self.scalar_mul(other)
    }
}

impl<'a, P: PrimeGroupConfig> MulSpecImpl<&'a P::ScalarField> for GroupEC<P> {
    open spec fn obeys_mul_spec() -> bool {
        true
    }

    open spec fn mul_req(self, other: &'a P::ScalarField) -> bool {
        true
    }

    open spec fn mul_spec(self, other: &'a P::ScalarField) -> GroupEC<P> {
        self.scalar_mul_spec(*other)
    }
}

impl<'a, P: PrimeGroupConfig> MulAssign<&'a P::ScalarField> for GroupEC<P> {
    /// Multiplies the element by a scalar in place.
    fn mul_assign(&mut self, other: &'a P::ScalarField)
        ensures
            *final(self) == old(self).scalar_mul_spec(*other),
    {
        let res = self.scalar_mul(other);
        *self = res;
    }
}

} // verus!
