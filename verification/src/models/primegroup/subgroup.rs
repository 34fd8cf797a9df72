//! A subgroup of prime order of an elliptic curve.

use vstd::prelude::*;
use crate::fields::Field;
use crate::fields::One;
use crate::fields::PrimeField;
use crate::models::CurveOperations;
use crate::models::coordinates::Coordinates;
use crate::models::scalar_mul::ScalarMul;
use crate::models::scalar_mul::VariableBaseMSM;
use crate::models::scalar_mul::ladder;
use crate::models::scalar_mul::field_bits;
use crate::models::scalar_mul::msm_sum;
use super::PrimeGroupConfig;

verus! {

/// The points of a sequence of affine points.
pub open spec fn lifted<C: CurveOperations>(bases: Seq<C::Affine>) -> Seq<C::Point> {
    Seq::new(bases.len(), |i: int| C::Point::from_affine_spec(bases[i]))
}

/// The multiple of an affine point by a scalar, normalized; `None` where
/// the multiple has no affine form.
pub open spec fn multiple_affine<C: CurveOperations, N: PrimeField>(
    base: C::Affine,
    scalar: N,
) -> Option<C::Affine> {
    ladder::<C>(C::Point::from_affine_spec(base), field_bits(scalar)).affine_spec()
}

/// A subgroup of prime order of the curve whose operations are `Self`.
pub trait PrimeSubGroupConfig: CurveOperations + Sized {
    /// Whether two affine points are the same.
    spec fn same_affine(a: Self::Affine, b: Self::Affine) -> bool;

    /// Whether two affine points are the same.
    fn affine_equals(a: &Self::Affine, b: &Self::Affine) -> (r: bool)
        ensures
            r == Self::same_affine(*a, *b),
    ;

    /// The field whose order is the order of the subgroup.
    type ScalarField: PrimeField;

    /// The number of points of the curve divided by the order of the
    /// subgroup.
    const COFACTOR: u32;

    /// The base point.
    spec fn base_spec() -> Self::Affine;

    /// The base point, or with a scalar the multiple of the base point by
    /// it, normalized; `None` where the multiple has no affine form.
    fn generator(scalar: Option<&Self::ScalarField>) -> (r: Option<Self::Affine>)
        requires
            Self::Field::valid(),
        ensures
            scalar is None ==> r == Some(Self::base_spec()),
            scalar matches Some(s) ==> r == multiple_affine::<Self, Self::ScalarField>(Self::base_spec(), *s),
    ;

    /// One generator for each scalar. `None` where one of them has no
    /// affine form.
    fn batch_generators(scalars: &[Self::ScalarField]) -> (r: Option<Vec<Self::Affine>>)
        requires
            Self::Field::valid(),
        ensures
            r is Some <==> forall|i: int|
                0 <= i < scalars@.len() ==> (#[trigger] multiple_affine::<Self, Self::ScalarField>(
                    Self::base_spec(),
                    scalars@[i],
                )) is Some,
            r matches Some(v) ==> v@.len() == scalars@.len() && forall|i: int|
                0 <= i < v@.len() ==> Some(#[trigger] v@[i]) == multiple_affine::<Self, Self::ScalarField>(
                    Self::base_spec(),
                    scalars@[i],
                ),
    {
        let mut generators: Vec<Self::Affine> = Vec::new();
        let mut i: usize = 0;
        while i < scalars.len()
            invariant
                i <= scalars@.len(),
                Self::Field::valid(),
                generators@.len() == i,
                forall|j: int|
                    0 <= j < i ==> Some(#[trigger] generators@[j]) == multiple_affine::<
                        Self,
                        Self::ScalarField,
                    >(Self::base_spec(), scalars@[j]),
            decreases scalars@.len() - i,
        {
            match Self::generator(Some(&scalars[i])) {
                Some(g) => {
                    generators.push(g);
                },
                None => {
                    proof {
                        assert(multiple_affine::<Self, Self::ScalarField>(
                            Self::base_spec(),
                            scalars@[i as int],
                        ) is None);
                    }
                    return None;
                },
            }
            i += 1;
        }
        proof {
            assert forall|j: int| 0 <= j < scalars@.len() implies (#[trigger] multiple_affine::<
                Self,
                Self::ScalarField,
            >(Self::base_spec(), scalars@[j])) is Some by {
                assert(Some(generators@[j]) == multiple_affine::<Self, Self::ScalarField>(
                    Self::base_spec(),
                    scalars@[j],
                ));
            }
        }
        Some(generators)
    }

    /// `scalar * base` by the Montgomery ladder over the bits of the
    /// scalar read as an integer.
    fn scalar_mul(base: &Self::Point, scalar: &Self::ScalarField) -> (r: Self::Point)
        requires
            Self::Field::valid(),
        ensures
            r == ladder::<Self>(*base, field_bits(*scalar)),
    {
        let base_int = scalar.as_int();
        ScalarMul::montgomery_ladder::<Self, <Self::ScalarField as PrimeField>::BigInteger>(
            base,
            &base_int,
        )
    }

    /// `scalar * base` for an affine base.
    fn scalar_mul_pub(base: &Self::Affine, scalar: &Self::ScalarField) -> (r: Self::Point)
        requires
            Self::Field::valid(),
        ensures
            r == ladder::<Self>(Self::Point::from_affine_spec(*base), field_bits(*scalar)),
    {
        let point = Self::Point::from_affine(*base);
        Self::scalar_mul(&point, scalar)
    }

    /// The sum of `scalars[i] * bases[i]`. The two slices must have the
    /// same length.
    fn msm(bases: &[Self::Point], scalars: &[Self::ScalarField]) -> (r: Self::Point)
        requires
            Self::Field::valid(),
            bases@.len() == scalars@.len(),
        ensures
            r == msm_sum::<Self, Self::ScalarField>(bases@, scalars@, bases@.len()),
    {
        VariableBaseMSM::msm_simple::<Self, Self::ScalarField>(bases, scalars)
    }

    /// The sum of `scalars[i] * bases[i]` for affine bases. The two slices
    /// must have the same length.
    fn msm_pub(bases: &[Self::Affine], scalars: &[Self::ScalarField]) -> (r: Self::Point)
        requires
            Self::Field::valid(),
            bases@.len() == scalars@.len(),
        ensures
            r == msm_sum::<Self, Self::ScalarField>(
                lifted::<Self>(bases@),
                scalars@,
                bases@.len(),
            ),
    {
        let mut points: Vec<Self::Point> = Vec::new();
        let mut i: usize = 0;
        while i < bases.len()
            invariant
                i <= bases@.len(),
                points@.len() == i,
                forall|j: int|
                    0 <= j < i ==> #[trigger] points@[j] == Self::Point::from_affine_spec(
                        bases@[j],
                    ),
            decreases bases@.len() - i,
        {
            points.push(Self::Point::from_affine(bases[i]));
            i += 1;
        }
        proof {
            assert(points@ =~= lifted::<Self>(bases@));
        }
        Self::msm(points.as_slice(), scalars)
    }
}

/// Whether an affine point is in the subgroup, by the test that
/// `(-1) * x + x` is the identity: the multiple by the order of the subgroup,
/// computed as the multiple by the order minus one, plus the point.
pub open spec fn in_subgroup<T: PrimeSubGroupConfig>(input: T::Affine) -> bool {
    let base = T::Point::from_affine_spec(input);
    let power = crate::fields::f_neg(<T::ScalarField as One>::one_spec());
    T::add_spec(ladder::<T>(base, field_bits(power)), base).same_point(&T::identity_spec())
}

impl<T: PrimeSubGroupConfig> PrimeGroupConfig for T {
    type Public = T::Affine;

    type ScalarField = T::ScalarField;

    open spec fn generator_spec() -> Self::Public {
        T::base_spec()
    }

    open spec fn lift_spec(public: Self::Public) -> Self::Point {
        T::Point::from_affine_spec(public)
    }

    open spec fn is_valid_spec(input: Self::Public) -> bool {
        in_subgroup::<T>(input)
    }

    open spec fn as_public_spec(point: Self::Point) -> Option<Self::Public> {
        point.affine_spec()
    }

    open spec fn add_public_spec(lhs: Self::Point, rhs: Self::Public) -> Self::Point {
        T::add_affine_spec(lhs, rhs)
    }

    open spec fn same_public(a: Self::Public, b: Self::Public) -> bool {
        T::same_affine(a, b)
    }

    fn public_equals(a: &Self::Public, b: &Self::Public) -> (r: bool) {
        T::affine_equals(a, b)
    }

    fn lift(public: &Self::Public) -> (r: Self::Point) {
        T::Point::from_affine(*public)
    }

    fn is_valid(input: &Self::Public) -> (r: bool) {
        proof {
            <T::ScalarField as Field>::lemma_field();
        }
        // An element is valid if input^MODULUS = identity
        let power = <T::ScalarField as One>::one().negated();
        let base = T::Point::from_affine(*input);

        let mut base_power = T::scalar_mul(&base, &power);
        T::add_in_place(&mut base_power, &base);

        base_power.equals(&T::identity())
    }

    fn as_public(input: &Self::Point) -> (r: Option<Self::Public>) {
        input.into_affine()
    }

    fn add_public_in_place(lhs: &mut Self::Point, rhs: &Self::Public) {
        T::add_affine_in_place(lhs, rhs)
    }

    open spec fn generator_for_spec(scalar: Self::ScalarField) -> Option<Self::Public> {
        multiple_affine::<T, T::ScalarField>(T::base_spec(), scalar)
    }

    fn generator(scalar: Option<&Self::ScalarField>) -> (r: Option<Self::Public>) {
        <T as PrimeSubGroupConfig>::generator(scalar)
    }

    fn batch_generators(scalars: &[Self::ScalarField]) -> (r: Option<Vec<Self::Public>>) {
        let r = <T as PrimeSubGroupConfig>::batch_generators(scalars);
        proof {
            if r is Some {
                let v = r->0;
                {
                    assert forall|i: int| 0 <= i < scalars@.len() implies (
                    #[trigger] Self::generator_for_spec(scalars@[i])) is Some by {
                        assert(multiple_affine::<T, T::ScalarField>(T::base_spec(), scalars@[i])
                            is Some);
                    }
                    assert forall|i: int| 0 <= i < v@.len() implies Some(#[trigger] v@[i])
                        == Self::generator_for_spec(scalars@[i]) by {
                        assert(Some(v@[i]) == multiple_affine::<T, T::ScalarField>(
                            T::base_spec(),
                            scalars@[i],
                        ));
                    }
                }
            } else {
                let j = choose|j: int|
                    0 <= j < scalars@.len() && !((#[trigger] multiple_affine::<T, T::ScalarField>(
                        T::base_spec(),
                        scalars@[j],
                    )) is Some);
                assert(Self::generator_for_spec(scalars@[j]) is None);
            }
        }
        r
    }

    fn scalar_mul(base: &Self::Point, scalar: &Self::ScalarField) -> (r: Self::Point) {
        <T as PrimeSubGroupConfig>::scalar_mul(base, scalar)
    }

    fn scalar_mul_pub(base: &Self::Public, scalar: &Self::ScalarField) -> (r: Self::Point) {
        <T as PrimeSubGroupConfig>::scalar_mul_pub(base, scalar)
    }

    fn msm(bases: &[Self::Point], scalars: &[Self::ScalarField]) -> (r: Self::Point) {
        <T as PrimeSubGroupConfig>::msm(bases, scalars)
    }

    fn msm_pub(bases: &[Self::Public], scalars: &[Self::ScalarField]) -> (r: Self::Point) {
        proof {
            assert(lifted::<T>(bases@) =~= Seq::new(
                bases@.len(),
                |i: int| Self::lift_spec(bases@[i]),
            ));
        }
        <T as PrimeSubGroupConfig>::msm_pub(bases, scalars)
    }
}

} // verus!
