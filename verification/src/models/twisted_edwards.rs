//! Twisted Edwards curves `-x^2 + y^2 = 1 + D x^2 y^2`.
//!
//! The addition law is the unified one of Hisil, Wong, Carter and Dawson,
//! "Twisted Edwards Curves Revisited", section 3.1, for `a = -1`: one
//! formula adds any two points, so doubling is adding a point to itself.

use vstd::prelude::*;
use std::marker::PhantomData;
use crate::fields::Field;
use crate::fields::Zero;
use crate::fields::One;
use crate::fields::f_add;
use crate::fields::f_sub;
use crate::fields::f_mul;
use crate::fields::f_neg;
use super::CurveOperations;
use super::coordinates::Affine;
use super::coordinates::ExtendedPoint;

verus! {

/// The parameters of a twisted Edwards curve with `a = -1`.
pub trait TwistedEdwardsAM1 {
    type Field: Field;

    /// The constant `D` of the curve equation.
    spec fn d_spec() -> Self::Field;

    /// The constant `2 D`.
    spec fn d2_spec() -> Self::Field;

    fn d() -> (r: Self::Field)
        requires
            Self::Field::valid(),
        ensures
            r == Self::d_spec(),
    ;

    fn d2() -> (r: Self::Field)
        requires
            Self::Field::valid(),
        ensures
            r == Self::d2_spec(),
    ;

    /// Whether the two constants fit together: `D2 = D + D`.
    fn verify() -> (r: bool)
        requires
            Self::Field::valid(),
        ensures
            r == (Self::d2_spec().value() == f_add(Self::d_spec(), Self::d_spec()).value()),
    {
        let d = Self::d();
        let sum = d.plus(&d);
        Self::d2().equals(&sum)
    }
}

/// The parameters of a twisted Edwards curve `A x^2 + y^2 = 1 + D x^2 y^2`,
/// with no assumption on `A` and `D`.
pub trait TwistedEdwardsGeneral {
    type Field: Field;

    spec fn a_spec() -> Self::Field;

    spec fn d_spec() -> Self::Field;

    fn a() -> (r: Self::Field)
        requires
            Self::Field::valid(),
        ensures
            r == Self::a_spec(),
    ;

    fn d() -> (r: Self::Field)
        requires
            Self::Field::valid(),
        ensures
            r == Self::d_spec(),
    ;
}

/// The unified operations on a twisted Edwards curve with `a = -1`, in
/// extended coordinates.
pub struct EdwardsAM1UnifiedOperations<P: TwistedEdwardsAM1> {
    _marker: PhantomData<P>,
}

/// The unified sum of `(x1, y1, t1, z1)` and `(x2, y2, t2, z2)`, where `zz`
/// stands for the product `z1 * z2` and `dd` for `2 D`.
#[allow(non_snake_case)]
pub open spec fn unified_sum<F: Field>(
    X1: F,
    Y1: F,
    T1: F,
    X2: F,
    Y2: F,
    T2: F,
    dd: F,
    D: F,
) -> ExtendedPoint<F> {
    let A = f_mul(f_sub(Y1, X1), f_sub(Y2, X2));
    let B = f_mul(f_add(Y1, X1), f_add(Y2, X2));
    let C = f_mul(f_mul(dd, T1), T2);
    let E = f_sub(B, A);
    let FF = f_sub(D, C);
    let G = f_add(D, C);
    let H = f_add(B, A);
    ExtendedPoint { X: f_mul(E, FF), Y: f_mul(G, H), T: f_mul(E, H), Z: f_mul(FF, G) }
}

/// Computes `unified_sum`.
#[allow(non_snake_case)]
fn unified_add<F: Field>(X1: &F, Y1: &F, T1: &F, X2: &F, Y2: &F, T2: &F, dd: &F, D: &F) -> (r:
    ExtendedPoint<F>)
    ensures
        r == unified_sum(*X1, *Y1, *T1, *X2, *Y2, *T2, *dd, *D),
{
    let A = Y1.minus(X1).times(&Y2.minus(X2));
    let B = Y1.plus(X1).times(&Y2.plus(X2));
    let C = dd.times(T1).times(T2);
    let E = B.minus(&A);
    let FF = D.minus(&C);
    let G = D.plus(&C);
    let H = B.plus(&A);
    ExtendedPoint { X: E.times(&FF), Y: G.times(&H), T: E.times(&H), Z: FF.times(&G) }
}

impl<P: TwistedEdwardsAM1> CurveOperations for EdwardsAM1UnifiedOperations<P> {
    type Field = P::Field;

    type Point = ExtendedPoint<P::Field>;

    type Affine = Affine<P::Field>;

    const UNIFIED: bool = true;

    /// The neutral element `(0, 1)`.
    open spec fn identity_spec() -> Self::Point {
        ExtendedPoint {
            X: P::Field::zero_spec(),
            Y: P::Field::one_spec(),
            T: P::Field::zero_spec(),
            Z: P::Field::one_spec(),
        }
    }

    /// `-(x, y) = (-x, y)`.
    open spec fn neg_spec(point: Self::Point) -> Self::Point {
        ExtendedPoint { X: f_neg(point.X), Y: point.Y, T: f_neg(point.T), Z: point.Z }
    }

    open spec fn add_spec(lhs: Self::Point, rhs: Self::Point) -> Self::Point {
        unified_sum(
            lhs.X,
            lhs.Y,
            lhs.T,
            rhs.X,
            rhs.Y,
            rhs.T,
            f_add(P::d_spec(), P::d_spec()),
            f_mul(f_add(lhs.Z, lhs.Z), rhs.Z),
        )
    }

    open spec fn add_affine_spec(lhs: Self::Point, rhs: Self::Affine) -> Self::Point {
        unified_sum(
            lhs.X,
            lhs.Y,
            lhs.T,
            rhs.x,
            rhs.y,
            f_mul(rhs.x, rhs.y),
            f_add(P::d_spec(), P::d_spec()),
            f_add(lhs.Z, lhs.Z),
        )
    }

    open spec fn double_spec(point: Self::Point) -> Self::Point {
        Self::add_spec(point, point)
    }

    fn identity() -> (r: Self::Point) {
        proof {
            P::Field::lemma_field();
        }
        ExtendedPoint {
            X: P::Field::zero(),
            Y: P::Field::one(),
            T: P::Field::zero(),
            Z: P::Field::one(),
        }
    }

    fn neg_in_place(point: &mut Self::Point) {
        point.X = point.X.negated();
        point.T = point.T.negated();
    }

    fn add_in_place(lhs: &mut Self::Point, rhs: &Self::Point) {
        lhs.X.check();
        let dd = P::d().double();
        let zz = lhs.Z.double().times(&rhs.Z);
        *lhs = unified_add(&lhs.X, &lhs.Y, &lhs.T, &rhs.X, &rhs.Y, &rhs.T, &dd, &zz);
    }

    fn add_affine_in_place(lhs: &mut Self::Point, rhs: &Self::Affine) {
        lhs.X.check();
        let dd = P::d().double();
        let zz = lhs.Z.double();
        let t2 = rhs.x.times(&rhs.y);
        *lhs = unified_add(&lhs.X, &lhs.Y, &lhs.T, &rhs.x, &rhs.y, &t2, &dd, &zz);
    }

    fn double_in_place(point: &mut Self::Point) {
        let rhs = ExtendedPoint { X: point.X, Y: point.Y, Z: point.Z, T: point.T };
        Self::add_in_place(point, &rhs);
    }
}

/// The parameters of a twisted Edwards curve
/// `A x^2 + y^2 = 1 + D x^2 y^2` together with its field of scalars, with no
/// assumption on `A` and `D`.
pub trait TwistedEdwardsGeneralUnified {
    type Field: Field;

    type Scalar: Field;

    spec fn a_spec() -> Self::Field;

    spec fn d_spec() -> Self::Field;

    fn a() -> (r: Self::Field)
        requires
            Self::Field::valid(),
        ensures
            r == Self::a_spec(),
    ;

    fn d() -> (r: Self::Field)
        requires
            Self::Field::valid(),
        ensures
            r == Self::d_spec(),
    ;
}

/// The unified operations on a twisted Edwards curve with any `A` and
/// `D`.
pub struct EdwardsGeneralUnifiedOperations<P: TwistedEdwardsGeneral> {
    _marker: PhantomData<P>,
}

/// The parameters of a twisted Edwards curve with `a = -1` together with
/// its field of scalars, for the operations that take `2 D` as given.
pub trait TwistedEdwardsUnifiedAM1 {
    type Field: Field;

    type Scalar: Field;

    /// The constant `D` of the curve equation.
    spec fn d_spec() -> Self::Field;

    /// The constant `2 D`.
    spec fn d2_spec() -> Self::Field;

    fn d() -> (r: Self::Field)
        requires
            Self::Field::valid(),
        ensures
            r == Self::d_spec(),
    ;

    fn d2() -> (r: Self::Field)
        requires
            Self::Field::valid(),
        ensures
            r == Self::d2_spec(),
    ;

    /// Whether the two constants fit together: `D2 = D + D`.
    fn verify() -> (r: bool)
        requires
            Self::Field::valid(),
        ensures
            r == (Self::d2_spec().value() == f_add(Self::d_spec(), Self::d_spec()).value()),
    {
        let d = Self::d();
        let sum = d.plus(&d);
        Self::d2().equals(&sum)
    }
}

/// The unified operations on a twisted Edwards curve with `a = -1` that
/// use the constant `2 D` of the parameters in place of doubling `D` in
/// every addition.
pub struct EdwardsAM1<P: TwistedEdwardsUnifiedAM1> {
    _marker: PhantomData<P>,
}

impl<P: TwistedEdwardsUnifiedAM1> CurveOperations for EdwardsAM1<P> {
    type Field = P::Field;

    type Point = ExtendedPoint<P::Field>;

    type Affine = Affine<P::Field>;

    const UNIFIED: bool = true;

    /// The neutral element `(0, 1)`.
    open spec fn identity_spec() -> Self::Point {
        ExtendedPoint {
            X: P::Field::zero_spec(),
            Y: P::Field::one_spec(),
            T: P::Field::zero_spec(),
            Z: P::Field::one_spec(),
        }
    }

    /// `-(x, y) = (-x, y)`.
    open spec fn neg_spec(point: Self::Point) -> Self::Point {
        ExtendedPoint { X: f_neg(point.X), Y: point.Y, T: f_neg(point.T), Z: point.Z }
    }

    open spec fn add_spec(lhs: Self::Point, rhs: Self::Point) -> Self::Point {
        unified_sum(
            lhs.X,
            lhs.Y,
            lhs.T,
            rhs.X,
            rhs.Y,
            rhs.T,
            P::d2_spec(),
            f_mul(f_add(lhs.Z, lhs.Z), rhs.Z),
        )
    }

    open spec fn add_affine_spec(lhs: Self::Point, rhs: Self::Affine) -> Self::Point {
        unified_sum(
            lhs.X,
            lhs.Y,
            lhs.T,
            rhs.x,
            rhs.y,
            f_mul(rhs.x, rhs.y),
            P::d2_spec(),
            f_add(lhs.Z, lhs.Z),
        )
    }

    open spec fn double_spec(point: Self::Point) -> Self::Point {
        Self::add_spec(point, point)
    }

    fn identity() -> (r: Self::Point) {
        proof {
            P::Field::lemma_field();
        }
        ExtendedPoint {
            X: P::Field::zero(),
            Y: P::Field::one(),
            T: P::Field::zero(),
            Z: P::Field::one(),
        }
    }

    fn neg_in_place(point: &mut Self::Point) {
        point.X = point.X.negated();
        point.T = point.T.negated();
    }

    fn add_in_place(lhs: &mut Self::Point, rhs: &Self::Point) {
        lhs.X.check();
        let dd = P::d2();
        let zz = lhs.Z.double().times(&rhs.Z);
        *lhs = unified_add(&lhs.X, &lhs.Y, &lhs.T, &rhs.X, &rhs.Y, &rhs.T, &dd, &zz);
    }

    fn add_affine_in_place(lhs: &mut Self::Point, rhs: &Self::Affine) {
        lhs.X.check();
        let dd = P::d2();
        let zz = lhs.Z.double();
        let t2 = rhs.x.times(&rhs.y);
        *lhs = unified_add(&lhs.X, &lhs.Y, &lhs.T, &rhs.x, &rhs.y, &t2, &dd, &zz);
    }

    fn double_in_place(point: &mut Self::Point) {
        let rhs = ExtendedPoint { X: point.X, Y: point.Y, Z: point.Z, T: point.T };
        Self::add_in_place(point, &rhs);
    }
}

/// With `D2 = D + D` the operations that take `2 D` as given compute the
/// same sums as those that double `D`.
pub proof fn lemma_same_sum<P: TwistedEdwardsUnifiedAM1, Q: TwistedEdwardsAM1<Field = P::Field>>(
    lhs: ExtendedPoint<P::Field>,
    rhs: ExtendedPoint<P::Field>,
)
    requires
        P::d2_spec() == f_add(Q::d_spec(), Q::d_spec()),
    ensures
        EdwardsAM1::<P>::add_spec(lhs, rhs) == EdwardsAM1UnifiedOperations::<Q>::add_spec(lhs, rhs),
{
}

} // verus!
