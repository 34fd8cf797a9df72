//! Short Weierstrass curves `y^2 = x^3 + Ax + B` in Jacobian coordinates.
//!
//! Addition and doubling have formulas of their own; the addition formula
//! does not hold for equal points.

use vstd::prelude::*;
use std::marker::PhantomData;
use crate::fields::Field;
use crate::fields::Zero;
use crate::fields::One;
use crate::fields::f_add;
use crate::fields::f_sub;
use crate::fields::f_mul;
use crate::fields::f_neg;
use super::CurveOperations;
use super::coordinates::Affine;
use super::coordinates::JacobianPoint;

verus! {

/// The parameters of a short Weierstrass curve.
pub trait ShortWeierstrass {
    type Field: Field;

    spec fn a_spec() -> Self::Field;

    spec fn b_spec() -> Self::Field;

    fn a() -> (r: Self::Field)
        requires
            Self::Field::valid(),
        ensures
            r == Self::a_spec(),
    ;

    fn b() -> (r: Self::Field)
        requires
            Self::Field::valid(),
        ensures
            r == Self::b_spec(),
    ;
}

/// The operations on a short Weierstrass curve in Jacobian coordinates.
pub struct ShortWeierstrassOperations<P: ShortWeierstrass> {
    _parameters: PhantomData<P>,
}

/// `2 a`.
pub open spec fn f_twice<F: Field>(a: F) -> F {
    f_add(a, a)
}

/// `a^2`.
pub open spec fn f_sq<F: Field>(a: F) -> F {
    f_mul(a, a)
}

/// The sum of two points by the addition formula.
#[allow(non_snake_case)]
pub open spec fn jacobian_sum<F: Field>(lhs: JacobianPoint<F>, rhs: JacobianPoint<F>)
    -> JacobianPoint<F> {
    let Z1Z1 = f_sq(lhs.Z);
    let Z2Z2 = f_sq(rhs.Z);
    let U1 = f_mul(lhs.X, Z2Z2);
    let U2 = f_mul(rhs.X, Z1Z1);
    let S1 = f_mul(f_mul(lhs.Y, rhs.Z), Z2Z2);
    let S2 = f_mul(f_mul(rhs.Y, lhs.Z), Z1Z1);
    let H = f_sub(U2, U1);
    let I = f_sq(f_add(H, H));
    let J = f_mul(H, I);
    let r = f_twice(f_sub(S2, S1));
    let V = f_mul(U1, I);
    let X3 = f_sub(f_sub(f_sq(r), J), f_twice(V));
    JacobianPoint {
        X: X3,
        Y: f_sub(f_mul(r, f_sub(V, X3)), f_mul(S1, f_twice(J))),
        Z: f_mul(f_sub(f_sub(f_sq(f_add(lhs.Z, rhs.Z)), Z1Z1), Z2Z2), H),
    }
}

/// The sum of a point and an affine point by the mixed addition formula.
#[allow(non_snake_case)]
pub open spec fn jacobian_mixed_sum<F: Field>(lhs: JacobianPoint<F>, rhs: Affine<F>)
    -> JacobianPoint<F> {
    let Z1Z1 = f_sq(lhs.Z);
    let U2 = f_mul(rhs.x, Z1Z1);
    let S2 = f_mul(f_mul(rhs.y, lhs.Z), Z1Z1);
    let H = f_sub(U2, lhs.X);
    let HH = f_sq(H);
    let I = f_add(HH, HH);
    let J = f_mul(H, I);
    let r = f_twice(f_sub(S2, lhs.Y));
    let V = f_mul(lhs.X, I);
    let X3 = f_sub(f_sub(f_sq(r), J), f_twice(V));
    JacobianPoint {
        X: X3,
        Y: f_sub(f_mul(r, f_sub(V, X3)), f_mul(lhs.Y, f_twice(J))),
        Z: f_sub(f_sub(f_sq(f_add(lhs.Z, H)), Z1Z1), HH),
    }
}

/// The double of a point by the doubling formula, on the curve with the
/// parameter `a`.
#[allow(non_snake_case)]
pub open spec fn jacobian_double<F: Field>(point: JacobianPoint<F>, a: F) -> JacobianPoint<F> {
    let XX = f_sq(point.X);
    let YY = f_sq(point.Y);
    let YYYY = f_sq(YY);
    let ZZ = f_sq(point.Z);
    let S = f_sub(f_sub(f_twice(f_sq(f_add(point.X, YY))), XX), YYYY);
    let M = f_add(f_add(f_twice(XX), XX), f_mul(a, f_sq(ZZ)));
    let T = f_sub(f_sq(M), f_twice(S));
    JacobianPoint {
        X: T,
        Y: f_sub(f_mul(M, f_sub(S, T)), f_twice(f_twice(f_twice(YYYY)))),
        Z: f_sub(f_sub(f_sq(f_add(point.Y, point.Z)), YY), ZZ),
    }
}

impl<P: ShortWeierstrass> CurveOperations for ShortWeierstrassOperations<P> {
    type Field = P::Field;

    type Point = JacobianPoint<P::Field>;

    type Affine = Affine<P::Field>;

    const UNIFIED: bool = false;

    /// The point at infinity `(0 : 1 : 0)`.
    open spec fn identity_spec() -> Self::Point {
        JacobianPoint {
            X: P::Field::zero_spec(),
            Y: P::Field::one_spec(),
            Z: P::Field::zero_spec(),
        }
    }

    /// `-(x, y) = (x, -y)`.
    open spec fn neg_spec(point: Self::Point) -> Self::Point {
        JacobianPoint { X: point.X, Y: f_neg(point.Y), Z: point.Z }
    }

    open spec fn add_spec(lhs: Self::Point, rhs: Self::Point) -> Self::Point {
        jacobian_sum(lhs, rhs)
    }

    open spec fn add_affine_spec(lhs: Self::Point, rhs: Self::Affine) -> Self::Point {
        jacobian_mixed_sum(lhs, rhs)
    }

    open spec fn double_spec(point: Self::Point) -> Self::Point {
        jacobian_double(point, P::a_spec())
    }

    fn identity() -> (r: Self::Point) {
        proof {
            P::Field::lemma_field();
        }
        JacobianPoint { X: Self::Field::zero(), Y: Self::Field::one(), Z: Self::Field::zero() }
    }

    fn neg_in_place(point: &mut Self::Point) {
        point.Y = point.Y.negated();
    }

    #[allow(non_snake_case)]
    fn add_in_place(lhs: &mut Self::Point, rhs: &Self::Point) {
        let (X1, Y1, Z1) = (lhs.X, lhs.Y, lhs.Z);
        let (X2, Y2, Z2) = (rhs.X, rhs.Y, rhs.Z);

        let Z1Z1 = Z1.square();
        let Z2Z2 = Z2.square();
        let U1 = X1.times(&Z2Z2);
        let U2 = X2.times(&Z1Z1);
        let S1 = Y1.times(&Z2).times(&Z2Z2);
        let S2 = Y2.times(&Z1).times(&Z1Z1);
        let H = U2.minus(&U1);
        let I = H.plus(&H).square();
        let J = H.times(&I);
        let r = S2.minus(&S1).double();
        let V = U1.times(&I);
        let X3 = r.square().minus(&J).minus(&V.double());
        lhs.X = X3;
        lhs.Y = r.times(&V.minus(&X3)).minus(&S1.times(&J.double()));
        lhs.Z = Z1.plus(&Z2).square().minus(&Z1Z1).minus(&Z2Z2).times(&H);
    }

    #[allow(non_snake_case)]
    fn add_affine_in_place(lhs: &mut Self::Point, rhs: &Self::Affine) {
        let (X1, Y1, Z1) = (lhs.X, lhs.Y, lhs.Z);
        let (x2, y2) = (rhs.x, rhs.y);

        let Z1Z1 = Z1.square();
        let U2 = x2.times(&Z1Z1);
        let S2 = y2.times(&Z1).times(&Z1Z1);
        let H = U2.minus(&X1);
        let HH = H.square();
        let I = HH.plus(&HH);
        let J = H.times(&I);
        let r = S2.minus(&Y1).double();
        let V = X1.times(&I);
        let X3 = r.square().minus(&J).minus(&V.double());
        lhs.X = X3;
        lhs.Y = r.times(&V.minus(&X3)).minus(&Y1.times(&J.double()));
        lhs.Z = Z1.plus(&H).square().minus(&Z1Z1).minus(&HH);
    }

    #[allow(non_snake_case)]
    fn double_in_place(point: &mut Self::Point) {
        let (X, Y, Z) = (point.X, point.Y, point.Z);
        X.check();

        let XX = X.square();
        let YY = Y.square();
        let YYYY = YY.square();
        let ZZ = Z.square();
        let S = X.plus(&YY).square().double().minus(&XX).minus(&YYYY);
        let M = XX.double().plus(&XX).plus(&P::a().times(&ZZ.square()));
        let T = M.square().minus(&S.double());
        point.X = T;
        point.Y = M.times(&S.minus(&T)).minus(&YYYY.double().double().double());
        point.Z = Y.plus(&Z).square().minus(&YY).minus(&ZZ);
    }
}

} // verus!
