//! Representations of a point on an elliptic curve.
//!
//! Apart from the affine one, a representation holds a point up to a common
//! factor of its coordinates, so two values are compared by cross
//! multiplication, never coordinate by coordinate.

use vstd::prelude::*;
use vstd::std_specs::cmp::PartialEqSpecImpl;
use crate::fields::Field;
use crate::fields::Zero;
use crate::fields::One;
use crate::fields::f_mul;
use crate::fields::f_inv;
use crate::fields::f_pow;
use crate::fields::invertible;

verus! {

/// A coordinate system for the points of a curve.
pub trait Coordinates: Sized + Copy {
    type Field: Field;

    type Affine;

    /// States what holds of every executable point: its field is valid.
    fn check(&self)
        ensures
            Self::Field::valid(),
    ;

    /// The affine point that the value stands for, where it has one.
    spec fn affine_spec(&self) -> Option<Self::Affine>;

    /// The value that stands for an affine point.
    spec fn from_affine_spec(affine: Self::Affine) -> Self;

    /// Whether two values stand for the same point.
    spec fn same_point(&self, other: &Self) -> bool;

    /// Normalizes to affine coordinates; `None` where the denominator has
    /// no inverse, as for the point at infinity.
    fn into_affine(&self) -> (r: Option<Self::Affine>)
        ensures
            r == self.affine_spec(),
    ;

    /// Embeds an affine point.
    fn from_affine(affine: Self::Affine) -> (r: Self)
        ensures
            r == Self::from_affine_spec(affine),
    ;

    /// Whether two values stand for the same point.
    fn equals(&self, other: &Self) -> (r: bool)
        ensures
            r == self.same_point(other),
    ;
}

/// Standard affine coordinates.
pub struct Affine<F: Field> {
    pub x: F,
    pub y: F,
}

impl<F: Field> Clone for Affine<F> {
    fn clone(&self) -> (r: Self)
        ensures
            r == *self,
    {
        *self
    }
}

impl<F: Field> Copy for Affine<F> {

}

impl<F: Field> Affine<F> {
    pub fn new(x: F, y: F) -> (r: Self)
        ensures
            r.x == x,
            r.y == y,
    {
        Affine { x, y }
    }

    /// Whether both coordinates are equal.
    pub open spec fn same(&self, other: &Self) -> bool {
        self.x.value() == other.x.value() && self.y.value() == other.y.value()
    }

    /// Whether both coordinates are equal.
    pub fn equals(&self, other: &Self) -> (r: bool)
        ensures
            r == self.same(other),
    {
        let ex = self.x.equals(&other.x);
        let ey = self.y.equals(&other.y);
        ex && ey
    }
}

impl<F: Field> PartialEq for Affine<F> {
    fn eq(&self, other: &Self) -> (r: bool) {
        self.equals(other)
    }
}

impl<F: Field> PartialEqSpecImpl for Affine<F> {
    open spec fn obeys_eq_spec() -> bool {
        true
    }

    open spec fn eq_spec(&self, other: &Self) -> bool {
        self.same(other)
    }
}

impl<F: Field> Eq for Affine<F> {

}

/// Whether `(x1 : z1)` and `(x2 : z2)` are the same ratio:
/// `x1 * z2 = x2 * z1`.
pub open spec fn same_ratio<F: Field>(x1: F, z1: F, x2: F, z2: F) -> bool {
    f_mul(x1, z2).value() == f_mul(x2, z1).value()
}

/// Whether `x1 * z2 = x2 * z1`.
fn cross_equal<F: Field>(x1: &F, z1: &F, x2: &F, z2: &F) -> (r: bool)
    ensures
        r == same_ratio(*x1, *z1, *x2, *z2),
{
    let l = x1.times(z2);
    let r = x2.times(z1);
    l.equals(&r)
}

/// `(numerator / denominator)` for both numerators, or `None` where the
/// denominator has no inverse.
pub open spec fn affine_over<F: Field>(x: F, y: F, denominator_x: F, denominator_y: F) -> Option<
    Affine<F>,
> {
    if invertible(denominator_x) && invertible(denominator_y) {
        Some(
            Affine {
                x: f_mul(x, f_inv(denominator_x)),
                y: f_mul(y, f_inv(denominator_y)),
            },
        )
    } else {
        None
    }
}

/// `x / denominator_x` and `y / denominator_y`, where both inverses exist.
fn normalize<F: Field>(x: &F, y: &F, denominator_x: &F, denominator_y: &F) -> (r: Option<
    Affine<F>,
>)
    ensures
        r == affine_over(*x, *y, *denominator_x, *denominator_y),
{
    match denominator_x.inverse() {
        Some(ix) => match denominator_y.inverse() {
            Some(iy) => Some(Affine { x: x.times(&ix), y: y.times(&iy) }),
            None => None,
        },
        None => None,
    }
}

// ---------------------------------------------
// Projective Point
// ---------------------------------------------
/// Standard projective coordinates: `x = X/Z`, `y = Y/Z`.
#[allow(non_snake_case)]
pub struct Projective<F: Field> {
    pub X: F,
    pub Y: F,
    pub Z: F,
}

impl<F: Field> Clone for Projective<F> {
    fn clone(&self) -> (r: Self)
        ensures
            r == *self,
    {
        *self
    }
}

impl<F: Field> Copy for Projective<F> {

}

impl<F: Field> Coordinates for Projective<F> {
    type Field = F;

    type Affine = Affine<F>;

    open spec fn affine_spec(&self) -> Option<Affine<F>> {
        affine_over(self.X, self.Y, self.Z, self.Z)
    }

    open spec fn from_affine_spec(affine: Affine<F>) -> Self {
        Projective { X: affine.x, Y: affine.y, Z: F::one_spec() }
    }

    open spec fn same_point(&self, other: &Self) -> bool {
        same_ratio(self.X, self.Z, other.X, other.Z) && same_ratio(
            self.Y,
            self.Z,
            other.Y,
            other.Z,
        )
    }

    fn check(&self) {
        self.X.check();
    }

    fn into_affine(&self) -> (r: Option<Affine<F>>) {
        let r = normalize(&self.X, &self.Y, &self.Z, &self.Z);
        proof {
            assert(self.affine_spec() == affine_over(self.X, self.Y, self.Z, self.Z));
        }
        r
    }

    fn from_affine(affine: Affine<F>) -> (r: Self) {
        affine.x.check();
        proof {
            F::lemma_field();
        }
        let r = Projective { X: affine.x, Y: affine.y, Z: F::one() };
        proof {
            assert(Self::from_affine_spec(affine) == (Projective {
                X: affine.x,
                Y: affine.y,
                Z: F::one_spec(),
            }));
        }
        r
    }

    fn equals(&self, other: &Self) -> (r: bool) {
        let ex = cross_equal(&self.X, &self.Z, &other.X, &other.Z);
        let ey = cross_equal(&self.Y, &self.Z, &other.Y, &other.Z);
        ex && ey
    }
}

impl<F: Field> PartialEq for Projective<F> {
    fn eq(&self, other: &Self) -> (r: bool) {
        self.equals(other)
    }
}

impl<F: Field> PartialEqSpecImpl for Projective<F> {
    open spec fn obeys_eq_spec() -> bool {
        true
    }

    open spec fn eq_spec(&self, other: &Self) -> bool {
        self.same_point(other)
    }
}

impl<F: Field> Eq for Projective<F> {

}

// ---------------------------------------------
// Extended Point (for Twisted Edwards)
// ---------------------------------------------
/// Extended twisted Edwards coordinates: `x = X/Z`, `y = Y/Z`,
/// `T = XY/Z`.
#[allow(non_snake_case)]
pub struct ExtendedPoint<F: Field> {
    pub X: F,
    pub Y: F,
    pub T: F,
    pub Z: F,
}

impl<F: Field> Clone for ExtendedPoint<F> {
    fn clone(&self) -> (r: Self)
        ensures
            r == *self,
    {
        *self
    }
}

impl<F: Field> Copy for ExtendedPoint<F> {

}

impl<F: Field> Coordinates for ExtendedPoint<F> {
    type Field = F;

    type Affine = Affine<F>;

    open spec fn affine_spec(&self) -> Option<Affine<F>> {
        affine_over(self.X, self.Y, self.Z, self.Z)
    }

    open spec fn from_affine_spec(affine: Affine<F>) -> Self {
        ExtendedPoint {
            X: affine.x,
            Y: affine.y,
            T: f_mul(affine.x, affine.y),
            Z: F::one_spec(),
        }
    }

    open spec fn same_point(&self, other: &Self) -> bool {
        same_ratio(self.X, self.Z, other.X, other.Z) && same_ratio(
            self.Y,
            self.Z,
            other.Y,
            other.Z,
        )
    }

    fn check(&self) {
        self.X.check();
    }

    fn into_affine(&self) -> (r: Option<Affine<F>>) {
        let r = normalize(&self.X, &self.Y, &self.Z, &self.Z);
        proof {
            assert(self.affine_spec() == affine_over(self.X, self.Y, self.Z, self.Z));
        }
        r
    }

    fn from_affine(affine: Affine<F>) -> (r: Self) {
        affine.x.check();
        proof {
            F::lemma_field();
        }
        let r = ExtendedPoint {
            X: affine.x,
            Y: affine.y,
            T: affine.x.times(&affine.y),
            Z: F::one(),
        };
        proof {
            assert(Self::from_affine_spec(affine) == (ExtendedPoint {
                X: affine.x,
                Y: affine.y,
                T: f_mul(affine.x, affine.y),
                Z: F::one_spec(),
            }));
        }
        r
    }

    fn equals(&self, other: &Self) -> (r: bool) {
        let ex = cross_equal(&self.X, &self.Z, &other.X, &other.Z);
        let ey = cross_equal(&self.Y, &self.Z, &other.Y, &other.Z);
        ex && ey
    }
}

impl<F: Field> PartialEq for ExtendedPoint<F> {
    fn eq(&self, other: &Self) -> (r: bool) {
        self.equals(other)
    }
}

impl<F: Field> PartialEqSpecImpl for ExtendedPoint<F> {
    open spec fn obeys_eq_spec() -> bool {
        true
    }

    open spec fn eq_spec(&self, other: &Self) -> bool {
        self.same_point(other)
    }
}

impl<F: Field> Eq for ExtendedPoint<F> {

}

// ---------------------------------------------
// Jacobian Point
// ---------------------------------------------
/// Jacobian coordinates: `x = X/Z^2`, `y = Y/Z^3`.
#[allow(non_snake_case)]
pub struct JacobianPoint<F: Field> {
    pub X: F,
    pub Y: F,
    pub Z: F,
}

impl<F: Field> Clone for JacobianPoint<F> {
    fn clone(&self) -> (r: Self)
        ensures
            r == *self,
    {
        *self
    }
}

impl<F: Field> Copy for JacobianPoint<F> {

}

impl<F: Field> Coordinates for JacobianPoint<F> {
    type Field = F;

    type Affine = Affine<F>;

    open spec fn affine_spec(&self) -> Option<Affine<F>> {
        affine_over(self.X, self.Y, f_mul(self.Z, self.Z), f_pow(self.Z, 3))
    }

    open spec fn from_affine_spec(affine: Affine<F>) -> Self {
        JacobianPoint { X: affine.x, Y: affine.y, Z: F::one_spec() }
    }

    open spec fn same_point(&self, other: &Self) -> bool {
        same_ratio(self.X, f_mul(self.Z, self.Z), other.X, f_mul(other.Z, other.Z)) && same_ratio(
            self.Y,
            f_pow(self.Z, 3),
            other.Y,
            f_pow(other.Z, 3),
        )
    }

    fn check(&self) {
        self.X.check();
    }

    fn into_affine(&self) -> (r: Option<Affine<F>>) {
        let z2 = self.Z.square();
        let z3 = self.Z.pow(3);
        let r = normalize(&self.X, &self.Y, &z2, &z3);
        proof {
            assert(self.affine_spec() == affine_over(
                self.X,
                self.Y,
                f_mul(self.Z, self.Z),
                f_pow(self.Z, 3),
            ));
        }
        r
    }

    fn from_affine(affine: Affine<F>) -> (r: Self) {
        affine.x.check();
        proof {
            F::lemma_field();
        }
        let r = JacobianPoint { X: affine.x, Y: affine.y, Z: F::one() };
        proof {
            assert(Self::from_affine_spec(affine) == (JacobianPoint {
                X: affine.x,
                Y: affine.y,
                Z: F::one_spec(),
            }));
        }
        r
    }

    fn equals(&self, other: &Self) -> (r: bool) {
        let ex = cross_equal(&self.X, &self.Z.square(), &other.X, &other.Z.square());
        let ey = cross_equal(&self.Y, &self.Z.pow(3), &other.Y, &other.Z.pow(3));
        ex && ey
    }
}

impl<F: Field> PartialEq for JacobianPoint<F> {
    fn eq(&self, other: &Self) -> (r: bool) {
        self.equals(other)
    }
}

impl<F: Field> PartialEqSpecImpl for JacobianPoint<F> {
    open spec fn obeys_eq_spec() -> bool {
        true
    }

    open spec fn eq_spec(&self, other: &Self) -> bool {
        self.same_point(other)
    }
}

impl<F: Field> Eq for JacobianPoint<F> {

}

} // verus!
