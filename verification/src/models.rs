//! Coordinates for elliptic curves and the curve operations on them.
//!
//! Two curve models are covered:
//!
//! - short Weierstrass curves `y^2 = x^3 + Ax + B`, in Jacobian coordinates;
//! - twisted Edwards curves `-x^2 + y^2 = 1 + D x^2 y^2`, in extended
//!   coordinates with the unified addition law.
//!
//! The operations of a model are those of the `CurveOperations` trait. The
//! `primegroup` module wraps them into a group of prime order.

pub mod coordinates;
pub mod twisted_edwards;
pub mod edwards_group_law;
pub mod edwards_closure;
pub mod short_weierstrass;
pub mod scalar_mul;
pub mod primegroup;

use vstd::prelude::*;
use crate::fields::Field;
use coordinates::Coordinates;

verus! {

/// The operations of an elliptic curve in one coordinate system.
///
/// What each operation returns is given by a formula over the field, the
/// spec function of the same name.
pub trait CurveOperations {
    type Field: Field;

    type Affine: Copy;

    type Point: Coordinates<Field = Self::Field, Affine = Self::Affine>;

    /// Whether the addition formula holds for all pairs of points,
    /// doublings and the identity included.
    const UNIFIED: bool;

    spec fn identity_spec() -> Self::Point;

    spec fn neg_spec(point: Self::Point) -> Self::Point;

    spec fn add_spec(lhs: Self::Point, rhs: Self::Point) -> Self::Point;

    spec fn add_affine_spec(lhs: Self::Point, rhs: Self::Affine) -> Self::Point;

    spec fn double_spec(point: Self::Point) -> Self::Point;

    /// Identity point of the curve.
    fn identity() -> (r: Self::Point)
        requires
            Self::Field::valid(),
        ensures
            r == Self::identity_spec(),
    ;

    /// Negates the point in place.
    fn neg_in_place(point: &mut Self::Point)
        ensures
            *final(point) == Self::neg_spec(*old(point)),
    ;

    /// Adds a point to the given point in place.
    fn add_in_place(lhs: &mut Self::Point, rhs: &Self::Point)
        ensures
            *final(lhs) == Self::add_spec(*old(lhs), *rhs),
    ;

    /// Adds a point in affine representation to the given point in place.
    fn add_affine_in_place(lhs: &mut Self::Point, rhs: &Self::Affine)
        ensures
            *final(lhs) == Self::add_affine_spec(*old(lhs), *rhs),
    ;

    /// Doubles the point in place.
    fn double_in_place(point: &mut Self::Point)
        ensures
            *final(point) == Self::double_spec(*old(point)),
    ;
}

} // verus!
