//! The group law of the unified addition on a twisted Edwards curve with
//! `a = -1`, as far as it follows from the formulas.
//!
//! Every coordinate of a sum is, modulo the order of the field, a
//! polynomial in the coordinates of the summands. The laws are identities
//! between such polynomials.

use vstd::prelude::*;
use crate::fields::Field;
use crate::fields::Zero;
use crate::fields::One;
use crate::fields::f_add;
use crate::fields::f_sub;
use crate::fields::f_mul;
use crate::fields::algebra::val;
use crate::fields::algebra::order;
use crate::fields::algebra::lemma_add_value;
use crate::fields::algebra::lemma_sub_value;
use crate::fields::algebra::lemma_mul_value;
use crate::fields::algebra::lemma_neg_value;
use crate::fields::algebra::lemma_zero_one_value;
use crate::fields::algebra::lemma_mul_commutative;
use crate::fields::algebra::lemma_mul_associative;
use crate::fields::algebra::lemma_distributive;
use crate::fields::modular::congruent;
use crate::fields::modular::lemma_congruent_mod;
use crate::fields::modular::lemma_congruent_add;
use crate::fields::modular::lemma_congruent_sub;
use crate::fields::modular::lemma_congruent_mul;
use crate::fields::modular::lemma_congruent_residues;
use crate::models::CurveOperations;
use crate::models::coordinates::Coordinates;
use crate::models::coordinates::ExtendedPoint;
use crate::models::coordinates::Affine;
use crate::models::coordinates::same_ratio;
use crate::models::twisted_edwards::EdwardsAM1UnifiedOperations;
use crate::models::twisted_edwards::TwistedEdwardsAM1;
use crate::models::twisted_edwards::unified_sum;
use crate::models::scalar_mul::ladder;
use crate::models::scalar_mul::ladder_state;
use crate::models::scalar_mul::field_bits;
use crate::models::scalar_mul::msm_sum;
use crate::biginteger::bits_be;
use crate::fields::PrimeField;
use crate::groups::Group;
use crate::groups::PrimeGroup;
use crate::models::primegroup::GroupEC;
use crate::models::primegroup::PublicEC;
use crate::models::primegroup::PrimeGroupConfig;
use crate::models::primegroup::subgroup::PrimeSubGroupConfig;

verus! {

/// `E = B - A` of the unified formulas, over the integers.
pub open spec fn sum_e(x1: int, y1: int, x2: int, y2: int) -> int {
    (y1 + x1) * (y2 + x2) - (y1 - x1) * (y2 - x2)
}

/// `H = B + A` of the unified formulas, over the integers.
pub open spec fn sum_h(x1: int, y1: int, x2: int, y2: int) -> int {
    (y1 + x1) * (y2 + x2) + (y1 - x1) * (y2 - x2)
}

/// `F = D - C` of the unified formulas, over the integers.
pub open spec fn sum_f(t1: int, t2: int, dd: int, d: int) -> int {
    d - (dd * t1) * t2
}

/// `G = D + C` of the unified formulas, over the integers.
pub open spec fn sum_g(t1: int, t2: int, dd: int, d: int) -> int {
    d + (dd * t1) * t2
}

/// Whether the coordinates of a point are congruent to the given integers.
#[allow(non_snake_case)]
pub open spec fn point_is<F: Field>(point: ExtendedPoint<F>, x: int, y: int, t: int, z: int)
    -> bool {
    &&& congruent(val(point.X), x, order::<F>())
    &&& congruent(val(point.Y), y, order::<F>())
    &&& congruent(val(point.T), t, order::<F>())
    &&& congruent(val(point.Z), z, order::<F>())
}

/// The coordinates of a unified sum, modulo the order of the field, as
/// polynomials in any integers that the arguments are congruent to.
#[allow(non_snake_case)]
pub proof fn lemma_unified_sum<F: Field>(
    X1: F,
    Y1: F,
    T1: F,
    X2: F,
    Y2: F,
    T2: F,
    DD: F,
    D: F,
    x1: int,
    y1: int,
    t1: int,
    x2: int,
    y2: int,
    t2: int,
    dd: int,
    d: int,
)
    requires
        F::valid(),
        congruent(val(X1), x1, order::<F>()),
        congruent(val(Y1), y1, order::<F>()),
        congruent(val(T1), t1, order::<F>()),
        congruent(val(X2), x2, order::<F>()),
        congruent(val(Y2), y2, order::<F>()),
        congruent(val(T2), t2, order::<F>()),
        congruent(val(DD), dd, order::<F>()),
        congruent(val(D), d, order::<F>()),
    ensures
        point_is(
            unified_sum(X1, Y1, T1, X2, Y2, T2, DD, D),
            sum_e(x1, y1, x2, y2) * sum_f(t1, t2, dd, d),
            sum_g(t1, t2, dd, d) * sum_h(x1, y1, x2, y2),
            sum_e(x1, y1, x2, y2) * sum_h(x1, y1, x2, y2),
            sum_f(t1, t2, dd, d) * sum_g(t1, t2, dd, d),
        ),
        unified_sum(X1, Y1, T1, X2, Y2, T2, DD, D).X.wf(),
        unified_sum(X1, Y1, T1, X2, Y2, T2, DD, D).Y.wf(),
        unified_sum(X1, Y1, T1, X2, Y2, T2, DD, D).T.wf(),
        unified_sum(X1, Y1, T1, X2, Y2, T2, DD, D).Z.wf(),
{
    let p = order::<F>();
    F::lemma_field();
    // A = (Y1 - X1) * (Y2 - X2)
    let s1 = f_sub(Y1, X1);
    let s2 = f_sub(Y2, X2);
    lemma_sub_value(Y1, X1);
    lemma_sub_value(Y2, X2);
    lemma_congruent_sub(val(Y1), y1, val(X1), x1, p);
    lemma_congruent_sub(val(Y2), y2, val(X2), x2, p);
    let A = f_mul(s1, s2);
    lemma_mul_value(s1, s2);
    lemma_congruent_mul(val(s1), y1 - x1, val(s2), y2 - x2, p);
    let a = (y1 - x1) * (y2 - x2);
    assert(congruent(val(A), a, p));
    // B = (Y1 + X1) * (Y2 + X2)
    let pa = f_add(Y1, X1);
    let pb = f_add(Y2, X2);
    lemma_add_value(Y1, X1);
    lemma_add_value(Y2, X2);
    lemma_congruent_add(val(Y1), y1, val(X1), x1, p);
    lemma_congruent_add(val(Y2), y2, val(X2), x2, p);
    let B = f_mul(pa, pb);
    lemma_mul_value(pa, pb);
    lemma_congruent_mul(val(pa), y1 + x1, val(pb), y2 + x2, p);
    let b = (y1 + x1) * (y2 + x2);
    assert(congruent(val(B), b, p));
    // C = (DD * T1) * T2
    let m1 = f_mul(DD, T1);
    lemma_mul_value(DD, T1);
    lemma_congruent_mul(val(DD), dd, val(T1), t1, p);
    let C = f_mul(m1, T2);
    lemma_mul_value(m1, T2);
    lemma_congruent_mul(val(m1), dd * t1, val(T2), t2, p);
    let c = (dd * t1) * t2;
    assert(congruent(val(C), c, p));
    // E, F, G, H
    let E = f_sub(B, A);
    lemma_sub_value(B, A);
    lemma_congruent_sub(val(B), b, val(A), a, p);
    let FF = f_sub(D, C);
    lemma_sub_value(D, C);
    lemma_congruent_sub(val(D), d, val(C), c, p);
    let G = f_add(D, C);
    lemma_add_value(D, C);
    lemma_congruent_add(val(D), d, val(C), c, p);
    let H = f_add(B, A);
    lemma_add_value(B, A);
    lemma_congruent_add(val(B), b, val(A), a, p);
    let e = sum_e(x1, y1, x2, y2);
    let f = sum_f(t1, t2, dd, d);
    let g = sum_g(t1, t2, dd, d);
    let h = sum_h(x1, y1, x2, y2);
    assert(congruent(val(E), e, p));
    assert(congruent(val(FF), f, p));
    assert(congruent(val(G), g, p));
    assert(congruent(val(H), h, p));
    // the four products
    lemma_mul_value(E, FF);
    lemma_congruent_mul(val(E), e, val(FF), f, p);
    lemma_mul_value(G, H);
    lemma_congruent_mul(val(G), g, val(H), h, p);
    lemma_mul_value(E, H);
    lemma_congruent_mul(val(E), e, val(H), h, p);
    lemma_mul_value(FF, G);
    lemma_congruent_mul(val(FF), f, val(G), g, p);
}

/// Two ratios are the same where the cross products of integers that the
/// four elements are congruent to are congruent.
pub proof fn lemma_same_ratio<F: Field>(
    a: F,
    b: F,
    c: F,
    d: F,
    ai: int,
    bi: int,
    ci: int,
    di: int,
)
    requires
        F::valid(),
        congruent(val(a), ai, order::<F>()),
        congruent(val(b), bi, order::<F>()),
        congruent(val(c), ci, order::<F>()),
        congruent(val(d), di, order::<F>()),
        congruent(ai * di, ci * bi, order::<F>()),
    ensures
        same_ratio(a, b, c, d),
{
    let p = order::<F>();
    F::lemma_field();
    lemma_mul_value(a, d);
    lemma_mul_value(c, b);
    lemma_congruent_mul(val(a), ai, val(d), di, p);
    lemma_congruent_mul(val(c), ci, val(b), bi, p);
    lemma_congruent_residues(val(f_mul(a, d)), val(f_mul(c, b)), p);
}

/// Whether the point satisfies the curve equation in extended
/// coordinates, `Y^2 - X^2 = Z^2 + D T^2`.
pub open spec fn on_curve<P: TwistedEdwardsAM1>(point: ExtendedPoint<P::Field>) -> bool {
    let x = val(point.X);
    let y = val(point.Y);
    let t = val(point.T);
    let z = val(point.Z);
    let d = val(P::d_spec());
    congruent(y * y - x * x, z * z + d * (t * t), order::<P::Field>())
}

/// `(2 a) b = (2 b) a` in the field.
proof fn lemma_double_product<F: Field>(a: F, b: F)
    requires
        F::valid(),
    ensures
        f_mul(f_add(a, a), b) == f_mul(f_add(b, b), a),
{
    lemma_mul_commutative(f_add(a, a), b);
    lemma_mul_commutative(f_add(b, b), a);
    lemma_distributive(b, a, a);
    lemma_distributive(a, b, b);
    lemma_mul_commutative(a, b);
}

/// Addition is commutative: `P + Q` and `Q + P` are the same value.
pub proof fn lemma_add_commutative<P: TwistedEdwardsAM1>(
    p: ExtendedPoint<P::Field>,
    q: ExtendedPoint<P::Field>,
)
    requires
        P::Field::valid(),
    ensures
        EdwardsAM1UnifiedOperations::<P>::add_spec(p, q) == EdwardsAM1UnifiedOperations::<
            P,
        >::add_spec(q, p),
{
    let dd = f_add(P::d_spec(), P::d_spec());
    lemma_mul_commutative(f_sub(p.Y, p.X), f_sub(q.Y, q.X));
    lemma_mul_commutative(f_add(p.Y, p.X), f_add(q.Y, q.X));
    lemma_mul_associative(dd, p.T, q.T);
    lemma_mul_associative(dd, q.T, p.T);
    lemma_mul_commutative(p.T, q.T);
    lemma_double_product(p.Z, q.Z);
}

/// Doubling is adding a point to itself.
pub proof fn lemma_double_is_add<P: TwistedEdwardsAM1>(p: ExtendedPoint<P::Field>)
    ensures
        EdwardsAM1UnifiedOperations::<P>::double_spec(p) == EdwardsAM1UnifiedOperations::<
            P,
        >::add_spec(p, p),
{
}

/// The identity is neutral: `P + 0` is the same point as `P`.
pub proof fn lemma_add_identity<P: TwistedEdwardsAM1>(p: ExtendedPoint<P::Field>)
    requires
        P::Field::valid(),
    ensures
        EdwardsAM1UnifiedOperations::<P>::add_spec(
            p,
            EdwardsAM1UnifiedOperations::<P>::identity_spec(),
        ).same_point(&p),
{
    let m = order::<P::Field>();
    let o = EdwardsAM1UnifiedOperations::<P>::identity_spec();
    let s = EdwardsAM1UnifiedOperations::<P>::add_spec(p, o);
    let DD = f_add(P::d_spec(), P::d_spec());
    let D = f_mul(f_add(p.Z, p.Z), o.Z);
    let x = val(p.X);
    let y = val(p.Y);
    let t = val(p.T);
    let z = val(p.Z);
    let dd = val(DD);
    P::Field::lemma_field();
    lemma_zero_one_value::<P::Field>();
    lemma_congruent_mod(x, m);
    lemma_congruent_mod(y, m);
    lemma_congruent_mod(t, m);
    lemma_congruent_mod(z, m);
    lemma_congruent_mod(dd, m);
    lemma_congruent_mod(0, m);
    lemma_congruent_mod(1, m);
    lemma_add_value(p.Z, p.Z);
    lemma_mul_value(f_add(p.Z, p.Z), o.Z);
    lemma_congruent_mul(val(f_add(p.Z, p.Z)), z + z, val(o.Z), 1, m);
    let d = (z + z) * 1;
    lemma_unified_sum(p.X, p.Y, p.T, o.X, o.Y, o.T, DD, D, x, y, t, 0, 1, 0, dd, d);
    let e = sum_e(x, y, 0, 1);
    let f = sum_f(t, 0, dd, d);
    let g = sum_g(t, 0, dd, d);
    let h = sum_h(x, y, 0, 1);
    assert(e == 2 * x) by (nonlinear_arith)
        requires
            e == (y + x) * (1 + 0) - (y - x) * (1 - 0),
    ;
    assert(h == 2 * y) by (nonlinear_arith)
        requires
            h == (y + x) * (1 + 0) + (y - x) * (1 - 0),
    ;
    assert(f == 2 * z && g == 2 * z) by (nonlinear_arith)
        requires
            f == d - (dd * t) * 0,
            g == d + (dd * t) * 0,
            d == (z + z) * 1,
    ;
    assert((e * f) * z == x * (f * g)) by (nonlinear_arith)
        requires
            e == 2 * x,
            f == 2 * z,
            g == 2 * z,
    ;
    assert((g * h) * z == y * (f * g)) by (nonlinear_arith)
        requires
            h == 2 * y,
            f == 2 * z,
            g == 2 * z,
    ;
    lemma_same_ratio(s.X, s.Z, p.X, p.Z, e * f, f * g, x, z);
    lemma_same_ratio(s.Y, s.Z, p.Y, p.Z, g * h, f * g, y, z);
}

/// The negative is the inverse: for a point of the curve, `P + (-P)` is
/// the same point as the identity.
pub proof fn lemma_add_negative<P: TwistedEdwardsAM1>(p: ExtendedPoint<P::Field>)
    requires
        P::Field::valid(),
        on_curve::<P>(p),
    ensures
        EdwardsAM1UnifiedOperations::<P>::add_spec(
            p,
            EdwardsAM1UnifiedOperations::<P>::neg_spec(p),
        ).same_point(&EdwardsAM1UnifiedOperations::<P>::identity_spec()),
{
    let m = order::<P::Field>();
    let o = EdwardsAM1UnifiedOperations::<P>::identity_spec();
    let n = EdwardsAM1UnifiedOperations::<P>::neg_spec(p);
    let s = EdwardsAM1UnifiedOperations::<P>::add_spec(p, n);
    let DD = f_add(P::d_spec(), P::d_spec());
    let D = f_mul(f_add(p.Z, p.Z), n.Z);
    let x = val(p.X);
    let y = val(p.Y);
    let t = val(p.T);
    let z = val(p.Z);
    let dv = val(P::d_spec());
    P::Field::lemma_field();
    lemma_zero_one_value::<P::Field>();
    lemma_congruent_mod(x, m);
    lemma_congruent_mod(y, m);
    lemma_congruent_mod(t, m);
    lemma_congruent_mod(z, m);
    lemma_congruent_mod(dv, m);
    lemma_congruent_mod(0, m);
    lemma_congruent_mod(1, m);
    lemma_neg_value(p.X);
    lemma_neg_value(p.T);
    lemma_add_value(P::d_spec(), P::d_spec());
    lemma_add_value(p.Z, p.Z);
    lemma_mul_value(f_add(p.Z, p.Z), n.Z);
    lemma_congruent_mul(val(f_add(p.Z, p.Z)), z + z, val(n.Z), z, m);
    let dd = dv + dv;
    let d = (z + z) * z;
    lemma_unified_sum(p.X, p.Y, p.T, n.X, n.Y, n.T, DD, D, x, y, t, -x, y, -t, dd, d);
    let e = sum_e(x, y, -x, y);
    let f = sum_f(t, -t, dd, d);
    let g = sum_g(t, -t, dd, d);
    let h = sum_h(x, y, -x, y);
    assert(e == 0) by (nonlinear_arith)
        requires
            e == (y + x) * (y + (-x)) - (y - x) * (y - (-x)),
    ;
    assert((e * f) * 1 == 0 * (f * g)) by (nonlinear_arith)
        requires
            e == 0,
    ;
    lemma_congruent_mod((e * f) * 1, m);
    lemma_same_ratio(s.X, s.Z, o.X, o.Z, e * f, f * g, 0, 1);
    // Y3 = Z3 by the curve equation: H = F
    let k = y * y - x * x;
    let w = z * z + dv * (t * t);
    assert(h == 2 * k) by (nonlinear_arith)
        requires
            h == (y + x) * (y + (-x)) + (y - x) * (y - (-x)),
            k == y * y - x * x,
    ;
    assert(f == 2 * w) by (nonlinear_arith)
        requires
            f == d - (dd * t) * (-t),
            d == (z + z) * z,
            dd == dv + dv,
            w == z * z + dv * (t * t),
    ;
    lemma_congruent_mod(2, m);
    lemma_congruent_mul(2, 2, k, w, m);
    lemma_congruent_mod(g, m);
    lemma_congruent_mul(g, g, h, f, m);
    assert((g * h) * 1 == g * h);
    assert(1 * (f * g) == g * f) by (nonlinear_arith);
    lemma_same_ratio(s.Y, s.Z, o.Y, o.Z, g * h, f * g, 1, 1);
}

/// The first coordinate of a sum, over the integers.
pub open spec fn add_x(
    x1: int,
    y1: int,
    t1: int,
    z1: int,
    x2: int,
    y2: int,
    t2: int,
    z2: int,
    dv: int,
) -> int {
    sum_e(x1, y1, x2, y2) * sum_f(t1, t2, dv + dv, (z1 + z1) * z2)
}

/// The second coordinate of a sum, over the integers.
pub open spec fn add_y(
    x1: int,
    y1: int,
    t1: int,
    z1: int,
    x2: int,
    y2: int,
    t2: int,
    z2: int,
    dv: int,
) -> int {
    sum_g(t1, t2, dv + dv, (z1 + z1) * z2) * sum_h(x1, y1, x2, y2)
}

/// The third coordinate of a sum, over the integers.
pub open spec fn add_t(
    x1: int,
    y1: int,
    t1: int,
    z1: int,
    x2: int,
    y2: int,
    t2: int,
    z2: int,
    dv: int,
) -> int {
    sum_e(x1, y1, x2, y2) * sum_h(x1, y1, x2, y2)
}

/// The fourth coordinate of a sum, over the integers.
pub open spec fn add_z(
    x1: int,
    y1: int,
    t1: int,
    z1: int,
    x2: int,
    y2: int,
    t2: int,
    z2: int,
    dv: int,
) -> int {
    sum_f(t1, t2, dv + dv, (z1 + z1) * z2) * sum_g(t1, t2, dv + dv, (z1 + z1) * z2)
}

/// The coordinates of a sum of two points, modulo the order of the field,
/// as polynomials in any integers that the coordinates of the points are
/// congruent to.
pub proof fn lemma_add_values<P: TwistedEdwardsAM1>(
    pa: ExtendedPoint<P::Field>,
    pb: ExtendedPoint<P::Field>,
    x1: int,
    y1: int,
    t1: int,
    z1: int,
    x2: int,
    y2: int,
    t2: int,
    z2: int,
)
    requires
        P::Field::valid(),
        point_is(pa, x1, y1, t1, z1),
        point_is(pb, x2, y2, t2, z2),
    ensures
        point_is(
            EdwardsAM1UnifiedOperations::<P>::add_spec(pa, pb),
            add_x(x1, y1, t1, z1, x2, y2, t2, z2, val(P::d_spec())),
            add_y(x1, y1, t1, z1, x2, y2, t2, z2, val(P::d_spec())),
            add_t(x1, y1, t1, z1, x2, y2, t2, z2, val(P::d_spec())),
            add_z(x1, y1, t1, z1, x2, y2, t2, z2, val(P::d_spec())),
        ),
{
    let m = order::<P::Field>();
    let dv = val(P::d_spec());
    let DD = f_add(P::d_spec(), P::d_spec());
    let D = f_mul(f_add(pa.Z, pa.Z), pb.Z);
    P::Field::lemma_field();
    lemma_congruent_mod(dv, m);
    lemma_add_value(P::d_spec(), P::d_spec());
    lemma_congruent_add(val(P::d_spec()), dv, val(P::d_spec()), dv, m);
    lemma_add_value(pa.Z, pa.Z);
    lemma_congruent_add(val(pa.Z), z1, val(pa.Z), z1, m);
    lemma_mul_value(f_add(pa.Z, pa.Z), pb.Z);
    lemma_congruent_mul(val(f_add(pa.Z, pa.Z)), z1 + z1, val(pb.Z), z2, m);
    lemma_unified_sum(
        pa.X,
        pa.Y,
        pa.T,
        pb.X,
        pb.Y,
        pb.T,
        DD,
        D,
        x1,
        y1,
        t1,
        x2,
        y2,
        t2,
        dv + dv,
        (z1 + z1) * z2,
    );
}

/// The coordinates of a point are congruent to their values.
pub proof fn lemma_point_values<F: Field>(point: ExtendedPoint<F>)
    requires
        F::valid(),
    ensures
        point_is(point, val(point.X), val(point.Y), val(point.T), val(point.Z)),
{
    F::lemma_field();
}

/// Scaling the two summands by `n1` and `n2` scales every coordinate of
/// the sum by `(n1 * n2)^2`.
proof fn lemma_scaling(
    n1: int,
    n2: int,
    x1: int,
    y1: int,
    t1: int,
    z1: int,
    x2: int,
    y2: int,
    t2: int,
    z2: int,
    dv: int,
)
    ensures
        add_x(n1 * x1, n1 * y1, n1 * t1, n1 * z1, n2 * x2, n2 * y2, n2 * t2, n2 * z2, dv) == ((n1
            * n2) * (n1 * n2)) * add_x(x1, y1, t1, z1, x2, y2, t2, z2, dv),
        add_y(n1 * x1, n1 * y1, n1 * t1, n1 * z1, n2 * x2, n2 * y2, n2 * t2, n2 * z2, dv) == ((n1
            * n2) * (n1 * n2)) * add_y(x1, y1, t1, z1, x2, y2, t2, z2, dv),
        add_t(n1 * x1, n1 * y1, n1 * t1, n1 * z1, n2 * x2, n2 * y2, n2 * t2, n2 * z2, dv) == ((n1
            * n2) * (n1 * n2)) * add_t(x1, y1, t1, z1, x2, y2, t2, z2, dv),
        add_z(n1 * x1, n1 * y1, n1 * t1, n1 * z1, n2 * x2, n2 * y2, n2 * t2, n2 * z2, dv) == ((n1
            * n2) * (n1 * n2)) * add_z(x1, y1, t1, z1, x2, y2, t2, z2, dv),
{
    let k = n1 * n2;
    let dd = dv + dv;
    let e = sum_e(x1, y1, x2, y2);
    let h = sum_h(x1, y1, x2, y2);
    let f = sum_f(t1, t2, dd, (z1 + z1) * z2);
    let g = sum_g(t1, t2, dd, (z1 + z1) * z2);
    let e2 = sum_e(n1 * x1, n1 * y1, n2 * x2, n2 * y2);
    let h2 = sum_h(n1 * x1, n1 * y1, n2 * x2, n2 * y2);
    let f2 = sum_f(n1 * t1, n2 * t2, dd, (n1 * z1 + n1 * z1) * (n2 * z2));
    let g2 = sum_g(n1 * t1, n2 * t2, dd, (n1 * z1 + n1 * z1) * (n2 * z2));
    let bp = (y1 + x1) * (y2 + x2);
    let bm = (y1 - x1) * (y2 - x2);
    assert((n1 * y1 + n1 * x1) * (n2 * y2 + n2 * x2) == k * bp) by (nonlinear_arith)
        requires
            k == n1 * n2,
            bp == (y1 + x1) * (y2 + x2),
    ;
    assert((n1 * y1 - n1 * x1) * (n2 * y2 - n2 * x2) == k * bm) by (nonlinear_arith)
        requires
            k == n1 * n2,
            bm == (y1 - x1) * (y2 - x2),
    ;
    assert(k * bp - k * bm == k * (bp - bm)) by (nonlinear_arith);
    assert(k * bp + k * bm == k * (bp + bm)) by (nonlinear_arith);
    assert(e2 == k * e);
    assert(h2 == k * h);
    let c = (dd * t1) * t2;
    let d = (z1 + z1) * z2;
    assert((dd * (n1 * t1)) * (n2 * t2) == k * c) by (nonlinear_arith)
        requires
            k == n1 * n2,
            c == (dd * t1) * t2,
    ;
    assert((n1 * z1 + n1 * z1) * (n2 * z2) == k * d) by (nonlinear_arith)
        requires
            k == n1 * n2,
            d == (z1 + z1) * z2,
    ;
    assert(k * d - k * c == k * (d - c)) by (nonlinear_arith);
    assert(k * d + k * c == k * (d + c)) by (nonlinear_arith);
    assert(f2 == k * f);
    assert(g2 == k * g);
    assert((k * e) * (k * f) == (k * k) * (e * f)) by (nonlinear_arith);
    assert((k * g) * (k * h) == (k * k) * (g * h)) by (nonlinear_arith);
    assert((k * e) * (k * h) == (k * k) * (e * h)) by (nonlinear_arith);
    assert((k * f) * (k * g) == (k * k) * (f * g)) by (nonlinear_arith);
}

/// A point whose coordinates are a common multiple of those of another
/// is the same point.
pub proof fn lemma_same_point_scaled<F: Field>(
    scaled: ExtendedPoint<F>,
    point: ExtendedPoint<F>,
    k: int,
    x: int,
    y: int,
    t: int,
    z: int,
)
    requires
        F::valid(),
        point_is(scaled, k * x, k * y, k * t, k * z),
        point_is(point, x, y, t, z),
    ensures
        scaled.same_point(&point),
{
    let m = order::<F>();
    F::lemma_field();
    assert((k * x) * z == x * (k * z)) by (nonlinear_arith);
    assert((k * y) * z == y * (k * z)) by (nonlinear_arith);
    lemma_congruent_mod((k * x) * z, m);
    lemma_congruent_mod((k * y) * z, m);
    lemma_same_ratio(scaled.X, scaled.Z, point.X, point.Z, k * x, k * z, x, z);
    lemma_same_ratio(scaled.Y, scaled.Z, point.Y, point.Z, k * y, k * z, y, z);
}

/// Whether the third coordinate fits the others: `T Z = X Y`.
pub open spec fn consistent<F: Field>(point: ExtendedPoint<F>) -> bool {
    congruent(val(point.T) * val(point.Z), val(point.X) * val(point.Y), order::<F>())
}

/// Every sum is consistent.
pub proof fn lemma_add_consistent<P: TwistedEdwardsAM1>(
    pa: ExtendedPoint<P::Field>,
    pb: ExtendedPoint<P::Field>,
)
    requires
        P::Field::valid(),
    ensures
        consistent(EdwardsAM1UnifiedOperations::<P>::add_spec(pa, pb)),
{
    let m = order::<P::Field>();
    let s = EdwardsAM1UnifiedOperations::<P>::add_spec(pa, pb);
    let dv = val(P::d_spec());
    let dd = dv + dv;
    lemma_point_values(pa);
    lemma_point_values(pb);
    let (x1, y1, t1, z1) = (val(pa.X), val(pa.Y), val(pa.T), val(pa.Z));
    let (x2, y2, t2, z2) = (val(pb.X), val(pb.Y), val(pb.T), val(pb.Z));
    lemma_add_values::<P>(pa, pb, x1, y1, t1, z1, x2, y2, t2, z2);
    let e = sum_e(x1, y1, x2, y2);
    let h = sum_h(x1, y1, x2, y2);
    let f = sum_f(t1, t2, dd, (z1 + z1) * z2);
    let g = sum_g(t1, t2, dd, (z1 + z1) * z2);
    P::Field::lemma_field();
    lemma_congruent_mul(val(s.T), e * h, val(s.Z), f * g, m);
    lemma_congruent_mul(val(s.X), e * f, val(s.Y), g * h, m);
    assert((e * h) * (f * g) == (e * f) * (g * h)) by (nonlinear_arith);
}

/// The identity is consistent.
pub proof fn lemma_identity_consistent<P: TwistedEdwardsAM1>()
    requires
        P::Field::valid(),
    ensures
        consistent(EdwardsAM1UnifiedOperations::<P>::identity_spec()),
{
    lemma_zero_one_value::<P::Field>();
}

/// What the ladder returns is consistent.
pub proof fn lemma_ladder_consistent<P: TwistedEdwardsAM1>(
    base: ExtendedPoint<P::Field>,
    bits: Seq<bool>,
)
    requires
        P::Field::valid(),
    ensures
        consistent(ladder::<EdwardsAM1UnifiedOperations<P>>(base, bits)),
{
    if bits.len() == 0 {
        lemma_identity_consistent::<P>();
    } else {
        let (low, high) = ladder_state::<EdwardsAM1UnifiedOperations<P>>(base, bits.drop_last());
        lemma_add_consistent::<P>(low, high);
        lemma_add_consistent::<P>(low, low);
    }
}

/// `0 + P` has the coordinates of `P` times `4 Z`, for a consistent `P`.
proof fn lemma_identity_plus<P: TwistedEdwardsAM1>(p: ExtendedPoint<P::Field>)
    requires
        P::Field::valid(),
        consistent(p),
    ensures
        point_is(
            EdwardsAM1UnifiedOperations::<P>::add_spec(
                EdwardsAM1UnifiedOperations::<P>::identity_spec(),
                p,
            ),
            (4 * val(p.Z)) * val(p.X),
            (4 * val(p.Z)) * val(p.Y),
            (4 * val(p.Z)) * val(p.T),
            (4 * val(p.Z)) * val(p.Z),
        ),
{
    let m = order::<P::Field>();
    let o = EdwardsAM1UnifiedOperations::<P>::identity_spec();
    let s = EdwardsAM1UnifiedOperations::<P>::add_spec(o, p);
    let dv = val(P::d_spec());
    let dd = dv + dv;
    let (x, y, t, z) = (val(p.X), val(p.Y), val(p.T), val(p.Z));
    P::Field::lemma_field();
    lemma_zero_one_value::<P::Field>();
    lemma_point_values(p);
    lemma_point_values(o);
    lemma_add_values::<P>(o, p, 0, 1, 0, 1, x, y, t, z);
    let e = sum_e(0, 1, x, y);
    let h = sum_h(0, 1, x, y);
    let f = sum_f(0, t, dd, (1 + 1) * z);
    let g = sum_g(0, t, dd, (1 + 1) * z);
    assert(e == 2 * x) by (nonlinear_arith)
        requires
            e == (1 + 0) * (y + x) - (1 - 0) * (y - x),
    ;
    assert(h == 2 * y) by (nonlinear_arith)
        requires
            h == (1 + 0) * (y + x) + (1 - 0) * (y - x),
    ;
    assert(f == 2 * z && g == 2 * z) by (nonlinear_arith)
        requires
            f == (1 + 1) * z - (dd * 0) * t,
            g == (1 + 1) * z + (dd * 0) * t,
    ;
    assert(e * f == (4 * z) * x) by (nonlinear_arith)
        requires
            e == 2 * x,
            f == 2 * z,
    ;
    assert(g * h == (4 * z) * y) by (nonlinear_arith)
        requires
            g == 2 * z,
            h == 2 * y,
    ;
    assert(f * g == (4 * z) * z) by (nonlinear_arith)
        requires
            g == 2 * z,
            f == 2 * z,
    ;
    assert(e * h == 4 * (x * y)) by (nonlinear_arith)
        requires
            e == 2 * x,
            h == 2 * y,
    ;
    assert((4 * z) * t == 4 * (t * z)) by (nonlinear_arith);
    lemma_congruent_mod(4, m);
    lemma_congruent_mul(4, 4, x * y, t * z, m);
}

/// The sum over one base is the same point as the multiple of the base:
/// `msm([P], [s]) = s * P`.
pub proof fn lemma_msm_one<P: TwistedEdwardsAM1, N: PrimeField>(
    base: ExtendedPoint<P::Field>,
    scalar: N,
)
    requires
        P::Field::valid(),
    ensures
        msm_sum::<EdwardsAM1UnifiedOperations<P>, N>(seq![base], seq![scalar], 1).same_point(
            &ladder::<EdwardsAM1UnifiedOperations<P>>(base, field_bits(scalar)),
        ),
{
    let multiple = ladder::<EdwardsAM1UnifiedOperations<P>>(base, field_bits(scalar));
    let o = EdwardsAM1UnifiedOperations::<P>::identity_spec();
    assert(msm_sum::<EdwardsAM1UnifiedOperations<P>, N>(seq![base], seq![scalar], 0) == o);
    assert(seq![base][0] == base);
    assert(seq![scalar][0] == scalar);
    assert(msm_sum::<EdwardsAM1UnifiedOperations<P>, N>(seq![base], seq![scalar], 1)
        == EdwardsAM1UnifiedOperations::<P>::add_spec(o, multiple));
    lemma_add_commutative::<P>(o, multiple);
    lemma_add_identity::<P>(multiple);
}

/// The sum over two bases is the same point as the sum of the two
/// multiples: `msm([P, Q], [s, t]) = s * P + t * Q`.
pub proof fn lemma_msm_two<P: TwistedEdwardsAM1, N: PrimeField>(
    base1: ExtendedPoint<P::Field>,
    base2: ExtendedPoint<P::Field>,
    scalar1: N,
    scalar2: N,
)
    requires
        P::Field::valid(),
    ensures
        msm_sum::<EdwardsAM1UnifiedOperations<P>, N>(
            seq![base1, base2],
            seq![scalar1, scalar2],
            2,
        ).same_point(
            &EdwardsAM1UnifiedOperations::<P>::add_spec(
                ladder::<EdwardsAM1UnifiedOperations<P>>(base1, field_bits(scalar1)),
                ladder::<EdwardsAM1UnifiedOperations<P>>(base2, field_bits(scalar2)),
            ),
        ),
{
    let bases = seq![base1, base2];
    let scalars = seq![scalar1, scalar2];
    let l1 = ladder::<EdwardsAM1UnifiedOperations<P>>(base1, field_bits(scalar1));
    let l2 = ladder::<EdwardsAM1UnifiedOperations<P>>(base2, field_bits(scalar2));
    let o = EdwardsAM1UnifiedOperations::<P>::identity_spec();
    let first = EdwardsAM1UnifiedOperations::<P>::add_spec(o, l1);
    assert(msm_sum::<EdwardsAM1UnifiedOperations<P>, N>(bases, scalars, 0) == o);
    assert(bases[0] == base1 && bases[1] == base2);
    assert(scalars[0] == scalar1 && scalars[1] == scalar2);
    assert(msm_sum::<EdwardsAM1UnifiedOperations<P>, N>(bases, scalars, 1) == first);
    assert(msm_sum::<EdwardsAM1UnifiedOperations<P>, N>(bases, scalars, 2)
        == EdwardsAM1UnifiedOperations::<P>::add_spec(first, l2));
    let dv = val(P::d_spec());
    let (x1, y1, t1, z1) = (val(l1.X), val(l1.Y), val(l1.T), val(l1.Z));
    let (x2, y2, t2, z2) = (val(l2.X), val(l2.Y), val(l2.T), val(l2.Z));
    let n = 4 * z1;
    lemma_ladder_consistent::<P>(base1, field_bits(scalar1));
    lemma_identity_plus::<P>(l1);
    lemma_point_values(l1);
    lemma_point_values(l2);
    P::Field::lemma_field();
    assert(1 * x2 == x2 && 1 * y2 == y2 && 1 * t2 == t2 && 1 * z2 == z2);
    lemma_add_values::<P>(first, l2, n * x1, n * y1, n * t1, n * z1, x2, y2, t2, z2);
    lemma_add_values::<P>(l1, l2, x1, y1, t1, z1, x2, y2, t2, z2);
    lemma_scaling(n, 1, x1, y1, t1, z1, x2, y2, t2, z2, dv);
    lemma_same_point_scaled(
        EdwardsAM1UnifiedOperations::<P>::add_spec(first, l2),
        EdwardsAM1UnifiedOperations::<P>::add_spec(l1, l2),
        (n * 1) * (n * 1),
        add_x(x1, y1, t1, z1, x2, y2, t2, z2, dv),
        add_y(x1, y1, t1, z1, x2, y2, t2, z2, dv),
        add_t(x1, y1, t1, z1, x2, y2, t2, z2, dv),
        add_z(x1, y1, t1, z1, x2, y2, t2, z2, dv),
    );
}

/// After any number of zero bits the ladder holds a representative of the
/// identity, `(0, c, 0, c)`, and a point whose first, second and fourth
/// coordinate are those of the base times a common factor `m`. Returns
/// `c`, `m` and the third coordinate.
proof fn lemma_ladder_zeros<P: TwistedEdwardsAM1>(p: ExtendedPoint<P::Field>, k: nat) -> (w: (
    int,
    int,
    int,
))
    requires
        P::Field::valid(),
    ensures
        point_is(
            ladder_state::<EdwardsAM1UnifiedOperations<P>>(p, bits_be(0, k)).0,
            0,
            w.0,
            0,
            w.0,
        ),
        point_is(
            ladder_state::<EdwardsAM1UnifiedOperations<P>>(p, bits_be(0, k)).1,
            w.1 * val(p.X),
            w.1 * val(p.Y),
            w.2,
            w.1 * val(p.Z),
        ),
    decreases k,
{
    let dv = val(P::d_spec());
    let dd = dv + dv;
    let (x, y, t, z) = (val(p.X), val(p.Y), val(p.T), val(p.Z));
    P::Field::lemma_field();
    if k == 0 {
        lemma_zero_one_value::<P::Field>();
        lemma_point_values(p);
        assert(1 * x == x && 1 * y == y && 1 * z == z);
        (1, 1, t)
    } else {
        let k1 = (k - 1) as nat;
        let (c, m, tau) = lemma_ladder_zeros::<P>(p, k1);
        let bits = bits_be(0, k);
        assert(0nat / 2 == 0 && 0nat % 2 == 0);
        assert(bits == bits_be(0, k1).push(false));
        assert(bits.drop_last() =~= bits_be(0, k1));
        assert(!bits.last());
        let (low, high) = ladder_state::<EdwardsAM1UnifiedOperations<P>>(p, bits_be(0, k1));
        lemma_add_values::<P>(low, low, 0, c, 0, c, 0, c, 0, c);
        lemma_add_values::<P>(high, low, m * x, m * y, tau, m * z, 0, c, 0, c);
        // the doubled identity
        let e1 = sum_e(0, c, 0, c);
        let h1 = sum_h(0, c, 0, c);
        let f1 = sum_f(0, 0, dd, (c + c) * c);
        let g1 = sum_g(0, 0, dd, (c + c) * c);
        assert(e1 == 0) by (nonlinear_arith)
            requires
                e1 == (c + 0) * (c + 0) - (c - 0) * (c - 0),
        ;
        assert(f1 == g1) by (nonlinear_arith)
            requires
                f1 == (c + c) * c - (dd * 0) * 0,
                g1 == (c + c) * c + (dd * 0) * 0,
        ;
        assert(h1 == f1) by (nonlinear_arith)
            requires
                h1 == (c + 0) * (c + 0) + (c - 0) * (c - 0),
                f1 == (c + c) * c - (dd * 0) * 0,
        ;
        assert(e1 * f1 == 0 && e1 * h1 == 0) by (nonlinear_arith)
            requires
                e1 == 0,
        ;
        assert(g1 * h1 == f1 * g1) by (nonlinear_arith)
            requires
                h1 == f1,
        ;
        // the base plus the identity
        let e2 = sum_e(m * x, m * y, 0, c);
        let h2 = sum_h(m * x, m * y, 0, c);
        let f2 = sum_f(tau, 0, dd, (m * z + m * z) * c);
        let g2 = sum_g(tau, 0, dd, (m * z + m * z) * c);
        let q = 2 * (c * m);
        assert(e2 == q * x) by (nonlinear_arith)
            requires
                e2 == (m * y + m * x) * (c + 0) - (m * y - m * x) * (c - 0),
                q == 2 * (c * m),
        ;
        assert(h2 == q * y) by (nonlinear_arith)
            requires
                h2 == (m * y + m * x) * (c + 0) + (m * y - m * x) * (c - 0),
                q == 2 * (c * m),
        ;
        assert(f2 == q * z && g2 == q * z) by (nonlinear_arith)
            requires
                f2 == (m * z + m * z) * c - (dd * tau) * 0,
                g2 == (m * z + m * z) * c + (dd * tau) * 0,
                q == 2 * (c * m),
        ;
        let m2 = q * (q * z);
        assert(e2 * f2 == m2 * x) by (nonlinear_arith)
            requires
                e2 == q * x,
                f2 == q * z,
                m2 == q * (q * z),
        ;
        assert(g2 * h2 == m2 * y) by (nonlinear_arith)
            requires
                h2 == q * y,
                g2 == q * z,
                m2 == q * (q * z),
        ;
        assert(f2 * g2 == m2 * z) by (nonlinear_arith)
            requires
                f2 == q * z,
                g2 == q * z,
                m2 == q * (q * z),
        ;
        (g1 * h1, m2, e2 * h2)
    }
}

/// The multiple by 2 is the double: for a consistent point `P` and a
/// scalar of at least two bits that stands for 2, the ladder returns the
/// same point as doubling.
pub proof fn lemma_ladder_two<P: TwistedEdwardsAM1>(p: ExtendedPoint<P::Field>, len: nat)
    requires
        P::Field::valid(),
        consistent(p),
        len >= 2,
    ensures
        ladder::<EdwardsAM1UnifiedOperations<P>>(p, bits_be(2, len)).same_point(
            &EdwardsAM1UnifiedOperations::<P>::double_spec(p),
        ),
{
    let m0 = order::<P::Field>();
    let dv = val(P::d_spec());
    let dd = dv + dv;
    let (x, y, t, z) = (val(p.X), val(p.Y), val(p.T), val(p.Z));
    P::Field::lemma_field();
    let k = (len - 2) as nat;
    let (c, m, tau) = lemma_ladder_zeros::<P>(p, k);
    let bits0 = bits_be(0, k);
    let bits1 = bits_be(1, (len - 1) as nat);
    let bits2 = bits_be(2, len);
    assert(1nat / 2 == 0 && 1nat % 2 == 1);
    assert(2nat / 2 == 1 && 2nat % 2 == 0);
    assert(bits1 == bits0.push(true));
    assert(bits2 == bits1.push(false));
    assert(bits1.drop_last() =~= bits0);
    assert(bits2.drop_last() =~= bits1);
    assert(bits1.last());
    assert(!bits2.last());
    let (low0, high0) = ladder_state::<EdwardsAM1UnifiedOperations<P>>(p, bits0);
    let low1 = EdwardsAM1UnifiedOperations::<P>::add_spec(low0, high0);
    assert(ladder_state::<EdwardsAM1UnifiedOperations<P>>(p, bits1).0 == low1);
    let res = EdwardsAM1UnifiedOperations::<P>::add_spec(low1, low1);
    assert(ladder::<EdwardsAM1UnifiedOperations<P>>(p, bits2) == res);
    // low1 = n * P
    lemma_add_values::<P>(low0, high0, 0, c, 0, c, m * x, m * y, tau, m * z);
    let e = sum_e(0, c, m * x, m * y);
    let h = sum_h(0, c, m * x, m * y);
    let f = sum_f(0, tau, dd, (c + c) * (m * z));
    let g = sum_g(0, tau, dd, (c + c) * (m * z));
    let q = 2 * (c * m);
    assert(e == q * x) by (nonlinear_arith)
        requires
            e == (c + 0) * (m * y + m * x) - (c - 0) * (m * y - m * x),
            q == 2 * (c * m),
    ;
    assert(h == q * y) by (nonlinear_arith)
        requires
            h == (c + 0) * (m * y + m * x) + (c - 0) * (m * y - m * x),
            q == 2 * (c * m),
    ;
    assert(f == q * z && g == q * z) by (nonlinear_arith)
        requires
            f == (c + c) * (m * z) - (dd * 0) * tau,
            g == (c + c) * (m * z) + (dd * 0) * tau,
            q == 2 * (c * m),
    ;
    let n = q * (q * z);
    assert(e * f == n * x) by (nonlinear_arith)
        requires
            e == q * x,
            f == q * z,
            n == q * (q * z),
    ;
    assert(g * h == n * y) by (nonlinear_arith)
        requires
            h == q * y,
            g == q * z,
            n == q * (q * z),
    ;
    assert(f * g == n * z) by (nonlinear_arith)
        requires
            f == q * z,
            g == q * z,
            n == q * (q * z),
    ;
    assert(e * h == (q * q) * (x * y)) by (nonlinear_arith)
        requires
            e == q * x,
            h == q * y,
    ;
    assert(n * t == (q * q) * (t * z)) by (nonlinear_arith)
        requires
            n == q * (q * z),
    ;
    lemma_congruent_mod(q * q, m0);
    lemma_congruent_mul(q * q, q * q, x * y, t * z, m0);
    assert(point_is(low1, n * x, n * y, n * t, n * z));
    // the double of n * P
    lemma_add_values::<P>(low1, low1, n * x, n * y, n * t, n * z, n * x, n * y, n * t, n * z);
    lemma_scaling(n, n, x, y, t, z, x, y, t, z, dv);
    lemma_point_values(p);
    lemma_add_values::<P>(p, p, x, y, t, z, x, y, t, z);
    lemma_same_point_scaled(
        res,
        EdwardsAM1UnifiedOperations::<P>::add_spec(p, p),
        (n * n) * (n * n),
        add_x(x, y, t, z, x, y, t, z, dv),
        add_y(x, y, t, z, x, y, t, z, dv),
        add_t(x, y, t, z, x, y, t, z, dv),
        add_z(x, y, t, z, x, y, t, z, dv),
    );
}

/// In a group on a twisted Edwards curve, addition is commutative:
/// `a + b = b + a`.
pub proof fn lemma_group_add_commutative<T: TwistedEdwardsAM1>(
    a: GroupEC<EdwardsAM1UnifiedOperations<T>>,
    b: GroupEC<EdwardsAM1UnifiedOperations<T>>,
) where
    EdwardsAM1UnifiedOperations<T>: PrimeSubGroupConfig + CurveOperations<
        Field = T::Field,
        Point = ExtendedPoint<T::Field>,
        Affine = Affine<T::Field>,
    >,

    requires
        T::Field::valid(),
    ensures
        a.plus_spec(b) == b.plus_spec(a),
{
    a.lemma_operations(b);
    b.lemma_operations(a);
    lemma_add_commutative::<T>(a.point(), b.point());
    a.plus_spec(b).lemma_operations(b.plus_spec(a));
}

/// In a group on a twisted Edwards curve, doubling is adding an element
/// to itself: `a + a = a.double()`.
pub proof fn lemma_group_double<T: TwistedEdwardsAM1>(a: GroupEC<EdwardsAM1UnifiedOperations<T>>)
    where
    EdwardsAM1UnifiedOperations<T>: PrimeSubGroupConfig + CurveOperations<
        Field = T::Field,
        Point = ExtendedPoint<T::Field>,
        Affine = Affine<T::Field>,
    >,

    ensures
        a.plus_spec(a) == a.double_spec(),
{
    a.lemma_operations(a);
    a.plus_spec(a).lemma_operations(a.double_spec());
}

/// In a group on a twisted Edwards curve, the identity is neutral:
/// `a + 0` is the same element as `a`.
pub proof fn lemma_group_identity<T: TwistedEdwardsAM1>(
    a: GroupEC<EdwardsAM1UnifiedOperations<T>>,
) where
    EdwardsAM1UnifiedOperations<T>: PrimeSubGroupConfig + CurveOperations<
        Field = T::Field,
        Point = ExtendedPoint<T::Field>,
        Affine = Affine<T::Field>,
    >,

    requires
        T::Field::valid(),
    ensures
        a.plus_spec(GroupEC::identity_spec()).same(a),
{
    let o = GroupEC::<EdwardsAM1UnifiedOperations<T>>::identity_spec();
    a.lemma_operations(o);
    a.plus_spec(o).lemma_operations(a);
    lemma_add_identity::<T>(a.point());
}

/// In a group on a twisted Edwards curve, the negative is the inverse: for
/// a point of the curve, `a + (-a)` is the same element as the identity.
pub proof fn lemma_group_negative<T: TwistedEdwardsAM1>(
    a: GroupEC<EdwardsAM1UnifiedOperations<T>>,
) where
    EdwardsAM1UnifiedOperations<T>: PrimeSubGroupConfig + CurveOperations<
        Field = T::Field,
        Point = ExtendedPoint<T::Field>,
        Affine = Affine<T::Field>,
    >,

    requires
        T::Field::valid(),
        on_curve::<T>(a.point()),
    ensures
        a.plus_spec(a.negative_spec()).same(GroupEC::identity_spec()),
{
    let o = GroupEC::<EdwardsAM1UnifiedOperations<T>>::identity_spec();
    let n = a.negative_spec();
    a.lemma_operations(n);
    a.plus_spec(n).lemma_operations(o);
    lemma_add_negative::<T>(a.point());
}

/// In a group on a twisted Edwards curve, the multiple by 2 is the double:
/// for a consistent point and bits that stand for 2, `a.mul_int` returns
/// the same element as `a.double()`.
pub proof fn lemma_group_mul_two<T: TwistedEdwardsAM1>(
    a: GroupEC<EdwardsAM1UnifiedOperations<T>>,
    len: nat,
) where
    EdwardsAM1UnifiedOperations<T>: PrimeSubGroupConfig + CurveOperations<
        Field = T::Field,
        Point = ExtendedPoint<T::Field>,
        Affine = Affine<T::Field>,
    >,

    requires
        T::Field::valid(),
        consistent(a.point()),
        len >= 2,
    ensures
        a.mul_bits_spec(bits_be(2, len)).same(a.double_spec()),
{
    a.lemma_operations(a);
    a.lemma_multiples(bits_be(2, len), arbitrary());
    a.mul_bits_spec(bits_be(2, len)).lemma_operations(a.double_spec());
    lemma_ladder_two::<T>(a.point(), len);
}

/// In a group on a twisted Edwards curve, the sum over one base is the
/// multiple of the base: `msm([P], [s])` is the same element as `P * s`.
pub proof fn lemma_group_msm_one<T: TwistedEdwardsAM1>(
    base: PublicEC<EdwardsAM1UnifiedOperations<T>>,
    scalar: <EdwardsAM1UnifiedOperations<T> as PrimeSubGroupConfig>::ScalarField,
) where
    EdwardsAM1UnifiedOperations<T>: PrimeSubGroupConfig + CurveOperations<
        Field = T::Field,
        Point = ExtendedPoint<T::Field>,
        Affine = Affine<T::Field>,
    >,

    requires
        T::Field::valid(),
    ensures
        GroupEC::<EdwardsAM1UnifiedOperations<T>>::msm_spec(seq![base], seq![scalar]).same(
            GroupEC::<EdwardsAM1UnifiedOperations<T>>::lift_spec(base).scalar_mul_spec(scalar),
        ),
{
    let lifted = GroupEC::<EdwardsAM1UnifiedOperations<T>>::lift_spec(base);
    let sum = GroupEC::<EdwardsAM1UnifiedOperations<T>>::msm_spec(seq![base], seq![scalar]);
    let point = <EdwardsAM1UnifiedOperations<T> as PrimeGroupConfig>::lift_spec(base.public());
    lifted.lemma_multiples(Seq::empty(), scalar);
    lifted.lemma_public_operations(base, seq![base], seq![scalar]);
    sum.lemma_operations(lifted.scalar_mul_spec(scalar));
    assert(Seq::new(
        1,
        |i: int| <EdwardsAM1UnifiedOperations<T> as PrimeGroupConfig>::lift_spec(
            seq![base][i].public(),
        ),
    ) =~= seq![point]);
    lemma_msm_one::<T, <EdwardsAM1UnifiedOperations<T> as PrimeSubGroupConfig>::ScalarField>(
        point,
        scalar,
    );
}

/// In a group on a twisted Edwards curve, the sum over two bases is the
/// sum of the two multiples: `msm([P, Q], [s, t])` is the same element as
/// `P * s + Q * t`.
pub proof fn lemma_group_msm_two<T: TwistedEdwardsAM1>(
    base1: PublicEC<EdwardsAM1UnifiedOperations<T>>,
    base2: PublicEC<EdwardsAM1UnifiedOperations<T>>,
    scalar1: <EdwardsAM1UnifiedOperations<T> as PrimeSubGroupConfig>::ScalarField,
    scalar2: <EdwardsAM1UnifiedOperations<T> as PrimeSubGroupConfig>::ScalarField,
) where
    EdwardsAM1UnifiedOperations<T>: PrimeSubGroupConfig + CurveOperations<
        Field = T::Field,
        Point = ExtendedPoint<T::Field>,
        Affine = Affine<T::Field>,
    >,

    requires
        T::Field::valid(),
    ensures
        GroupEC::<EdwardsAM1UnifiedOperations<T>>::msm_spec(
            seq![base1, base2],
            seq![scalar1, scalar2],
        ).same(
            GroupEC::<EdwardsAM1UnifiedOperations<T>>::lift_spec(base1).scalar_mul_spec(
                scalar1,
            ).plus_spec(
                GroupEC::<EdwardsAM1UnifiedOperations<T>>::lift_spec(base2).scalar_mul_spec(
                    scalar2,
                ),
            ),
        ),
{
    let lifted1 = GroupEC::<EdwardsAM1UnifiedOperations<T>>::lift_spec(base1);
    let lifted2 = GroupEC::<EdwardsAM1UnifiedOperations<T>>::lift_spec(base2);
    let m1 = lifted1.scalar_mul_spec(scalar1);
    let m2 = lifted2.scalar_mul_spec(scalar2);
    let bases = seq![base1, base2];
    let scalars = seq![scalar1, scalar2];
    let sum = GroupEC::<EdwardsAM1UnifiedOperations<T>>::msm_spec(bases, scalars);
    let point1 = <EdwardsAM1UnifiedOperations<T> as PrimeGroupConfig>::lift_spec(base1.public());
    let point2 = <EdwardsAM1UnifiedOperations<T> as PrimeGroupConfig>::lift_spec(base2.public());
    lifted1.lemma_multiples(Seq::empty(), scalar1);
    lifted2.lemma_multiples(Seq::empty(), scalar2);
    lifted1.lemma_public_operations(base1, bases, scalars);
    lifted2.lemma_public_operations(base2, bases, scalars);
    m1.lemma_operations(m2);
    sum.lemma_operations(m1.plus_spec(m2));
    assert(Seq::new(
        2,
        |i: int| <EdwardsAM1UnifiedOperations<T> as PrimeGroupConfig>::lift_spec(
            bases[i].public(),
        ),
    ) =~= seq![point1, point2]);
    lemma_msm_two::<T, <EdwardsAM1UnifiedOperations<T> as PrimeSubGroupConfig>::ScalarField>(
        point1,
        point2,
        scalar1,
        scalar2,
    );
}

} // verus!
