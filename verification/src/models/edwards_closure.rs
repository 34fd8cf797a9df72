//! The points of a twisted Edwards curve with `a = -1` are closed under
//! the unified addition: the sum of two points of the curve is a point of
//! the curve.
//!
//! In extended coordinates a point of the curve satisfies
//! `Y^2 - X^2 = Z^2 + D T^2` and `T Z = X Y`. That the sum satisfies the
//! first equation is an identity between polynomials modulo the equations
//! of the summands, which is proved here in small steps.

use vstd::prelude::*;
use crate::fields::Field;
use crate::fields::Zero;
use crate::fields::One;
use crate::fields::f_neg;
use crate::fields::algebra::val;
use crate::fields::algebra::order;
use crate::fields::algebra::lemma_neg_value;
use crate::fields::algebra::lemma_zero_one_value;
use crate::fields::modular::congruent;
use crate::fields::modular::lemma_congruent_mod;
use crate::fields::modular::lemma_congruent_add;
use crate::fields::modular::lemma_congruent_sub;
use crate::fields::modular::lemma_congruent_mul;
use crate::models::CurveOperations;
use crate::models::coordinates::ExtendedPoint;
use crate::models::scalar_mul::ladder;
use crate::models::scalar_mul::ladder_state;
use crate::models::twisted_edwards::EdwardsAM1UnifiedOperations;
use crate::models::twisted_edwards::TwistedEdwardsAM1;
use super::edwards_group_law::on_curve;
use super::edwards_group_law::consistent;
use super::edwards_group_law::point_is;
use super::edwards_group_law::sum_e;
use super::edwards_group_law::sum_f;
use super::edwards_group_law::sum_g;
use super::edwards_group_law::sum_h;
use super::edwards_group_law::add_x;
use super::edwards_group_law::add_y;
use super::edwards_group_law::add_t;
use super::edwards_group_law::add_z;
use super::edwards_group_law::lemma_add_values;
use super::edwards_group_law::lemma_add_consistent;
use super::edwards_group_law::lemma_identity_consistent;
use super::edwards_group_law::lemma_point_values;

verus! {

/// By how much `(E F, G H, E H, F G)` misses the curve equation, up to the
/// factor 16 that the halves `e`, `f`, `g`, `h` of `E`, `F`, `G`, `H` leave
/// out.
pub open spec fn defect(e: int, h: int, f: int, g: int, d: int) -> int {
    (g * g) * (h * h) - (e * e) * (f * f) - (f * f) * (g * g) - d * ((e * e) * (h * h))
}

/// The defect as a polynomial in `k_i = y_i^2 - x_i^2`, `m_i = x_i y_i`,
/// `z = z_1 z_2`, `t = t_1 t_2` and `s = (y_1^2 + x_1^2)(y_2^2 + x_2^2)`.
pub open spec fn reduced_defect(
    k1: int,
    k2: int,
    m1: int,
    m2: int,
    z: int,
    t: int,
    d: int,
    s: int,
) -> int {
    (z * z + (d * d) * (t * t)) * (k1 * k2) + (8 * d) * ((z * t) * (m1 * m2)) - d * ((m1 * m1) * (k2
        * k2 + 4 * (m2 * m2)) + (m2 * m2) * (k1 * k1 + 4 * (m1 * m1))) - (z * z - (d * d) * (t
        * t)) * (z * z - (d * d) * (t * t)) + (2 * d) * (s * (z * t - m1 * m2))
}

/// The defect of a sum, written in the quantities of `reduced_defect`.
proof fn lemma_defect_reduced(
    x1: int,
    y1: int,
    x2: int,
    y2: int,
    z: int,
    t: int,
    d: int,
)
    ensures
        defect(x1 * y2 + y1 * x2, y1 * y2 + x1 * x2, z - d * t, z + d * t, d) == reduced_defect(
            y1 * y1 - x1 * x1,
            y2 * y2 - x2 * x2,
            x1 * y1,
            x2 * y2,
            z,
            t,
            d,
            (y1 * y1 + x1 * x1) * (y2 * y2 + x2 * x2),
        ),
{
    // the products of two coordinates
    let u = y1 * y2;
    let v = x1 * x2;
    let pp = x1 * y2;
    let qq = y1 * x2;
    let yy1 = y1 * y1;
    let xx1 = x1 * x1;
    let yy2 = y2 * y2;
    let xx2 = x2 * x2;
    let m1 = x1 * y1;
    let m2 = x2 * y2;
    let e = pp + qq;
    let h = u + v;
    let a = h * h;
    let b = e * e;
    let k1 = yy1 - xx1;
    let k2 = yy2 - xx2;
    let s1 = yy1 + xx1;
    let s2 = yy2 + xx2;
    let s = s1 * s2;
    let r = m1 * m2;
    // h^2 and e^2
    assert(a == u * u + 2 * (u * v) + v * v) by (nonlinear_arith)
        requires
            a == (u + v) * (u + v),
    ;
    assert(b == pp * pp + 2 * (pp * qq) + qq * qq) by (nonlinear_arith)
        requires
            b == (pp + qq) * (pp + qq),
    ;
    assert(u * v == r && pp * qq == r) by (nonlinear_arith)
        requires
            u == y1 * y2,
            v == x1 * x2,
            pp == x1 * y2,
            qq == y1 * x2,
            r == (x1 * y1) * (x2 * y2),
    ;
    assert(u * u == yy1 * yy2) by (nonlinear_arith)
        requires
            u == y1 * y2,
            yy1 == y1 * y1,
            yy2 == y2 * y2,
    ;
    assert(v * v == xx1 * xx2) by (nonlinear_arith)
        requires
            v == x1 * x2,
            xx1 == x1 * x1,
            xx2 == x2 * x2,
    ;
    assert(pp * pp == xx1 * yy2) by (nonlinear_arith)
        requires
            pp == x1 * y2,
            xx1 == x1 * x1,
            yy2 == y2 * y2,
    ;
    assert(qq * qq == yy1 * xx2) by (nonlinear_arith)
        requires
            qq == y1 * x2,
            yy1 == y1 * y1,
            xx2 == x2 * x2,
    ;
    assert(k1 * k2 == yy1 * yy2 - yy1 * xx2 - xx1 * yy2 + xx1 * xx2) by (nonlinear_arith)
        requires
            k1 == yy1 - xx1,
            k2 == yy2 - xx2,
    ;
    assert(s == yy1 * yy2 + yy1 * xx2 + xx1 * yy2 + xx1 * xx2) by (nonlinear_arith)
        requires
            s == (yy1 + xx1) * (yy2 + xx2),
    ;
    assert(a - b == k1 * k2);
    assert(a + b == s + 4 * r);
    // e h
    let eh = e * h;
    assert(eh == pp * u + pp * v + qq * u + qq * v) by (nonlinear_arith)
        requires
            eh == (pp + qq) * (u + v),
    ;
    assert(pp * u == m1 * yy2) by (nonlinear_arith)
        requires
            pp == x1 * y2,
            u == y1 * y2,
            m1 == x1 * y1,
            yy2 == y2 * y2,
    ;
    assert(pp * v == xx1 * m2) by (nonlinear_arith)
        requires
            pp == x1 * y2,
            v == x1 * x2,
            m2 == x2 * y2,
            xx1 == x1 * x1,
    ;
    assert(qq * u == yy1 * m2) by (nonlinear_arith)
        requires
            qq == y1 * x2,
            u == y1 * y2,
            m2 == x2 * y2,
            yy1 == y1 * y1,
    ;
    assert(qq * v == m1 * xx2) by (nonlinear_arith)
        requires
            qq == y1 * x2,
            v == x1 * x2,
            m1 == x1 * y1,
            xx2 == x2 * x2,
    ;
    let g1 = m1 * s2;
    let g2 = m2 * s1;
    assert(g1 == m1 * yy2 + m1 * xx2) by (nonlinear_arith)
        requires
            g1 == m1 * (yy2 + xx2),
    ;
    assert(g2 == yy1 * m2 + xx1 * m2) by (nonlinear_arith)
        requires
            g2 == m2 * (yy1 + xx1),
    ;
    assert(eh == g1 + g2);
    // (e h)^2
    let ab = a * b;
    assert(ab == eh * eh) by (nonlinear_arith)
        requires
            ab == (h * h) * (e * e),
            eh == e * h,
    ;
    let ehs = eh * eh;
    assert(ehs == g1 * g1 + 2 * (g1 * g2) + g2 * g2) by (nonlinear_arith)
        requires
            ehs == (g1 + g2) * (g1 + g2),
    ;
    let mm1 = m1 * m1;
    let mm2 = m2 * m2;
    let ss1 = s1 * s1;
    let ss2 = s2 * s2;
    assert(g1 * g1 == mm1 * ss2) by (nonlinear_arith)
        requires
            g1 == m1 * s2,
            mm1 == m1 * m1,
            ss2 == s2 * s2,
    ;
    assert(g2 * g2 == mm2 * ss1) by (nonlinear_arith)
        requires
            g2 == m2 * s1,
            mm2 == m2 * m2,
            ss1 == s1 * s1,
    ;
    assert(g1 * g2 == r * s) by (nonlinear_arith)
        requires
            g1 == m1 * s2,
            g2 == m2 * s1,
            r == m1 * m2,
            s == s1 * s2,
    ;
    // s_i^2 = k_i^2 + 4 m_i^2
    let kk1 = k1 * k1;
    let kk2 = k2 * k2;
    assert(ss1 == yy1 * yy1 + 2 * (yy1 * xx1) + xx1 * xx1) by (nonlinear_arith)
        requires
            ss1 == (yy1 + xx1) * (yy1 + xx1),
    ;
    assert(kk1 == yy1 * yy1 - 2 * (yy1 * xx1) + xx1 * xx1) by (nonlinear_arith)
        requires
            kk1 == (yy1 - xx1) * (yy1 - xx1),
    ;
    assert(yy1 * xx1 == mm1) by (nonlinear_arith)
        requires
            yy1 == y1 * y1,
            xx1 == x1 * x1,
            mm1 == (x1 * y1) * (x1 * y1),
    ;
    assert(ss2 == yy2 * yy2 + 2 * (yy2 * xx2) + xx2 * xx2) by (nonlinear_arith)
        requires
            ss2 == (yy2 + xx2) * (yy2 + xx2),
    ;
    assert(kk2 == yy2 * yy2 - 2 * (yy2 * xx2) + xx2 * xx2) by (nonlinear_arith)
        requires
            kk2 == (yy2 - xx2) * (yy2 - xx2),
    ;
    assert(yy2 * xx2 == mm2) by (nonlinear_arith)
        requires
            yy2 == y2 * y2,
            xx2 == x2 * x2,
            mm2 == (x2 * y2) * (x2 * y2),
    ;
    assert(ss1 == kk1 + 4 * mm1);
    assert(ss2 == kk2 + 4 * mm2);
    let w1 = mm1 * (kk2 + 4 * mm2);
    let w2 = mm2 * (kk1 + 4 * mm1);
    assert(mm1 * ss2 == w1);
    assert(mm2 * ss1 == w2);
    assert(ab == w1 + w2 + 2 * (r * s));
    // the powers of z + d t and z - d t
    let f = z - d * t;
    let g = z + d * t;
    let zz = z * z;
    let tt = t * t;
    let dd = d * d;
    let zt = z * t;
    let dt = d * t;
    let q = d * zt;
    let c0 = zz + dd * tt;
    let c1 = zz - dd * tt;
    let ff = f * f;
    let gg = g * g;
    assert(gg == zz + 2 * (z * dt) + dt * dt) by (nonlinear_arith)
        requires
            gg == (z + dt) * (z + dt),
            zz == z * z,
    ;
    assert(ff == zz - 2 * (z * dt) + dt * dt) by (nonlinear_arith)
        requires
            ff == (z - dt) * (z - dt),
            zz == z * z,
    ;
    assert(z * dt == q) by (nonlinear_arith)
        requires
            dt == d * t,
            q == d * (z * t),
    ;
    assert(dt * dt == dd * tt) by (nonlinear_arith)
        requires
            dt == d * t,
            dd == d * d,
            tt == t * t,
    ;
    assert(gg == c0 + 2 * q);
    assert(ff == c0 - 2 * q);
    let fg = ff * gg;
    assert(fg == c0 * c0 - 4 * (q * q)) by (nonlinear_arith)
        requires
            fg == (c0 - 2 * q) * (c0 + 2 * q),
    ;
    let n = dd * tt;
    assert(c0 * c0 == zz * zz + 2 * (zz * n) + n * n) by (nonlinear_arith)
        requires
            c0 == zz + n,
    ;
    assert(c1 * c1 == zz * zz - 2 * (zz * n) + n * n) by (nonlinear_arith)
        requires
            c1 == zz - n,
    ;
    assert(q * q == zz * n) by (nonlinear_arith)
        requires
            q == d * (z * t),
            zz == z * z,
            n == (d * d) * (t * t),
    ;
    assert(fg == c1 * c1);
    // the defect
    let lhs = gg * a - b * ff - fg - d * (b * a);
    assert(gg * a - b * ff == c0 * (a - b) + (2 * q) * (a + b)) by (nonlinear_arith)
        requires
            gg == c0 + 2 * q,
            ff == c0 - 2 * q,
    ;
    assert(b * a == ab) by (nonlinear_arith)
        requires
            ab == a * b,
    ;
    let kk = k1 * k2;
    assert(c0 * (a - b) == c0 * kk);
    assert((2 * q) * (a + b) == (2 * q) * (s + 4 * r));
    let zs = zt * s;
    let zr = zt * r;
    let rs = r * s;
    assert((2 * q) * (s + 4 * r) == 2 * (q * s) + 8 * (q * r)) by (nonlinear_arith);
    assert(q * s == d * zs) by (nonlinear_arith)
        requires
            q == d * zt,
            zs == zt * s,
    ;
    assert(q * r == d * zr) by (nonlinear_arith)
        requires
            q == d * zt,
            zr == zt * r,
    ;
    assert((8 * d) * zr == 8 * (d * zr)) by (nonlinear_arith);
    assert(s * (zt - r) == zs - rs) by (nonlinear_arith)
        requires
            zs == zt * s,
            rs == r * s,
    ;
    assert((2 * d) * (zs - rs) == 2 * (d * zs) - 2 * (d * rs)) by (nonlinear_arith);
    assert(d * (2 * rs) == 2 * (d * rs)) by (nonlinear_arith);
    assert((2 * q) * (s + 4 * r) - d * (2 * (r * s)) == (8 * d) * (zt * r) + (2 * d) * (s * (zt
        - r)));
    assert(d * (w1 + w2 + 2 * (r * s)) == d * (w1 + w2) + d * (2 * (r * s))) by (nonlinear_arith);
    assert(lhs == c0 * kk + (8 * d) * (zt * r) - d * (w1 + w2) - c1 * c1 + (2 * d) * (s * (zt
        - r)));
    assert(defect(e, h, f, g, d) == lhs);
}

/// With the curve equations of the summands put in, the defect vanishes.
proof fn lemma_reduced_defect_zero(z1: int, t1: int, z2: int, t2: int, d: int, s: int)
    ensures
        reduced_defect(
            z1 * z1 + d * (t1 * t1),
            z2 * z2 + d * (t2 * t2),
            t1 * z1,
            t2 * z2,
            z1 * z2,
            t1 * t2,
            d,
            s,
        ) == 0,
{
    let a1 = z1 * z1;
    let b1 = t1 * t1;
    let a2 = z2 * z2;
    let b2 = t2 * t2;
    let k1 = a1 + d * b1;
    let k2 = a2 + d * b2;
    let m1 = t1 * z1;
    let m2 = t2 * z2;
    let z = z1 * z2;
    let t = t1 * t2;
    let zz = z * z;
    let tt = t * t;
    let zt = z * t;
    let dd = d * d;
    let r = m1 * m2;
    assert(r == zt) by (nonlinear_arith)
        requires
            r == (t1 * z1) * (t2 * z2),
            zt == (z1 * z2) * (t1 * t2),
    ;
    assert(zz == a1 * a2) by (nonlinear_arith)
        requires
            zz == (z1 * z2) * (z1 * z2),
            a1 == z1 * z1,
            a2 == z2 * z2,
    ;
    assert(tt == b1 * b2) by (nonlinear_arith)
        requires
            tt == (t1 * t2) * (t1 * t2),
            b1 == t1 * t1,
            b2 == t2 * t2,
    ;
    // k1 k2
    let kk = k1 * k2;
    let db1 = d * b1;
    let db2 = d * b2;
    assert(kk == a1 * a2 + a1 * db2 + db1 * a2 + db1 * db2) by (nonlinear_arith)
        requires
            kk == (a1 + db1) * (a2 + db2),
    ;
    let o1 = a1 * b2;
    let o2 = b1 * a2;
    let w = o1 + o2;
    assert(a1 * db2 == d * o1) by (nonlinear_arith)
        requires
            db2 == d * b2,
            o1 == a1 * b2,
    ;
    assert(db1 * a2 == d * o2) by (nonlinear_arith)
        requires
            db1 == d * b1,
            o2 == b1 * a2,
    ;
    assert(db1 * db2 == dd * tt) by (nonlinear_arith)
        requires
            db1 == d * b1,
            db2 == d * b2,
            dd == d * d,
            tt == b1 * b2,
    ;
    assert(d * w == d * o1 + d * o2) by (nonlinear_arith)
        requires
            w == o1 + o2,
    ;
    let n = dd * tt;
    let c0 = zz + n;
    let c1 = zz - n;
    assert(kk == c0 + d * w);
    // m_i^2 and k_i^2
    let mm1 = m1 * m1;
    let mm2 = m2 * m2;
    assert(mm1 == b1 * a1) by (nonlinear_arith)
        requires
            mm1 == (t1 * z1) * (t1 * z1),
            a1 == z1 * z1,
            b1 == t1 * t1,
    ;
    assert(mm2 == b2 * a2) by (nonlinear_arith)
        requires
            mm2 == (t2 * z2) * (t2 * z2),
            a2 == z2 * z2,
            b2 == t2 * t2,
    ;
    let zt2 = zz * tt;
    assert(mm1 * mm2 == zt2) by (nonlinear_arith)
        requires
            mm1 == b1 * a1,
            mm2 == b2 * a2,
            zt2 == (a1 * a2) * (b1 * b2),
    ;
    assert(zt * zt == zt2) by (nonlinear_arith)
        requires
            zt == z * t,
            zt2 == (z * z) * (t * t),
    ;
    let kk1 = k1 * k1;
    let kk2 = k2 * k2;
    assert(kk1 == a1 * a1 + 2 * (a1 * db1) + db1 * db1) by (nonlinear_arith)
        requires
            kk1 == (a1 + db1) * (a1 + db1),
    ;
    assert(kk2 == a2 * a2 + 2 * (a2 * db2) + db2 * db2) by (nonlinear_arith)
        requires
            kk2 == (a2 + db2) * (a2 + db2),
    ;
    // m1^2 k2^2 and m2^2 k1^2, term by term
    let e1 = mm1 * (a2 * a2);
    let e2 = mm1 * (a2 * db2);
    let e3 = mm1 * (db2 * db2);
    assert(mm1 * kk2 == e1 + 2 * e2 + e3) by (nonlinear_arith)
        requires
            kk2 == a2 * a2 + 2 * (a2 * db2) + db2 * db2,
            e1 == mm1 * (a2 * a2),
            e2 == mm1 * (a2 * db2),
            e3 == mm1 * (db2 * db2),
    ;
    let h1 = mm2 * (a1 * a1);
    let h2 = mm2 * (a1 * db1);
    let h3 = mm2 * (db1 * db1);
    assert(mm2 * kk1 == h1 + 2 * h2 + h3) by (nonlinear_arith)
        requires
            kk1 == a1 * a1 + 2 * (a1 * db1) + db1 * db1,
            h1 == mm2 * (a1 * a1),
            h2 == mm2 * (a1 * db1),
            h3 == mm2 * (db1 * db1),
    ;
    assert(e2 == d * zt2) by (nonlinear_arith)
        requires
            e2 == (b1 * a1) * (a2 * (d * b2)),
            zt2 == (a1 * a2) * (b1 * b2),
    ;
    assert(h2 == d * zt2) by (nonlinear_arith)
        requires
            h2 == (b2 * a2) * (a1 * (d * b1)),
            zt2 == (a1 * a2) * (b1 * b2),
    ;
    // w z^2 and w t^2
    assert(o2 * zz == e1) by (nonlinear_arith)
        requires
            o2 == b1 * a2,
            zz == a1 * a2,
            e1 == (b1 * a1) * (a2 * a2),
    ;
    assert(o1 * zz == h1) by (nonlinear_arith)
        requires
            o1 == a1 * b2,
            zz == a1 * a2,
            h1 == (b2 * a2) * (a1 * a1),
    ;
    let wz = w * zz;
    assert(wz == o1 * zz + o2 * zz) by (nonlinear_arith)
        requires
            wz == (o1 + o2) * zz,
    ;
    let o1t = o1 * tt;
    let o2t = o2 * tt;
    assert(e3 == dd * o1t) by (nonlinear_arith)
        requires
            e3 == (b1 * a1) * ((d * b2) * (d * b2)),
            dd == d * d,
            o1t == (a1 * b2) * (b1 * b2),
    ;
    assert(h3 == dd * o2t) by (nonlinear_arith)
        requires
            h3 == (b2 * a2) * ((d * b1) * (d * b1)),
            dd == d * d,
            o2t == (b1 * a2) * (b1 * b2),
    ;
    let wt = w * tt;
    assert(wt == o1t + o2t) by (nonlinear_arith)
        requires
            wt == (o1 + o2) * tt,
            o1t == o1 * tt,
            o2t == o2 * tt,
    ;
    assert(dd * wt == dd * o1t + dd * o2t) by (nonlinear_arith)
        requires
            wt == o1t + o2t,
    ;
    let u = mm1 * (kk2 + 4 * mm2) + mm2 * (kk1 + 4 * mm1);
    assert(mm1 * (kk2 + 4 * mm2) == mm1 * kk2 + 4 * (mm1 * mm2)) by (nonlinear_arith);
    assert(mm2 * (kk1 + 4 * mm1) == mm2 * kk1 + 4 * (mm1 * mm2)) by (nonlinear_arith);
    assert(u == wz + dd * wt + 4 * (d * zt2) + 8 * zt2);
    // the defect
    assert(c0 * kk == c0 * c0 + c0 * (d * w)) by (nonlinear_arith)
        requires
            kk == c0 + d * w,
    ;
    assert(c0 * (d * w) == d * wz + (d * dd) * wt) by (nonlinear_arith)
        requires
            c0 == zz + dd * tt,
            wz == w * zz,
            wt == w * tt,
    ;
    assert(c0 * c0 == zz * zz + 2 * (zz * n) + n * n) by (nonlinear_arith)
        requires
            c0 == zz + n,
    ;
    assert(c1 * c1 == zz * zz - 2 * (zz * n) + n * n) by (nonlinear_arith)
        requires
            c1 == zz - n,
    ;
    assert(zz * n == dd * zt2) by (nonlinear_arith)
        requires
            n == dd * tt,
            zt2 == zz * tt,
    ;
    assert(d * u == d * wz + (d * dd) * wt + 4 * (dd * zt2) + 8 * (d * zt2)) by (nonlinear_arith)
        requires
            u == wz + dd * wt + 4 * (d * zt2) + 8 * zt2,
            dd == d * d,
    ;
    assert((8 * d) * (zt * r) == 8 * (d * zt2)) by (nonlinear_arith)
        requires
            r == zt,
            zt * zt == zt2,
    ;
    assert((2 * d) * (s * (zt - r)) == 0) by (nonlinear_arith)
        requires
            r == zt,
    ;
    assert(reduced_defect(k1, k2, m1, m2, z, t, d, s) == c0 * kk + (8 * d) * (zt * r) - d * u - c1
        * c1 + (2 * d) * (s * (zt - r)));
}

/// The reduced defect respects congruence in `k_1`, `k_2`, `m_1`, `m_2`.
proof fn lemma_reduced_defect_congruent(
    k1: int,
    k2: int,
    m1: int,
    m2: int,
    j1: int,
    j2: int,
    n1: int,
    n2: int,
    z: int,
    t: int,
    d: int,
    s: int,
    p: int,
)
    requires
        p > 0,
        congruent(k1, j1, p),
        congruent(k2, j2, p),
        congruent(m1, n1, p),
        congruent(m2, n2, p),
    ensures
        congruent(
            reduced_defect(k1, k2, m1, m2, z, t, d, s),
            reduced_defect(j1, j2, n1, n2, z, t, d, s),
            p,
        ),
{
    let c0 = z * z + (d * d) * (t * t);
    let c1 = z * z - (d * d) * (t * t);
    let zt = z * t;
    lemma_congruent_mod(c0, p);
    lemma_congruent_mod(c1 * c1, p);
    lemma_congruent_mod(zt, p);
    lemma_congruent_mod(8 * d, p);
    lemma_congruent_mod(2 * d, p);
    lemma_congruent_mod(d, p);
    lemma_congruent_mod(s, p);
    lemma_congruent_mod(4, p);
    // the products of the k and m
    lemma_congruent_mul(k1, j1, k2, j2, p);
    lemma_congruent_mul(m1, n1, m2, n2, p);
    lemma_congruent_mul(m1, n1, m1, n1, p);
    lemma_congruent_mul(m2, n2, m2, n2, p);
    lemma_congruent_mul(k1, j1, k1, j1, p);
    lemma_congruent_mul(k2, j2, k2, j2, p);
    // first term
    lemma_congruent_mul(c0, c0, k1 * k2, j1 * j2, p);
    // second term
    lemma_congruent_mul(zt, zt, m1 * m2, n1 * n2, p);
    lemma_congruent_mul(8 * d, 8 * d, zt * (m1 * m2), zt * (n1 * n2), p);
    // third term
    lemma_congruent_mul(4, 4, m2 * m2, n2 * n2, p);
    lemma_congruent_mul(4, 4, m1 * m1, n1 * n1, p);
    lemma_congruent_add(k2 * k2, j2 * j2, 4 * (m2 * m2), 4 * (n2 * n2), p);
    lemma_congruent_add(k1 * k1, j1 * j1, 4 * (m1 * m1), 4 * (n1 * n1), p);
    lemma_congruent_mul(
        m1 * m1,
        n1 * n1,
        k2 * k2 + 4 * (m2 * m2),
        j2 * j2 + 4 * (n2 * n2),
        p,
    );
    lemma_congruent_mul(
        m2 * m2,
        n2 * n2,
        k1 * k1 + 4 * (m1 * m1),
        j1 * j1 + 4 * (n1 * n1),
        p,
    );
    let u = (m1 * m1) * (k2 * k2 + 4 * (m2 * m2)) + (m2 * m2) * (k1 * k1 + 4 * (m1 * m1));
    let v = (n1 * n1) * (j2 * j2 + 4 * (n2 * n2)) + (n2 * n2) * (j1 * j1 + 4 * (n1 * n1));
    lemma_congruent_add(
        (m1 * m1) * (k2 * k2 + 4 * (m2 * m2)),
        (n1 * n1) * (j2 * j2 + 4 * (n2 * n2)),
        (m2 * m2) * (k1 * k1 + 4 * (m1 * m1)),
        (n2 * n2) * (j1 * j1 + 4 * (n1 * n1)),
        p,
    );
    lemma_congruent_mul(d, d, u, v, p);
    // last term
    lemma_congruent_sub(zt, zt, m1 * m2, n1 * n2, p);
    lemma_congruent_mul(s, s, zt - m1 * m2, zt - n1 * n2, p);
    lemma_congruent_mul(2 * d, 2 * d, s * (zt - m1 * m2), s * (zt - n1 * n2), p);
    // the sum
    let a1 = c0 * (k1 * k2);
    let b1 = c0 * (j1 * j2);
    let a2 = (8 * d) * (zt * (m1 * m2));
    let b2 = (8 * d) * (zt * (n1 * n2));
    let a3 = d * u;
    let b3 = d * v;
    let a4 = (2 * d) * (s * (zt - m1 * m2));
    let b4 = (2 * d) * (s * (zt - n1 * n2));
    lemma_congruent_add(a1, b1, a2, b2, p);
    lemma_congruent_sub(a1 + a2, b1 + b2, a3, b3, p);
    lemma_congruent_sub(a1 + a2 - a3, b1 + b2 - b3, c1 * c1, c1 * c1, p);
    lemma_congruent_add(a1 + a2 - a3 - c1 * c1, b1 + b2 - b3 - c1 * c1, a4, b4, p);
}

/// The sum of two points of the curve, over the integers: its coordinates
/// satisfy the curve equation modulo `p`.
proof fn lemma_sum_on_curve(
    x1: int,
    y1: int,
    t1: int,
    z1: int,
    x2: int,
    y2: int,
    t2: int,
    z2: int,
    d: int,
    p: int,
)
    requires
        p > 0,
        congruent(y1 * y1 - x1 * x1, z1 * z1 + d * (t1 * t1), p),
        congruent(y2 * y2 - x2 * x2, z2 * z2 + d * (t2 * t2), p),
        congruent(t1 * z1, x1 * y1, p),
        congruent(t2 * z2, x2 * y2, p),
    ensures
        congruent(
            add_y(x1, y1, t1, z1, x2, y2, t2, z2, d) * add_y(x1, y1, t1, z1, x2, y2, t2, z2, d)
                - add_x(x1, y1, t1, z1, x2, y2, t2, z2, d) * add_x(
                x1,
                y1,
                t1,
                z1,
                x2,
                y2,
                t2,
                z2,
                d,
            ),
            add_z(x1, y1, t1, z1, x2, y2, t2, z2, d) * add_z(x1, y1, t1, z1, x2, y2, t2, z2, d) + d
                * (add_t(x1, y1, t1, z1, x2, y2, t2, z2, d) * add_t(
                x1,
                y1,
                t1,
                z1,
                x2,
                y2,
                t2,
                z2,
                d,
            )),
            p,
        ),
{
    let e = x1 * y2 + y1 * x2;
    let h = y1 * y2 + x1 * x2;
    let z = z1 * z2;
    let t = t1 * t2;
    let f = z - d * t;
    let g = z + d * t;
    let big_e = sum_e(x1, y1, x2, y2);
    let big_h = sum_h(x1, y1, x2, y2);
    let big_f = sum_f(t1, t2, d + d, (z1 + z1) * z2);
    let big_g = sum_g(t1, t2, d + d, (z1 + z1) * z2);
    assert(big_e == 2 * e) by (nonlinear_arith)
        requires
            big_e == (y1 + x1) * (y2 + x2) - (y1 - x1) * (y2 - x2),
            e == x1 * y2 + y1 * x2,
    ;
    assert(big_h == 2 * h) by (nonlinear_arith)
        requires
            big_h == (y1 + x1) * (y2 + x2) + (y1 - x1) * (y2 - x2),
            h == y1 * y2 + x1 * x2,
    ;
    assert(big_f == 2 * f) by (nonlinear_arith)
        requires
            big_f == (z1 + z1) * z2 - ((d + d) * t1) * t2,
            f == z1 * z2 - d * (t1 * t2),
    ;
    assert(big_g == 2 * g) by (nonlinear_arith)
        requires
            big_g == (z1 + z1) * z2 + ((d + d) * t1) * t2,
            g == z1 * z2 + d * (t1 * t2),
    ;
    let x3 = big_e * big_f;
    let y3 = big_g * big_h;
    let t3 = big_e * big_h;
    let z3 = big_f * big_g;
    let ee = e * e;
    let hh = h * h;
    let ff = f * f;
    let gg = g * g;
    assert(x3 * x3 == 16 * (ee * ff)) by (nonlinear_arith)
        requires
            x3 == (2 * e) * (2 * f),
            ee == e * e,
            ff == f * f,
    ;
    assert(y3 * y3 == 16 * (gg * hh)) by (nonlinear_arith)
        requires
            y3 == (2 * g) * (2 * h),
            gg == g * g,
            hh == h * h,
    ;
    assert(t3 * t3 == 16 * (ee * hh)) by (nonlinear_arith)
        requires
            t3 == (2 * e) * (2 * h),
            ee == e * e,
            hh == h * h,
    ;
    assert(z3 * z3 == 16 * (ff * gg)) by (nonlinear_arith)
        requires
            z3 == (2 * f) * (2 * g),
            ff == f * f,
            gg == g * g,
    ;
    let q = defect(e, h, f, g, d);
    assert(d * (16 * (ee * hh)) == 16 * (d * (ee * hh))) by (nonlinear_arith);
    assert(y3 * y3 - x3 * x3 == (z3 * z3 + d * (t3 * t3)) + 16 * q);
    // the defect is congruent to 0
    let k1 = y1 * y1 - x1 * x1;
    let k2 = y2 * y2 - x2 * x2;
    let m1 = x1 * y1;
    let m2 = x2 * y2;
    let s = (y1 * y1 + x1 * x1) * (y2 * y2 + x2 * x2);
    lemma_defect_reduced(x1, y1, x2, y2, z, t, d);
    lemma_reduced_defect_congruent(
        k1,
        k2,
        m1,
        m2,
        z1 * z1 + d * (t1 * t1),
        z2 * z2 + d * (t2 * t2),
        t1 * z1,
        t2 * z2,
        z,
        t,
        d,
        s,
        p,
    );
    lemma_reduced_defect_zero(z1, t1, z2, t2, d, s);
    assert(congruent(q, 0, p));
    lemma_congruent_mod(16, p);
    lemma_congruent_mul(16, 16, q, 0, p);
    lemma_congruent_mod(z3 * z3 + d * (t3 * t3), p);
    lemma_congruent_add(z3 * z3 + d * (t3 * t3), z3 * z3 + d * (t3 * t3), 16 * q, 16 * 0int, p);
}

/// Whether a point satisfies both equations of a point of the curve in
/// extended coordinates.
pub open spec fn curve_point<P: TwistedEdwardsAM1>(point: ExtendedPoint<P::Field>) -> bool {
    on_curve::<P>(point) && consistent(point)
}

/// The curve equation holds of a point as soon as it holds of integers
/// that the coordinates are congruent to.
proof fn lemma_on_curve_by_values<P: TwistedEdwardsAM1>(
    point: ExtendedPoint<P::Field>,
    x: int,
    y: int,
    t: int,
    z: int,
)
    requires
        P::Field::valid(),
        point_is(point, x, y, t, z),
        congruent(y * y - x * x, z * z + val(P::d_spec()) * (t * t), order::<P::Field>()),
    ensures
        on_curve::<P>(point),
{
    let p = order::<P::Field>();
    let d = val(P::d_spec());
    P::Field::lemma_field();
    lemma_congruent_mod(d, p);
    lemma_congruent_mul(val(point.X), x, val(point.X), x, p);
    lemma_congruent_mul(val(point.Y), y, val(point.Y), y, p);
    lemma_congruent_mul(val(point.T), t, val(point.T), t, p);
    lemma_congruent_mul(val(point.Z), z, val(point.Z), z, p);
    lemma_congruent_sub(
        val(point.Y) * val(point.Y),
        y * y,
        val(point.X) * val(point.X),
        x * x,
        p,
    );
    lemma_congruent_mul(d, d, val(point.T) * val(point.T), t * t, p);
    lemma_congruent_add(
        val(point.Z) * val(point.Z),
        z * z,
        d * (val(point.T) * val(point.T)),
        d * (t * t),
        p,
    );
}

/// The curve is closed under addition: the sum of two points of the curve
/// is a point of the curve.
pub proof fn lemma_add_closed<P: TwistedEdwardsAM1>(
    lhs: ExtendedPoint<P::Field>,
    rhs: ExtendedPoint<P::Field>,
)
    requires
        P::Field::valid(),
        curve_point::<P>(lhs),
        curve_point::<P>(rhs),
    ensures
        curve_point::<P>(EdwardsAM1UnifiedOperations::<P>::add_spec(lhs, rhs)),
{
    let p = order::<P::Field>();
    let d = val(P::d_spec());
    let (x1, y1, t1, z1) = (val(lhs.X), val(lhs.Y), val(lhs.T), val(lhs.Z));
    let (x2, y2, t2, z2) = (val(rhs.X), val(rhs.Y), val(rhs.T), val(rhs.Z));
    P::Field::lemma_field();
    lemma_point_values(lhs);
    lemma_point_values(rhs);
    lemma_add_values::<P>(lhs, rhs, x1, y1, t1, z1, x2, y2, t2, z2);
    lemma_sum_on_curve(x1, y1, t1, z1, x2, y2, t2, z2, d, p);
    lemma_on_curve_by_values::<P>(
        EdwardsAM1UnifiedOperations::<P>::add_spec(lhs, rhs),
        add_x(x1, y1, t1, z1, x2, y2, t2, z2, d),
        add_y(x1, y1, t1, z1, x2, y2, t2, z2, d),
        add_t(x1, y1, t1, z1, x2, y2, t2, z2, d),
        add_z(x1, y1, t1, z1, x2, y2, t2, z2, d),
    );
    lemma_add_consistent::<P>(lhs, rhs);
}

/// The identity is a point of the curve.
pub proof fn lemma_identity_closed<P: TwistedEdwardsAM1>()
    requires
        P::Field::valid(),
    ensures
        curve_point::<P>(EdwardsAM1UnifiedOperations::<P>::identity_spec()),
{
    let p = order::<P::Field>();
    let d = val(P::d_spec());
    P::Field::lemma_field();
    lemma_zero_one_value::<P::Field>();
    lemma_identity_consistent::<P>();
    assert(1 * 1 - 0 * 0 == 1 * 1 + d * (0 * 0)) by (nonlinear_arith);
}

/// The negative of a point of the curve is a point of the curve.
pub proof fn lemma_neg_closed<P: TwistedEdwardsAM1>(point: ExtendedPoint<P::Field>)
    requires
        P::Field::valid(),
        curve_point::<P>(point),
    ensures
        curve_point::<P>(EdwardsAM1UnifiedOperations::<P>::neg_spec(point)),
{
    let p = order::<P::Field>();
    let d = val(P::d_spec());
    let (x, y, t, z) = (val(point.X), val(point.Y), val(point.T), val(point.Z));
    let n = EdwardsAM1UnifiedOperations::<P>::neg_spec(point);
    P::Field::lemma_field();
    lemma_point_values(point);
    lemma_neg_value(point.X);
    lemma_neg_value(point.T);
    assert(point_is(n, -x, y, -t, z));
    assert(y * y - (-x) * (-x) == y * y - x * x) by (nonlinear_arith);
    assert(z * z + d * ((-t) * (-t)) == z * z + d * (t * t)) by (nonlinear_arith);
    lemma_on_curve_by_values::<P>(n, -x, y, -t, z);
    // T Z = X Y
    lemma_congruent_mod(z, p);
    lemma_congruent_mod(y, p);
    lemma_congruent_mul(val(n.T), -t, val(n.Z), z, p);
    lemma_congruent_mul(val(n.X), -x, val(n.Y), y, p);
    assert((-t) * z == -(t * z)) by (nonlinear_arith);
    assert((-x) * y == -(x * y)) by (nonlinear_arith);
    lemma_congruent_mod(0, p);
    lemma_congruent_sub(0, 0, t * z, x * y, p);
}

/// The two points that the ladder holds are points of the curve, for a
/// base that is one.
pub proof fn lemma_ladder_closed<P: TwistedEdwardsAM1>(
    base: ExtendedPoint<P::Field>,
    bits: Seq<bool>,
)
    requires
        P::Field::valid(),
        curve_point::<P>(base),
    ensures
        curve_point::<P>(ladder_state::<EdwardsAM1UnifiedOperations<P>>(base, bits).0),
        curve_point::<P>(ladder_state::<EdwardsAM1UnifiedOperations<P>>(base, bits).1),
        curve_point::<P>(ladder::<EdwardsAM1UnifiedOperations<P>>(base, bits)),
    decreases bits.len(),
{
    if bits.len() == 0 {
        lemma_identity_closed::<P>();
    } else {
        lemma_ladder_closed::<P>(base, bits.drop_last());
        let (low, high) = ladder_state::<EdwardsAM1UnifiedOperations<P>>(base, bits.drop_last());
        lemma_add_closed::<P>(low, high);
        lemma_add_closed::<P>(high, low);
        lemma_add_closed::<P>(low, low);
        lemma_add_closed::<P>(high, high);
    }
}

} // verus!
