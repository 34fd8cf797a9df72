use cryp::curves::ed25519::Ed25519Parameters;
use cryp::curves::ed25519::Fp25519;
use cryp::curves::ed25519::Fp25519Mont;
use cryp::curves::ed25519::Fp25519Params;
use cryp::Affine;
use cryp::ArithmeticOperations;
use cryp::AsRing;
use cryp::BasedVector;
use cryp::InnerProductVector;
use cryp::Inversion;
use cryp::GeneralReductionOperations;
use cryp::SolinasReduction;
use cryp::Vector;
use cryp::Bytes;
use cryp::Coordinates;
use cryp::CurveOperations;
use cryp::EdwardsAM1;
use cryp::EdwardsAM1UnifiedOperations;
use cryp::Exponentiation;
use cryp::ExtendedPoint;
use cryp::Field;
use cryp::JacobianPoint;
use cryp::LimbInt;
use cryp::MontgomeryOperations;
use cryp::One;
use cryp::PrimeField;
use cryp::Projective;
use cryp::Ring;
use cryp::ShortWeierstrass;
use cryp::ShortWeierstrassOperations;
use cryp::WrongByteLengthError;
use cryp::Zero;
use cryp::F;
use num_bigint::BigUint;

fn fp(n: u64) -> Fp25519 {
    Fp25519::from_int(&[n, 0, 0, 0].into())
}

fn big(x: &Fp25519) -> BigUint {
    BigUint::from_bytes_be(&Bytes::into_iter_be(&x.as_int()))
}

fn modulus() -> BigUint {
    BigUint::from(2u8).pow(255) - BigUint::from(19u8)
}

/// `a - b` modulo the prime.
fn sub(a: &BigUint, b: &BigUint) -> BigUint {
    ((a + modulus()) - (b % modulus())) % modulus()
}

struct TestCurve;

impl ShortWeierstrass for TestCurve {
    type Field = Fp25519;

    fn a_spec() -> Fp25519 {
        fp(3)
    }

    fn b_spec() -> Fp25519 {
        fp(7)
    }

    fn a() -> Fp25519 {
        fp(3)
    }

    fn b() -> Fp25519 {
        fp(7)
    }
}

type Weierstrass = ShortWeierstrassOperations<TestCurve>;

#[test]
fn test_weierstrass_identity_and_negation() {
    let identity = Weierstrass::identity();
    assert!(identity.X.is_zero());
    assert!(identity.Y == Fp25519::one());
    assert!(identity.Z.is_zero());
    assert!(identity.into_affine().is_none());
    assert!(!<Weierstrass as CurveOperations>::UNIFIED);

    let mut point = JacobianPoint { X: fp(5), Y: fp(11), Z: fp(2) };
    Weierstrass::neg_in_place(&mut point);
    assert!(point.X == fp(5));
    assert!(point.Y == -fp(11));
    assert!(point.Z == fp(2));
}

#[test]
fn test_weierstrass_double_formula() {
    let p = modulus();
    let (x, y, z) = (5u64, 11u64, 2u64);
    let mut point = JacobianPoint { X: fp(x), Y: fp(y), Z: fp(z) };
    Weierstrass::double_in_place(&mut point);

    let (x, y, z) = (BigUint::from(x), BigUint::from(y), BigUint::from(z));
    let xx = &x * &x;
    let yy = &y * &y;
    let yyyy = &yy * &yy;
    let zz = &z * &z;
    let s = sub(&sub(&(BigUint::from(2u8) * (&x + &yy) * (&x + &yy)), &xx), &yyyy);
    let m = (BigUint::from(3u8) * &xx + BigUint::from(3u8) * &zz * &zz) % &p;
    let t = sub(&(&m * &m), &(BigUint::from(2u8) * &s));
    let y3 = sub(&(&m * sub(&s, &t)), &(BigUint::from(8u8) * &yyyy));
    let z3 = sub(&sub(&((&y + &z) * (&y + &z)), &yy), &zz);
    assert_eq!(big(&point.X), t);
    assert_eq!(big(&point.Y), y3);
    assert_eq!(big(&point.Z), z3);
}

#[test]
fn test_weierstrass_add_formula() {
    let mut lhs = JacobianPoint { X: fp(5), Y: fp(11), Z: fp(2) };
    let rhs = JacobianPoint { X: fp(9), Y: fp(4), Z: fp(3) };
    Weierstrass::add_in_place(&mut lhs, &rhs);

    let n = |v: u64| BigUint::from(v);
    let (x1, y1, z1, x2, y2, z2) = (n(5), n(11), n(2), n(9), n(4), n(3));
    let z1z1 = &z1 * &z1;
    let z2z2 = &z2 * &z2;
    let u1 = &x1 * &z2z2;
    let u2 = &x2 * &z1z1;
    let s1 = &y1 * &z2 * &z2z2;
    let s2 = &y2 * &z1 * &z1z1;
    let h = sub(&u2, &u1);
    let i = (n(2) * &h) * (n(2) * &h);
    let j = &h * &i;
    let r = n(2) * sub(&s2, &s1);
    let v = &u1 * &i;
    let x3 = sub(&sub(&(&r * &r), &j), &(n(2) * &v));
    let y3 = sub(&(&r * sub(&v, &x3)), &(&s1 * n(2) * &j));
    let z3 = (sub(&sub(&((&z1 + &z2) * (&z1 + &z2)), &z1z1), &z2z2) * &h) % modulus();
    assert_eq!(big(&lhs.X), x3);
    assert_eq!(big(&lhs.Y), y3);
    assert_eq!(big(&lhs.Z), z3);
}

#[test]
fn test_weierstrass_mixed_add_formula() {
    let mut lhs = JacobianPoint { X: fp(5), Y: fp(11), Z: fp(2) };
    let rhs = Affine::new(fp(9), fp(4));
    Weierstrass::add_affine_in_place(&mut lhs, &rhs);

    let n = |v: u64| BigUint::from(v);
    let (x1, y1, z1, x2, y2) = (n(5), n(11), n(2), n(9), n(4));
    let z1z1 = &z1 * &z1;
    let u2 = &x2 * &z1z1;
    let s2 = &y2 * &z1 * &z1z1;
    let h = sub(&u2, &x1);
    let hh = &h * &h;
    let i = n(2) * &hh;
    let j = &h * &i;
    let r = n(2) * sub(&s2, &y1);
    let v = &x1 * &i;
    let x3 = sub(&sub(&(&r * &r), &j), &(n(2) * &v));
    let y3 = sub(&(&r * sub(&v, &x3)), &(&y1 * n(2) * &j));
    let z3 = sub(&sub(&((&z1 + &h) * (&z1 + &h)), &z1z1), &hh);
    assert_eq!(big(&lhs.X), x3);
    assert_eq!(big(&lhs.Y), y3);
    assert_eq!(big(&lhs.Z), z3);
}

#[test]
fn test_coordinates() {
    // (6 : 9 : 3) is the affine point (2, 3)
    let projective = Projective { X: fp(6), Y: fp(9), Z: fp(3) };
    let affine = projective.into_affine().unwrap();
    assert!(affine == Affine::new(fp(2), fp(3)));
    assert!(projective == Projective::from_affine(affine));
    assert!(projective != Projective { X: fp(6), Y: fp(9), Z: fp(4) });
    assert!(Projective { X: fp(6), Y: fp(9), Z: fp(0) }.into_affine().is_none());

    // extended coordinates carry T = X Y / Z
    let extended = ExtendedPoint::from_affine(affine);
    assert!(extended.T == fp(6));
    assert!(extended.Z == Fp25519::one());
    assert!(extended == ExtendedPoint { X: fp(4), Y: fp(6), T: fp(12), Z: fp(2) });
    assert!(extended.into_affine().unwrap() == affine);
    assert!(ExtendedPoint { X: fp(4), Y: fp(6), T: fp(12), Z: fp(0) }.into_affine().is_none());

    // (8 : 24 : 2) in Jacobian coordinates is (8 / 4, 24 / 8) = (2, 3)
    let jacobian = JacobianPoint { X: fp(8), Y: fp(24), Z: fp(2) };
    assert!(jacobian.into_affine().unwrap() == affine);
    assert!(jacobian == JacobianPoint::from_affine(affine));
    assert!(jacobian != JacobianPoint { X: fp(8), Y: fp(24), Z: fp(1) });
    assert!(JacobianPoint { X: fp(8), Y: fp(24), Z: fp(0) }.into_affine().is_none());
}

#[test]
fn test_edwards_with_given_double_d() {
    type Doubling = EdwardsAM1UnifiedOperations<Ed25519Parameters>;
    type Given = EdwardsAM1<Ed25519Parameters>;
    assert!(<Ed25519Parameters as cryp::TwistedEdwardsUnifiedAM1>::verify());
    assert!(<Given as CurveOperations>::UNIFIED);
    assert!(<Doubling as CurveOperations>::UNIFIED);

    let x = Fp25519::from_int(&Ed25519Parameters::X.into());
    let y = Fp25519::from_int(&Ed25519Parameters::Y.into());
    let base = ExtendedPoint::from_affine(Affine::new(x, y));
    let mut a = base;
    let mut b = base;
    Doubling::double_in_place(&mut a);
    Given::double_in_place(&mut b);
    assert!(a.X == b.X && a.Y == b.Y && a.T == b.T && a.Z == b.Z);
    Doubling::add_in_place(&mut a, &base);
    Given::add_in_place(&mut b, &base);
    assert!(a.X == b.X && a.Y == b.Y && a.T == b.T && a.Z == b.Z);
    Doubling::add_affine_in_place(&mut a, &Affine::new(x, y));
    Given::add_affine_in_place(&mut b, &Affine::new(x, y));
    assert!(a.X == b.X && a.Y == b.Y && a.T == b.T && a.Z == b.Z);
    Given::neg_in_place(&mut b);
    assert!(b.X == -a.X && b.T == -a.T && b.Y == a.Y);
    assert!(Given::identity() == Doubling::identity());
}

#[test]
fn test_ring() {
    let three = AsRing(fp(3));
    assert!(three.pow(5).0 == fp(243));
    assert!(three.exp(&[5u32]).0 == fp(243));
    assert!(three.square().0 == fp(9));
    assert!(three.double().0 == fp(6));
    assert!(three.plus(&three).0 == fp(6));
    assert!(three.times(&three).0 == fp(9));
    assert!(three.pow(0).0 == Fp25519::one());
    assert!(AsRing::<Fp25519>::zero().0.is_zero());
    assert!(AsRing::<Fp25519>::one().0 == Fp25519::one());
}

struct Ladder;

impl Exponentiation<MontgomeryOperations<4, Fp25519Params>> for Ladder {}

#[test]
fn test_exponentiation_on_arithmetic() {
    type A = MontgomeryOperations<4, Fp25519Params>;
    let three = <A as ArithmeticOperations>::reduce(&LimbInt::from([3, 0, 0, 0]));
    let power = <Ladder as Exponentiation<A>>::exp(&three, &[4u32]);
    assert_eq!(<A as ArithmeticOperations>::as_int(&power).limbs, [81, 0, 0, 0]);
    let mut x = three;
    <A as ArithmeticOperations>::square_assign(&mut x);
    assert_eq!(<A as ArithmeticOperations>::as_int(&x).limbs, [9, 0, 0, 0]);
    <A as ArithmeticOperations>::double_assign(&mut x);
    assert_eq!(<A as ArithmeticOperations>::as_int(&x).limbs, [18, 0, 0, 0]);
    <A as ArithmeticOperations>::negation_in_place(&mut x);
    <A as ArithmeticOperations>::add_assign(&mut x, &three);
    // -18 + 3 = p - 15
    assert_eq!(
        <A as ArithmeticOperations>::as_int(&x).limbs,
        [18446744073709551597 - 15, u64::MAX, u64::MAX, 9223372036854775807]
    );
    assert!(<A as ArithmeticOperations>::equals(&three, &three));
    assert!(!<A as ArithmeticOperations>::equals(&three, &x));
    assert!(<A as ArithmeticOperations>::is_zero(&<A as ArithmeticOperations>::zero()));
    let one = <A as ArithmeticOperations>::one();
    let mut y = three;
    <A as ArithmeticOperations>::mul_assign(&mut y, &one);
    <A as ArithmeticOperations>::sub_assign(&mut y, &three);
    assert!(<A as ArithmeticOperations>::is_zero(&y));
}

#[test]
fn test_sum_and_product() {
    let items = [fp(2), fp(3), fp(4)];
    assert!(Fp25519::sum(&items) == fp(9));
    assert!(Fp25519::product(&items) == fp(24));
    assert!(Fp25519::sum(&[]) == Fp25519::zero());
    assert!(Fp25519::product(&[]) == Fp25519::one());
    let mont: Fp25519Mont = F::sum(&[Fp25519Mont::one(), Fp25519Mont::one()]);
    assert_eq!(mont.as_int().limbs, [2, 0, 0, 0]);
}

#[test]
fn test_limbint_bytes() {
    type Int = LimbInt<u32, 2>;
    let x = Int::from_bytes_be(&[1, 2, 3, 4, 5, 6, 7, 8]).unwrap();
    assert_eq!(x.limbs, [0x05060708, 0x01020304]);
    let y = Int::from_bytes_le(&[1, 2, 3, 4, 5, 6, 7, 8]).unwrap();
    assert_eq!(y.limbs, [0x04030201, 0x08070605]);
    // fewer limbs than the width: the rest is zero
    assert_eq!(Int::from_bytes_be(&[0, 0, 1, 2]).unwrap().limbs, [0x0102, 0]);
    assert_eq!(Int::from_bytes_le(&[2, 1, 0, 0]).unwrap().limbs, [0x0102, 0]);
    assert_eq!(Int::from_bytes_be(&[]).unwrap().limbs, [0, 0]);
    // not whole limbs, or too many limbs
    assert!(Int::from_bytes_be(&[1, 2, 3]) == Err(WrongByteLengthError));
    assert!(Int::from_bytes_le(&[1, 2, 3, 4, 5]) == Err(WrongByteLengthError));
    assert!(Int::from_bytes_be(&[0; 12]) == Err(WrongByteLengthError));
    assert!(Int::from_bytes_le(&[0; 12]) == Err(WrongByteLengthError));
    // round trip
    let z = Int::from([0xdeadbeef, 0x01234567]);
    assert!(Int::from_bytes_be(&Bytes::into_iter_be(&z)) == Ok(z));
}

#[test]
fn test_inversion_on_arithmetic() {
    type A = MontgomeryOperations<4, Fp25519Params>;
    let three = <A as ArithmeticOperations>::reduce(&LimbInt::from([3, 0, 0, 0]));
    let inverse = <A as Inversion<A>>::inverse(&three).unwrap();
    let mut product = three;
    <A as ArithmeticOperations>::mul_assign(&mut product, &inverse);
    assert!(product == <A as ArithmeticOperations>::one());
    assert!(<A as Inversion<A>>::inverse(&<A as ArithmeticOperations>::zero()).is_none());
    let by_default = <A as Exponentiation<A>>::exp(&three, &[2u32]);
    assert_eq!(<A as ArithmeticOperations>::as_int(&by_default).limbs, [9, 0, 0, 0]);

    type G = GeneralReductionOperations<4, SolinasReduction<4, Fp25519Params>>;
    let three = <G as ArithmeticOperations>::reduce(&LimbInt::from([3, 0, 0, 0]));
    let inverse = <G as Inversion<G>>::inverse(&three).unwrap();
    let mut product = three;
    <G as ArithmeticOperations>::mul_assign(&mut product, &inverse);
    assert_eq!(product.limbs, [1, 0, 0, 0]);
    assert!(<G as Inversion<G>>::inverse(&<G as ArithmeticOperations>::zero()).is_none());
    let by_default = <G as Exponentiation<G>>::exp(&three, &[5u32]);
    assert_eq!(by_default.limbs, [243, 0, 0, 0]);
}

#[test]
fn test_vectors() {
    let a = [fp(1), fp(2), fp(3)];
    let b = [fp(4), fp(5), fp(6)];
    assert_eq!(a.dim(), 3);
    assert!(*a.get(1) == fp(2));
    assert!(a.inner_product(&b) == fp(32));
    let empty: [Fp25519; 0] = [];
    assert!(empty.inner_product(&empty) == Fp25519::zero());
}

#[test]
fn test_general_edwards_parameters() {
    let a = <Ed25519Parameters as cryp::TwistedEdwardsGeneral>::a();
    assert!(a == -Fp25519::one());
    let d = <Ed25519Parameters as cryp::TwistedEdwardsGeneral>::d();
    assert!(d == <Ed25519Parameters as cryp::TwistedEdwardsAM1>::d());
    let a = <Ed25519Parameters as cryp::TwistedEdwardsGeneralUnified>::a();
    assert!(a + Fp25519::one() == Fp25519::zero());
    // the base point is on the curve: a x^2 + y^2 = 1 + d x^2 y^2
    let x = Fp25519::from_int(&Ed25519Parameters::X.into());
    let y = Fp25519::from_int(&Ed25519Parameters::Y.into());
    assert!(a * x.square() + y.square() == Fp25519::one() + d * x.square() * y.square());
}
