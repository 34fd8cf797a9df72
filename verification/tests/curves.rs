use cryp::curves::ed25519::AffineEd25519;
use cryp::curves::ed25519::Ed25519Parameters;
use cryp::curves::ed25519::Fp25519;
use cryp::curves::ed25519::GroupEd25519;
use cryp::curves::ed25519::ScalarEd25519;
use cryp::Affine;
use cryp::EdwardsAM1UnifiedOperations;
use cryp::Field;
use cryp::Group;
use cryp::LimbInt;
use cryp::One;
use cryp::PrimeField;
use cryp::PrimeGroup;
use cryp::PrimeSubGroupConfig;
use cryp::ScalarMul;
use cryp::TwistedEdwardsAM1;
use cryp::VariableBaseMSM;
use cryp::Zero;
use rand::Rng;

type Curve = EdwardsAM1UnifiedOperations<Ed25519Parameters>;

fn rand_limbs() -> LimbInt<u64, 4> {
    let mut rng = rand::thread_rng();
    LimbInt::from([rng.gen(), rng.gen(), rng.gen(), rng.gen()])
}

fn base_point() -> GroupEd25519 {
    let x = Fp25519::from_int(&Ed25519Parameters::X.into());
    let y = Fp25519::from_int(&Ed25519Parameters::Y.into());
    GroupEd25519::from(AffineEd25519::new(Affine::new(x, y)))
}

#[test]
fn test_field() {
    let x = Fp25519::from_int(&[3293829, 232323, 4473653, 2323].into());

    let modulus_minus_one: [u64; 4] =
        [18446744073709551596, 18446744073709551615, 18446744073709551615, 9223372036854775807];
    assert!(Fp25519::from_int(&modulus_minus_one.into()) + Fp25519::one() == Fp25519::zero());

    assert!(x + x == x.double());
    assert!(x - x == Fp25519::zero());
    assert!(x.exp(&[1200u64]) * x.exp(&[250u64]) == x.exp(&[1450u64]));
    assert!(x.exp(&modulus_minus_one) == Fp25519::one());

    let y = Fp25519::from_int(&rand_limbs());

    assert!(y + y == y.double());
    assert!(y - y == Fp25519::zero());
    assert!(y.exp(&[1200u64]) * y.exp(&[250u64]) == y.exp(&[1450u64]));
    assert!(x.exp(&modulus_minus_one) == Fp25519::one());
}

#[test]
fn test_parameters() {
    // d  =  -121665/121666
    let numerator = Fp25519::from_int(&[121665, 0, 0, 0].into());
    let denominator = Fp25519::from_int(&[121666, 0, 0, 0].into());

    let d = -numerator * denominator.inverse().unwrap();

    assert!(d == Ed25519Parameters::d());
    assert!(d + d == Ed25519Parameters::d2());
    assert!(Ed25519Parameters::verify());
}

#[test]
fn test_scalar_field() {
    let one = ScalarEd25519::one();
    let zero = ScalarEd25519::zero();
    let x = ScalarEd25519::from_int(&[3293829, 232323, 4473653, 2323].into());

    let _y = ScalarEd25519::from_int(&rand_limbs());

    let modulus_minus_one: [u64; 4] =
        [6346243789798364140, 1503914060200516822, 0, 1152921504606846976];

    let power = ScalarEd25519::from_int(&modulus_minus_one.into());
    assert!(power + one == zero);

    assert!(x * x.inverse().unwrap() == one);
    assert!(x.inverse().unwrap() == x.exp(&(power - one).as_int()));
}

#[test]
fn test_group() {
    let x = Fp25519::from_int(&Ed25519Parameters::X.into());
    let y = Fp25519::from_int(&Ed25519Parameters::Y.into());
    let affine_point = AffineEd25519::new(Affine::new(x, y));

    let one = Fp25519::one();
    let d = Ed25519Parameters::d();

    let point = GroupEd25519::from(affine_point);

    // check on curve
    assert!(-x.square() + y.square() == one + d * x.square() * y.square());

    // check random elements
    let scalars: Vec<ScalarEd25519> =
        (0..10).map(|_| ScalarEd25519::from_int(&rand_limbs())).collect();
    let generators = GroupEd25519::batch_generators(&scalars).unwrap();
    assert_eq!(generators.len(), 10);

    assert!(generators[8] != generators[4]);

    let identity = GroupEd25519::identity();
    assert!(GroupEd25519::from(generators[8]) != identity);

    assert!(point + point == point.double());
    assert!(point.double().double() == point.double() + point.double());
    assert!(identity + point == point);
    assert!(identity + point.double() == point.double());
    assert!(point.mul_int(&[2u32]) == point.double());
    assert!(x.square() == x.exp(&[2u32]));
    assert!(x * &(one + one) == x.double());

    let order: [u64; 4] = [6346243789798364141, 1503914060200516822, 0, 1152921504606846976];

    let order_minus_one: [u64; 4] =
        [6346243789798364140, 1503914060200516822, 0, 1152921504606846976];

    assert!(point.mul_int(&order) == identity);
    assert!(point.mul_int(&order_minus_one) == -point);
    assert!(point - point == identity);

    let mod_minus_one = ScalarEd25519::from_int(&order_minus_one.into());
    assert!(point * &mod_minus_one != point);
    assert!(point * &mod_minus_one == -point);
}

#[test]
fn test_group_law() {
    let p = base_point();
    let q = p.double() + p;
    let identity = GroupEd25519::identity();
    assert!(p + q == q + p);
    assert!(p + p == p.double());
    assert!(p + identity == p);
    assert!(p + (-p) == identity);
    assert!(q + (-q) == identity);
    assert!(identity.is_identity());
    assert!(!p.is_identity());
    assert!(p != q);
    assert!((p + q) + p == p + (q + p));
}

#[test]
fn test_generator_order() {
    // the generator times the order of the subgroup is the identity
    let g = GroupEd25519::from(GroupEd25519::generator(None).unwrap());
    let order = ScalarEd25519::modulus_int();
    let (order_minus_one, _) = order.carrying_sub(LimbInt::one(), false);
    assert!(g.mul_int(&order) == GroupEd25519::identity());
    assert!(g.mul_int(&order_minus_one) == -g);
    assert!(g == base_point());
}

#[test]
fn test_msm() {
    let p = base_point();
    let q = p.double().double() + p;
    let s = ScalarEd25519::from_int(&rand_limbs());
    let t = ScalarEd25519::from_int(&rand_limbs());
    let p_pub = p.as_public().unwrap();
    let q_pub = q.as_public().unwrap();

    assert!(GroupEd25519::msm(&[p_pub], &[s]) == p * &s);
    assert!(GroupEd25519::msm(&[p_pub, q_pub], &[s, t]) == p * &s + q * &t);
    assert!(GroupEd25519::msm(&[], &[]) == GroupEd25519::identity());

    let direct = VariableBaseMSM::msm_simple::<Curve, ScalarEd25519>(
        &[p.into_point(), q.into_point()],
        &[s, t],
    );
    assert!(GroupEd25519::new(direct) == p * &s + q * &t);
}

#[test]
fn test_ladder_small_scalars() {
    let p = base_point();
    let point = p.into_point();
    let three = ScalarMul::montgomery_ladder::<Curve, [u32; 1]>(&point, &[3u32]);
    assert!(GroupEd25519::new(three) == p + p + p);
    let zero = ScalarMul::montgomery_ladder::<Curve, [u32; 1]>(&point, &[0u32]);
    assert!(GroupEd25519::new(zero) == GroupEd25519::identity());
    let one = ScalarMul::montgomery_ladder::<Curve, [u32; 1]>(&point, &[1u32]);
    assert!(GroupEd25519::new(one) == p);
    // scalar multiplication is linear in the scalar
    let five = ScalarEd25519::from_int(&[5, 0, 0, 0].into());
    let seven = ScalarEd25519::from_int(&[7, 0, 0, 0].into());
    assert!(p * &five + p * &seven == p * &(five + seven));
}

#[test]
fn test_public_form() {
    let p = base_point();
    let q = p.double();
    let q_pub = q.as_public().unwrap();
    assert!(GroupEd25519::is_valid(&q_pub));
    assert!(GroupEd25519::from(q_pub) == q);
    // mixed addition agrees with addition
    assert!(p + q_pub == p + q);
    assert!(p + &q_pub == p + q);
    assert!(p - q_pub == p - q);
    assert!(q_pub.scalar_mul(&ScalarEd25519::one()) == q);
    // a point of the curve outside the subgroup: (0, -1) has order 2
    let minus_one = -Fp25519::one();
    let low_order = AffineEd25519::new(Affine::new(Fp25519::zero(), minus_one));
    assert!(!GroupEd25519::is_valid(&low_order));
    assert_eq!(<Curve as PrimeSubGroupConfig>::COFACTOR, 8);
}

#[test]
fn test_generator_multiple() {
    let s = ScalarEd25519::from_int(&rand_limbs());
    let g = GroupEd25519::generator(Some(&s)).unwrap();
    assert!(GroupEd25519::from(g) == base_point() * &s);
    assert!(GroupEd25519::is_valid(&g));
}
