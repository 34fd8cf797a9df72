use cryp::curves::ed25519::Fp25519;
use cryp::curves::ed25519::Fp25519Mont;
use cryp::Bytes;
use cryp::Field;
use cryp::GeneralReduction;
use cryp::Limb;
use cryp::LimbInt;
use cryp::MontParameters;
use cryp::MontgomeryOperations;
use cryp::One;
use cryp::PrimeField;
use cryp::PrimeFieldOperations;
use cryp::SolinasParameters;
use cryp::SolinasReduction;
use cryp::Zero;
use cryp::F;
use num_bigint::BigUint;
use rand::Rng;

fn big_int_from_u64(v: &[u64]) -> BigUint {
    let v_u32: Vec<u32> = v.iter().flat_map(|&x| vec![x as u32, (x >> 32) as u32]).collect();
    BigUint::from_slice(v_u32.as_slice())
}

fn to_biguint<L: Limb, const N: usize>(value: &LimbInt<L, N>) -> BigUint {
    BigUint::from_bytes_be(Bytes::into_iter_be(value).as_slice())
}

/// A uniformly random element, by rejection sampling.
fn rand_element<S: PrimeFieldOperations<BigInt = LimbInt<u64, 4>>>() -> F<S> {
    let mut rng = rand::thread_rng();
    loop {
        let candidate = LimbInt::<u64, 4>::from([rng.gen(), rng.gen(), rng.gen(), rng.gen()]);
        if let Some(element) = F::<S>::sample(&candidate) {
            return element;
        }
    }
}

struct TestParams1;

impl MontParameters<4> for TestParams1 {
    type Limb = u32;

    // 52765956244737991800116037595123
    const MODULUS: [u32; 4] = [45043, 444, 555, 666];

    const MP: u32 = 1248165573;

    const R2: [u32; 4] = [1580018471, 1431656072, 715828350, 561];

    const R: [u32; 4] = [1580018471, 1431656072, 715828350, 561];
}

#[test]
fn montgomery_test_montgomery_reduction_u32() {
    type Int = LimbInt<u32, 4>;
    let mut rng = rand::thread_rng();
    let a: [u32; 4] = [rng.gen(), rng.gen(), rng.gen(), rng.gen()];
    let b: [u32; 4] = [rng.gen(), rng.gen(), rng.gen(), rng.gen()];

    // check rng doesn't do anything weird
    assert_ne!(a, b);

    // check reduction is correct
    let modulus = BigUint::new(TestParams1::MODULUS.to_vec());

    let (product_l, product_r) = Int::from(a).carrying_mul(Int::from(b), Int::zero());
    let mont_red =
        MontgomeryOperations::<4, TestParams1>::montgomery_reduction(&(product_l, product_r));

    let product: Vec<u32> =
        product_l.limbs.into_iter().chain(product_r.limbs.into_iter()).collect();

    let n_a = BigUint::new(a.to_vec());
    let n_b = BigUint::new(b.to_vec());
    let n_product = BigUint::from_slice(product.as_slice());
    assert_eq!(n_product, n_a * n_b);

    let n_mont_red = BigUint::new(mont_red.limbs.to_vec());
    let r = BigUint::new(TestParams1::R.to_vec());
    assert_eq!((n_mont_red * &r) % &modulus, n_product % modulus);
}

#[test]
fn montgomery_test_montgomery_reduction_u64() {
    type Int = LimbInt<u64, 2>;

    struct TestParams2;

    impl MontParameters<2> for TestParams2 {
        type Limb = u64;

        // 52765956244737991800116037595123
        const MODULUS: [u64; 2] = [1906965524467, 2860448219691];

        const MP: u64 = 6034914237403725509;

        const R2: [u64; 2] = [1580018471, 1431656072];

        // 44460203872881598092700617091879
        const R: [u64; 2] = [6148916009939839783, 2410192481406];
    }
    let mut rng = rand::thread_rng();
    let a: [u64; 2] = [rng.gen(), rng.gen()];
    let b: [u64; 2] = [rng.gen(), rng.gen()];

    // check rng doesn't do anything weird
    assert_ne!(a, b);

    // check reduction is correct
    let modulus = big_int_from_u64([1906965524467, 2860448219691].as_slice());

    let (product_l, product_r) = Int::from(a).carrying_mul(Int::from(b), Int::zero());
    let mont_red =
        MontgomeryOperations::<2, TestParams2>::montgomery_reduction(&(product_l, product_r));

    let product: Vec<u64> =
        product_l.limbs.into_iter().chain(product_r.limbs.into_iter()).collect();

    let n_a = big_int_from_u64(a.as_slice());
    let n_b = big_int_from_u64(b.as_slice());
    let n_product = big_int_from_u64(product.as_slice());
    assert_eq!(n_product, n_a * n_b);

    let n_mont_red = big_int_from_u64(mont_red.limbs.as_slice());
    let r = big_int_from_u64(TestParams2::R.as_slice());

    // verify montogomery parameters
    let two128 = BigUint::from(2u64).pow(128);
    assert_eq!(&r % &modulus, two128 % &modulus);
    let n_mp = big_int_from_u64(&[TestParams2::MP]);
    let b = BigUint::from(2u64).pow(32);
    assert_eq!((n_mp * &modulus + 1u64) % &b, 0u32 % &b);

    // check reduction
    assert_eq!((n_mont_red * &r) % &modulus, n_product % modulus);
}

struct Fp25519Params;

impl MontParameters<4usize> for Fp25519Params {
    type Limb = u64;

    const MODULUS: [Self::Limb; 4] =
        [18446744073709551597, 18446744073709551615, 18446744073709551615, 9223372036854775807];

    const R: [Self::Limb; 4] = [38, 0, 0, 0];

    const R2: [Self::Limb; 4] = [1444, 0, 0, 0];
    const MP: Self::Limb = 9708812670373448219;
}

impl SolinasParameters<4usize> for Fp25519Params {
    type Limb = u64;

    // 57896044618658097711785492504343953926634992332820282019728792003956564819949
    const MODULUS: [Self::Limb; 4] =
        [18446744073709551597, 18446744073709551615, 18446744073709551615, 9223372036854775807];

    const C: Self::Limb = 38;
}

#[test]
fn montgomery_test_montgomery_reduction_25519() {
    type Int = LimbInt<u64, 4>;

    let mut rng = rand::thread_rng();

    for _ in 0..100 {
        let a: [u64; 4] = [rng.gen(), rng.gen(), rng.gen(), rng.gen()];
        let b: [u64; 4] = [rng.gen(), rng.gen(), rng.gen(), rng.gen()];

        // check rng doesn't do anything weird
        assert_ne!(a, b);

        // check reduction is correct
        let modulus = big_int_from_u64(<Fp25519Params as MontParameters<4>>::MODULUS.as_slice());

        let (product_l, product_r) = Int::from(a).carrying_mul(Int::from(b), Int::zero());
        let mont_red = MontgomeryOperations::<4, Fp25519Params>::montgomery_reduction(&(
            product_l, product_r,
        ));

        let product: Vec<u64> =
            product_l.limbs.into_iter().chain(product_r.limbs.into_iter()).collect();

        let n_a = big_int_from_u64(a.as_slice());
        let n_b = big_int_from_u64(b.as_slice());
        let n_product = big_int_from_u64(product.as_slice());
        assert_eq!(n_product, n_a * n_b);

        let n_mont_red = big_int_from_u64(mont_red.limbs.as_slice());
        let r = big_int_from_u64(Fp25519Params::R.as_slice());

        // verify montogomery parameters
        let two256 = BigUint::from(2u64).pow(256);
        assert_eq!(&r % &modulus, two256 % &modulus);
        let n_mp = big_int_from_u64(&[Fp25519Params::MP]);
        let b = BigUint::from(2u64).pow(64);
        assert_eq!((n_mp * &modulus + 1u64) % &b, 0u64 % &b);
        let r2 = &r * &r;
        assert_eq!(&r2 % &modulus, big_int_from_u64(Fp25519Params::R2.as_slice()));
        assert_eq!(&BigUint::from(Fp25519Params::R2[0]), &r2);

        // check reduction
        assert_eq!((n_mont_red * &r) % &modulus, n_product % modulus);
    }
}

#[test]
fn test_solinas_reduction_25519() {
    type Int = LimbInt<u64, 4>;

    let mut rng = rand::thread_rng();
    let a: [u64; 4] = [rng.gen(), rng.gen(), rng.gen(), rng.gen()];
    let b: [u64; 4] = [rng.gen(), rng.gen(), rng.gen(), rng.gen()];

    // check rng doesn't do anything weird
    assert_ne!(a, b);

    // check reduction is correct
    let modulus = big_int_from_u64(<Fp25519Params as SolinasParameters<4>>::MODULUS.as_slice());
    let two255 = BigUint::from(2u64).pow(255);
    assert_eq!(modulus, &two255 - 19u32);

    let (product_l, product_r) = Int::from(a).carrying_mul(Int::from(b), Int::zero());
    let reduced =
        SolinasReduction::<4usize, Fp25519Params>::reduction_limbint(&(product_l, product_r));

    let product: Vec<u64> =
        product_l.limbs.into_iter().chain(product_r.limbs.into_iter()).collect();

    let n_a = big_int_from_u64(a.as_slice());
    let n_b = big_int_from_u64(b.as_slice());
    let n_product = big_int_from_u64(product.as_slice());
    assert_eq!(n_product, &n_a * &n_b);

    let n_red = big_int_from_u64(reduced.limbs.as_slice());

    // check c_vec multiplication
    let mut c_vec = LimbInt::from([0; 4]);
    c_vec.limbs[0] = Fp25519Params::C;

    let (r, t) = Int::from(a).carrying_mul(Int::from(c_vec), Int::from(b));
    let n_r = big_int_from_u64(r.limbs.as_slice());
    let n_t = big_int_from_u64(t.limbs.as_slice());
    let n_c = BigUint::from(38u64);
    assert_eq!(n_r + &BigUint::from(2u64).pow(256) * &n_t, &n_b + &n_a * n_c);

    // check reduction
    assert_eq!(n_red % &modulus, n_product % modulus);
}

/// The additive and the multiplicative identity
fn check_one_zero<S: PrimeFieldOperations<BigInt = LimbInt<u64, 4>>>(num_tests: usize) {
    let one = F::<S>::one();
    let zero = F::<S>::zero();

    for _ in 0..num_tests {
        let element = rand_element::<S>();
        // Test that one is multiplicative identity
        assert!(element * one == element);
        assert!(one * element == element);
        assert!(element + zero == element);
        assert!(zero + element == element);
        assert!(zero * element == zero);
    }
}

/// Addition is commutative
fn check_addition<S: PrimeFieldOperations<BigInt = LimbInt<u64, 4>>>(num_tests: usize) {
    for _ in 0..num_tests {
        let element = rand_element::<S>();
        let other = rand_element::<S>();
        assert!(element + other == other + element);
        assert!(element - other == -(other - element));
    }
}

/// Multiplication is commutative
fn check_multiplication<S: PrimeFieldOperations<BigInt = LimbInt<u64, 4>>>(num_tests: usize) {
    for _ in 0..num_tests {
        let element = rand_element::<S>();
        let other = rand_element::<S>();

        assert!(element * other == other * element);

        // test multiplicative inverse
        if element != F::<S>::zero() {
            assert!(element * element.inverse().unwrap() == F::<S>::one());
        }
    }
}

/// The operations against arbitrary-precision arithmetic
fn check_as_bigint<S: PrimeFieldOperations<BigInt = LimbInt<u64, 4>>>(num_tests: usize) {
    let modulus = to_biguint(&F::<S>::modulus_int());

    for _ in 0..num_tests {
        let a = rand_element::<S>();
        let b = rand_element::<S>();

        let n_a = to_biguint(&a.as_int());
        let n_b = to_biguint(&b.as_int());

        // addition
        let n_sum = to_biguint(&(a + b).as_int());
        assert_eq!(n_sum, (&n_a + &n_b) % &modulus);

        // subtraction
        let n_sub = to_biguint(&(a - b).as_int());
        assert_eq!(n_sub, (&n_a + &modulus - &n_b) % &modulus);

        // multiplication
        let n_mul = to_biguint(&(a * b).as_int());
        assert_eq!(n_mul, (&n_a * &n_b) % &modulus);

        // division
        if b != F::<S>::zero() {
            let n_div = to_biguint(&(a / b).as_int());
            assert_eq!((&n_b * n_div) % &modulus, &n_a % &modulus);
        }
        // inverse and exponentiation
        let mod_minus_two =
            BigUint::iter_u64_digits(&(&modulus - &BigUint::from(2u8))).collect::<Vec<u64>>();
        let exponent: [u64; 4] = mod_minus_two.try_into().unwrap();

        if a != F::<S>::zero() {
            assert!(a.exp(&exponent) * a == F::<S>::one());
        }
    }
}

fn check_modulus<S: PrimeFieldOperations<BigInt = LimbInt<u64, 4>>>() {
    assert!(F::<S>::from_int(&F::<S>::modulus_int()) == F::<S>::zero());
}

#[test]
fn test_fp25519_mont() {
    type S = MontgomeryOperations<4, Fp25519Params>;
    check_one_zero::<S>(100);
    check_addition::<S>(100);
    check_multiplication::<S>(100);
    check_modulus::<S>();
    check_as_bigint::<S>(20);
}

#[test]
fn test_fp25519_solinas() {
    type S = cryp::GeneralReductionOperations<4, SolinasReduction<4, Fp25519Params>>;
    check_one_zero::<S>(100);
    check_addition::<S>(100);
    check_multiplication::<S>(100);
    check_modulus::<S>();
    check_as_bigint::<S>(20);
}

struct F5Params;

impl MontParameters<1usize> for F5Params {
    type Limb = u32;

    const MODULUS: [u32; 1] = [5];

    const R: [u32; 1] = [1];
    const MP: Self::Limb = 858993459u32;
    const R2: [Self::Limb; 1] = [1];
}

type F5 = F<MontgomeryOperations<1, F5Params>>;

#[test]
fn test_f5_scenario() {
    let one = F5::one();
    let two = one + one;
    let three = two + one;
    let four = three + one;
    let five = four + one;
    assert!(five == F5::zero());
    assert!(two.inverse() == Some(three));
    assert!(two * three == one);
    assert!(four.pow(5) == four);
}

#[test]
fn test_f5_exact_values() {
    let one = F5::one();
    let three = one + one + one;
    let four = three + one;
    // 3 + 4 = 2, 3 - 4 = 4, 3 * 4 = 2, -3 = 2, 3 / 4 = 3 * 4 = 2 modulo 5
    assert_eq!((three + four).as_int().limbs, [2]);
    assert_eq!((three - four).as_int().limbs, [4]);
    assert_eq!((three * four).as_int().limbs, [2]);
    assert_eq!((-three).as_int().limbs, [2]);
    assert_eq!((three / four).as_int().limbs, [2]);
    assert_eq!(three.square().as_int().limbs, [4]);
    assert_eq!(three.double().as_int().limbs, [1]);
    assert_eq!(three.pow(3).as_int().limbs, [2]);
    assert_eq!(three.exp(&[3u32]).as_int().limbs, [2]);
    assert!(F5::zero().inverse().is_none());
    assert!(F5::zero().is_zero());
    assert!(!three.is_zero());
    assert_eq!(F5::from_int(&LimbInt::from([13u32])).as_int().limbs, [3]);
    assert_eq!(F5::modulus_int().limbs, [5]);
}

#[test]
fn test_montgomery_round_trip() {
    // as_int(reduce(as_int(x))) == as_int(x), and the reduction of a * R is a
    let mut rng = rand::thread_rng();
    for _ in 0..50 {
        let x: Fp25519Mont = Fp25519Mont::from_int(&LimbInt::from([
            rng.gen(),
            rng.gen(),
            rng.gen(),
            rng.gen(),
        ]));
        let n = x.as_int();
        assert!(Fp25519Mont::from_int(&n).as_int() == n);

        let r = LimbInt::<u64, 4>::from([38, 0, 0, 0]);
        let ar = n.carrying_mul(r, LimbInt::zero());
        let back = MontgomeryOperations::<4, Fp25519Params>::montgomery_reduction(&ar);
        assert!(back == n);
    }
}

#[test]
fn test_montgomery_mul_is_product() {
    // montgomery_mul(a, b) * R = a * b modulo p
    let mut rng = rand::thread_rng();
    let modulus = big_int_from_u64(<Fp25519Params as MontParameters<4>>::MODULUS.as_slice());
    let a = LimbInt::<u64, 4>::from([rng.gen(), rng.gen(), rng.gen(), rng.gen()]);
    let b = LimbInt::<u64, 4>::from([rng.gen(), rng.gen(), rng.gen(), rng.gen()]);
    let m = MontgomeryOperations::<4, Fp25519Params>::montgomery_mul(&a, &b);
    let lhs = (to_biguint(&m) * BigUint::from(2u64).pow(256)) % &modulus;
    assert_eq!(lhs, (to_biguint(&a) * to_biguint(&b)) % &modulus);
}

#[test]
fn test_sample_bounds() {
    type S = cryp::GeneralReductionOperations<4, SolinasReduction<4, Fp25519Params>>;
    let modulus = F::<S>::modulus_int();
    let (below, _) = modulus.carrying_sub(LimbInt::one(), false);
    let (above, _) = modulus.carrying_add(LimbInt::one(), false);
    // the strategy accepts every candidate up to the modulus
    assert!(S::sample(&below).is_some());
    assert!(S::sample(&modulus).is_some());
    assert!(S::sample(&above).is_none());
    // an element is made of a canonical candidate only
    assert!(F::<S>::sample(&below).is_some());
    assert!(F::<S>::sample(&modulus).is_none());
    assert!(F::<S>::sample(&above).is_none());

    type M = MontgomeryOperations<4, Fp25519Params>;
    assert!(M::sample(&modulus).is_some());
    assert!(F::<M>::sample(&modulus).unwrap().is_zero());
    assert!(M::sample(&above).is_none());
}

#[test]
fn test_field_laws_on_values() {
    let a: Fp25519 = Fp25519::from_int(&LimbInt::from([3293829, 232323, 4473653, 2323]));
    let b: Fp25519 = Fp25519::from_int(&LimbInt::from([77, 0, 5, 1]));
    let c: Fp25519 = Fp25519::from_int(&LimbInt::from([u64::MAX, u64::MAX, 1, 2]));
    assert!(a + b == b + a);
    assert!(a * b == b * a);
    assert!(a + (-a) == Fp25519::zero());
    assert!(a * a.inverse().unwrap() == Fp25519::one());
    assert!((a + b) + c == a + (b + c));
    assert!((a * b) * c == a * (b * c));
    assert!(a * (b + c) == a * b + a * c);
}

#[test]
fn test_limb_bytes() {
    assert_eq!(0x01020304u32.into_bytes_be(), vec![1, 2, 3, 4]);
    assert_eq!(0x01020304u32.into_bytes_le(), vec![4, 3, 2, 1]);
    assert_eq!(0x0102030405060708u64.into_bytes_be(), vec![1, 2, 3, 4, 5, 6, 7, 8]);
    assert_eq!(0x0102030405060708u64.into_bytes_le(), vec![8, 7, 6, 5, 4, 3, 2, 1]);
    assert_eq!(u32::from_bytes_be(&[1, 2, 3, 4]), Ok(0x01020304));
    assert_eq!(u32::from_bytes_le(&[1, 2, 3, 4]), Ok(0x04030201));
    assert_eq!(u64::from_bytes_be(&[1, 2, 3, 4, 5, 6, 7, 8]), Ok(0x0102030405060708));
    assert_eq!(u64::from_bytes_le(&[1, 2, 3, 4, 5, 6, 7, 8]), Ok(0x0807060504030201));
    assert_eq!(u32::from_bytes_be(&[1, 2, 3]), Err(cryp::WrongByteLengthError));
    assert_eq!(u32::from_bytes_le(&[1, 2, 3, 4, 5]), Err(cryp::WrongByteLengthError));
    assert_eq!(u64::from_bytes_be(&[1, 2, 3, 4]), Err(cryp::WrongByteLengthError));
    assert_eq!(u64::from_bytes_le(&[]), Err(cryp::WrongByteLengthError));
    // round trip
    let x = 0xdeadbeefu32;
    assert_eq!(u32::from_bytes_be(&x.into_bytes_be()), Ok(x));
    assert_eq!(u32::from_bytes_le(&x.into_bytes_le()), Ok(x));
}

#[test]
fn test_comparisons() {
    type Int = LimbInt<u32, 2>;
    let a = Int::from([5, 1]);
    let b = Int::from([4, 2]);
    assert!(a.le(&b));
    assert!(!b.le(&a));
    assert!(a.le(&a));
    assert!(a.le_non_ct(&b));
    assert!(!b.le_non_ct(&a));
    assert!(a.le_non_ct(&a));
    // decided by the high halves
    assert!(Int::le_double(&(b, a), &(a, b)));
    assert!(!Int::le_double(&(a, b), &(b, a)));
    assert!(Int::le_double(&(b, a), &(a, a)));
    assert!(Int::from([0, 0]).is_zero());
    assert!(!a.is_zero());
    assert!(Int::one() == Int::from([1, 0]));
}

#[test]
fn test_mul_by_limb_carry() {
    type Int = LimbInt<u32, 2>;
    let a = Int::from([u32::MAX, u32::MAX]);
    let (low, high) = a.mul_by_limb_carry(u32::MAX, 7);
    // (2^64 - 1) * (2^32 - 1) + 7 = 2^96 - 2^64 - 2^32 + 8
    assert_eq!(low.limbs, [8, u32::MAX]);
    assert_eq!(high, u32::MAX - 1);
}

#[test]
fn test_bytes() {
    let x = LimbInt::<u32, 2>::from([0x01020304, 0x0a0b0c0d]);
    assert_eq!(Bytes::into_iter_be(&x), vec![0x0a, 0x0b, 0x0c, 0x0d, 1, 2, 3, 4]);
    assert_eq!(Bytes::into_iter_be(&[0x0102u32]), vec![0, 0, 1, 2]);
}
