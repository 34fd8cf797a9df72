use cryp::Bits;
use cryp::Bytes;
use cryp::Limb;
use cryp::LimbInt;
use num_bigint::BigUint;
use rand::Rng;

type LimbInt64 = LimbInt<u32, 2>;

fn to_biguint<L: Limb, const N: usize>(value: &LimbInt<L, N>) -> BigUint {
    let bytes_be: Vec<u8> = Bytes::into_iter_be(value);
    BigUint::from_bytes_be(bytes_be.as_slice())
}

fn big_int_from_u64(v: &[u64]) -> BigUint {
    let v_u32: Vec<u32> = v.iter().flat_map(|&x| vec![x as u32, (x >> 32) as u32]).collect();
    BigUint::from_slice(v_u32.as_slice())
}

fn to_u64(element: &LimbInt64) -> u64 {
    element.limbs[0] as u64 + ((element.limbs[1] as u64) << 32)
}

#[test]
fn test_bits() {
    let scalar = LimbInt::<u32, 2>::from([8u32, 0]);
    let bits = Bits::into_iter_be(&scalar);
    assert_eq!(bits.len(), 64);
    assert_eq!(
        bits,
        vec![
            false, false, false, false, false, false, false, false, false, false, false, false,
            false, false, false, false, false, false, false, false, false, false, false, false,
            false, false, false, false, false, false, false, false, false, false, false, false,
            false, false, false, false, false, false, false, false, false, false, false, false,
            false, false, false, false, false, false, false, false, false, false, false, false,
            true, false, false, false
        ]
    );
}

#[test]
fn test_add_carry() {
    assert_eq!(0u32.add_carry(0, false), (0, false));
    assert_eq!(0u32.add_carry(0, true), (1, false));
    assert_eq!(0u32.add_carry(1, false), (1, false));
    assert_eq!(0u32.add_carry(1, true), (2, false));
    assert_eq!(0u32.add_carry(0, false), (0, false));
    assert_eq!(u64::MAX.add_carry(1, false), (0, true));
}

#[test]
fn test_sub_carry() {
    assert_eq!(0u32.sub_carry(0, false), (0, false));
    assert_eq!(0u32.sub_carry(0, true), (u32::MAX, true));
    assert_eq!(0u32.sub_carry(1, false), (u32::MAX, true));
    assert_eq!(0u32.sub_carry(1, true), (u32::MAX - 1, true));
    assert_eq!(u64::MAX.sub_carry(1, false), (u64::MAX - 1, false));
    assert_eq!(u64::MAX.sub_carry(1, true), (u64::MAX - 2, false));
}

#[test]
fn test_mul_carry() {
    let mut rng = rand::thread_rng();
    for _ in 0..100 {
        let lhs: u64 = rng.gen();
        let rhs: u64 = rng.gen();
        let carry: u64 = rng.gen();
        let (a, b) = lhs.mul_carry(rhs, carry);
        let mul = (a as u128) + ((b as u128) << 64);
        assert_eq!(mul, (lhs as u128) * (rhs as u128) + (carry as u128));
    }
    assert_eq!(10u32.mul_carry(10u32, 0u32), (100, 0));
    assert_eq!(100u32.mul_carry(10u32, 1u32), (1001, 0));
    assert_eq!(u32::MAX.mul_carry(2u32, 1u32), (4294967295, 1));

    let (lhs, rhs, carry) = (u32::MAX / 4, 200, 10);
    let (a, b) = lhs.mul_carry(rhs, carry);
    let mul = (a as u64) + ((b as u64) << 32);
    assert_eq!(mul, (lhs as u64) * (rhs as u64) + (carry as u64));

    let (lhs, rhs, carry) = (u32::MAX / 4, 200, 10);
    let (a, b) = lhs.mul_carry(rhs, carry);
    let mul = (a as u64) + ((b as u64) << 32);
    assert_eq!(mul, (lhs as u64) * (rhs as u64) + (carry as u64));
}

#[test]
fn test_to_u64() {
    let a = LimbInt64::from([1u32, 2u32]);
    let a_64 = to_u64(&a);
    assert_eq!(a_64, 1 + (2u64 << 32));
    assert_eq!(a_64 / (u32::MAX as u64), 2);
    assert_eq!(a_64 % (u32::MAX as u64 + 1), 1);
}

#[test]
fn test_bigunit_conversion() {
    let a_int = LimbInt64::from([1u32, 2u32]);
    assert_eq!(to_biguint(&a_int), BigUint::from(1u64 + (2u64 << 32)));
}

#[test]
fn test_carrying_add() {
    let a_0 = LimbInt64::from([1u32, 1u32]);
    let b_0 = LimbInt64::from([1u32, 0u32]);
    let (res_0, c_0) = a_0.carrying_add(b_0, false);

    assert!(res_0 == LimbInt64::from([2u32, 1u32]));
    assert_eq!(c_0, false);

    let real_add = to_u64(&a_0) + to_u64(&b_0);
    assert_eq!(real_add, to_u64(&res_0));

    let a = LimbInt64::from([u32::MAX, u32::MAX]);
    let b = LimbInt64::from([100u32, 0u32]);
    let (res, carry) = a.carrying_add(b, false);
    let (real_add, c) = to_u64(&a).add_carry(to_u64(&b), false);
    assert_eq!(real_add, to_u64(&res));
    assert_eq!(carry, c);

    // compare with biguint
    let a_array = [u32::MAX, u32::MAX, u32::MAX, u32::MAX, 5, 7, 7, u32::MAX];
    let b_array = [u32::MAX, u32::MAX, u32::MAX, u32::MAX, 5, 7, 7, u32::MAX];
    let a = LimbInt::<u32, 8>::from(a_array);
    let b = LimbInt::<u32, 8>::from(b_array);
    let a_big = BigUint::from_slice(&a_array);
    let b_big = BigUint::from_slice(&b_array);

    let (res, carry) = a.carrying_add(b, false);
    let res_big = a_big + b_big;

    assert_eq!(res.limbs.as_slice(), &res_big.to_u32_digits()[..8]);
    assert_eq!(carry, res_big.to_u32_digits().len() > 8);
}

#[test]
fn test_carrying_sub() {
    let a_0 = LimbInt64::from([1u32, 1u32]);
    let b_0 = LimbInt64::from([1u32, 0u32]);
    let (res_0, c_0) = a_0.carrying_sub(b_0, false);

    assert!(res_0 == LimbInt64::from([0u32, 1u32]));
    assert_eq!(c_0, false);
    assert_eq!(to_u64(&res_0), to_u64(&a_0) - to_u64(&b_0));

    let a = LimbInt64::from([0, 0]);
    let b = LimbInt64::from([500u32, 0u32]);
    let (res, carry) = a.carrying_sub(b, false);
    let (real_add, c) = to_u64(&a).sub_carry(to_u64(&b), false);
    assert_eq!(real_add, to_u64(&res));
    assert_eq!(carry, c);
}

#[test]
fn test_carrying_mul() {
    let a_0 = LimbInt64::from([1u32, 1u32]);
    let b_0 = LimbInt64::from([1u32, 0u32]);
    let (res_0, c_0) = a_0.carrying_mul(b_0, LimbInt64::zero());

    assert!(res_0 == LimbInt64::from([1u32, 1u32]));
    assert!(c_0 == LimbInt64::zero());

    let real_res = to_u64(&a_0) * to_u64(&b_0);
    assert_eq!(real_res, to_u64(&res_0));

    let a = LimbInt64::from([1000, u32::MAX]);
    let b = LimbInt64::from([100u32, 0u32]);
    let (res, carry) = a.carrying_mul(b, LimbInt64::zero());
    let (real_add, c) = to_u64(&a).mul_carry(to_u64(&b), 0);
    assert_eq!(real_add, to_u64(&res));
    assert_eq!(to_u64(&carry), c);

    // compare with biguint
    let a_array = [1, 2, 400, 10000, 5, 7, 7, u32::MAX];
    let b_array = [5, 199, u32::MAX, u32::MAX, 5, 7, 7, 10];
    let a = LimbInt::<u32, 8>::from(a_array);
    let b = LimbInt::<u32, 8>::from(b_array);
    let a_big = BigUint::from_slice(&a_array);
    let b_big = BigUint::from_slice(&b_array);

    let (res, carry) = a.carrying_mul(b, LimbInt::<u32, 8>::zero());
    let res_big = a_big * b_big;
    let modulus = BigUint::from_slice(&[
        u32::MAX,
        u32::MAX,
        u32::MAX,
        u32::MAX,
        u32::MAX,
        u32::MAX,
        u32::MAX,
        u32::MAX,
    ]) + 1 as u32;

    assert_eq!(res.limbs.as_slice(), (&res_big % &modulus).to_u32_digits());
    assert_eq!(carry.limbs.as_slice(), (&res_big / &modulus).to_u32_digits());
}

#[test]
fn test_mul_by_limb() {
    let a = LimbInt64::from([1000, u32::MAX]);
    let b = 100u32;
    let b_int = LimbInt64::single_power(b, 0);
    let (res, carry) = a.mul_by_limb(b);
    let (res_big, carry_big) = a.carrying_mul(b_int, LimbInt64::zero());
    assert!(res == res_big);
    assert!(carry_big == LimbInt64::single_power(carry, 0));
}

#[test]
fn test_mul_by_limb_shift() {
    let a = LimbInt64::from([29394944, u32::MAX]);
    let b = 100u32;
    let i = 1;
    let b_int = LimbInt64::single_power(b, i);
    let (res, carry) = a.mul_by_limb_shift(b, i);
    let (res_big, carry_big) = a.carrying_mul(b_int, LimbInt64::zero());
    assert!(res == res_big);
    assert!(carry == carry_big);
}

#[test]
fn test_equality() {
    let a = LimbInt64::from([1000, u32::MAX]);
    let b = LimbInt64::from([1000, u32::MAX]);
    assert!(a == b);
}

#[test]
fn test_bigint() {
    let mut rng = rand::thread_rng();

    // test for u_32
    let a = LimbInt::<u32, 7>::from([
        rng.gen(),
        rng.gen(),
        rng.gen(),
        rng.gen(),
        rng.gen(),
        rng.gen(),
        rng.gen(),
    ]);

    let b = LimbInt::<u32, 7>::from([
        rng.gen(),
        rng.gen(),
        rng.gen(),
        rng.gen(),
        rng.gen(),
        rng.gen(),
        rng.gen(),
    ]);

    assert!(a != b);

    let (product_l, product_r) = a.carrying_mul(b, LimbInt::<u32, 7>::zero());

    let product: Vec<u32> =
        product_l.limbs.into_iter().chain(product_r.limbs.into_iter()).collect();

    let n_a = BigUint::from_slice(&a.limbs);
    let n_b = BigUint::from_slice(&b.limbs);
    let n_p = BigUint::from_slice(&product);

    assert_eq!(n_p, n_a * n_b);

    //  test for u64
    let c = LimbInt::<u64, 4>::from([rng.gen(), rng.gen(), rng.gen(), rng.gen()]);

    let d = LimbInt::<u64, 4>::from([rng.gen(), rng.gen(), rng.gen(), rng.gen()]);

    assert!(c != d);

    let (product_l, product_r) = c.carrying_mul(d, LimbInt::<u64, 4>::zero());

    let product: Vec<u64> =
        product_l.limbs.into_iter().chain(product_r.limbs.into_iter()).collect();

    let n_c = big_int_from_u64(&c.limbs);
    let n_d = big_int_from_u64(&d.limbs);
    let n_prod = big_int_from_u64(&product);

    assert_eq!(n_prod, n_c * n_d);
}
