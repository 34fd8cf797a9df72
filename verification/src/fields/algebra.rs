//! The algebra of a prime field: what holds of the operations on
//! well-formed elements.
//!
//! The value of a sum, a difference, a product or a negative is congruent
//! to the sum, difference, product or negative of the values; everything
//! else follows from the arithmetic of the integers.

use vstd::prelude::*;
use super::Field;
use super::PrimeField;
use super::abstract_operations::PrimeFieldOperations;
use crate::biginteger::int_val;
use super::Zero;
use super::One;
use super::f_add;
use super::f_sub;
use super::f_neg;
use super::f_mul;
use super::f_inv;
use super::f_pow;
use super::f_div;
use super::invertible;
use super::fermat::is_prime;
use super::fermat::lemma_inverse_by_power;
use super::fermat::lemma_zero_not_invertible;
use super::modular::mod_pow;
use super::modular::congruent;
use super::modular::lemma_congruent_mod;
use super::modular::lemma_congruent_add;
use super::modular::lemma_congruent_mul;
use super::modular::lemma_congruent_residues;

verus! {

/// The value of an element as an integer.
pub open spec fn val<F: Field>(a: F) -> int {
    a.value() as int
}

/// The order of the field as an integer.
pub open spec fn order<F: Field>() -> int {
    F::modulus() as int
}

/// The value of a sum is the residue of the sum of the values.
pub proof fn lemma_add_value<F: Field>(a: F, b: F)
    requires
        F::valid(),
    ensures
        f_add(a, b).wf(),
        0 <= val(f_add(a, b)) < order::<F>(),
        congruent(val(f_add(a, b)), val(a) + val(b), order::<F>()),
{
    F::lemma_field();
    lemma_congruent_mod(val(a) + val(b), order::<F>());
    F::lemma_from_value(((val(a) + val(b)) % order::<F>()) as nat);
}

/// The value of a difference is the residue of the difference of the
/// values.
pub proof fn lemma_sub_value<F: Field>(a: F, b: F)
    requires
        F::valid(),
    ensures
        f_sub(a, b).wf(),
        0 <= val(f_sub(a, b)) < order::<F>(),
        congruent(val(f_sub(a, b)), val(a) - val(b), order::<F>()),
{
    F::lemma_field();
    lemma_congruent_mod(val(a) - val(b), order::<F>());
    F::lemma_from_value(((val(a) - val(b)) % order::<F>()) as nat);
}

/// The value of a negative is the residue of the negative of the value.
pub proof fn lemma_neg_value<F: Field>(a: F)
    requires
        F::valid(),
    ensures
        f_neg(a).wf(),
        0 <= val(f_neg(a)) < order::<F>(),
        congruent(val(f_neg(a)), -val(a), order::<F>()),
{
    F::lemma_field();
    lemma_congruent_mod(0 - val(a), order::<F>());
    F::lemma_from_value(((0 - val(a)) % order::<F>()) as nat);
}

/// The value of a product is the residue of the product of the values.
pub proof fn lemma_mul_value<F: Field>(a: F, b: F)
    requires
        F::valid(),
    ensures
        f_mul(a, b).wf(),
        0 <= val(f_mul(a, b)) < order::<F>(),
        congruent(val(f_mul(a, b)), val(a) * val(b), order::<F>()),
{
    F::lemma_field();
    lemma_congruent_mod(val(a) * val(b), order::<F>());
    F::lemma_from_value(((val(a) * val(b)) % order::<F>()) as nat);
    assert(val(a) * val(b) >= 0) by (nonlinear_arith)
        requires
            val(a) >= 0,
            val(b) >= 0,
    ;
}

/// The values of 0 and 1.
pub proof fn lemma_zero_one_value<F: Field>()
    requires
        F::valid(),
    ensures
        F::zero_spec().wf(),
        F::one_spec().wf(),
        val(F::zero_spec()) == 0,
        val(F::one_spec()) == 1,
{
    F::lemma_field();
    F::lemma_from_value(0);
    F::lemma_from_value(1);
}

/// Two well-formed elements with congruent values are equal.
pub proof fn lemma_equal_by_value<F: Field>(a: F, b: F)
    requires
        F::valid(),
        a.wf(),
        b.wf(),
        congruent(val(a), val(b), order::<F>()),
    ensures
        a == b,
{
    F::lemma_field();
    a.lemma_value();
    b.lemma_value();
    lemma_congruent_residues(val(a), val(b), order::<F>());
}

/// Addition is commutative: `a + b = b + a`.
pub proof fn lemma_add_commutative<F: Field>(a: F, b: F)
    ensures
        f_add(a, b) == f_add(b, a),
{
}

/// Multiplication is commutative: `a * b = b * a`.
pub proof fn lemma_mul_commutative<F: Field>(a: F, b: F)
    ensures
        f_mul(a, b) == f_mul(b, a),
{
    assert(a.value() * b.value() == b.value() * a.value()) by (nonlinear_arith);
}

/// Addition is associative: `(a + b) + c = a + (b + c)`.
pub proof fn lemma_add_associative<F: Field>(a: F, b: F, c: F)
    requires
        F::valid(),
    ensures
        f_add(f_add(a, b), c) == f_add(a, f_add(b, c)),
{
    let p = order::<F>();
    F::lemma_field();
    lemma_add_value(a, b);
    lemma_add_value(b, c);
    lemma_add_value(f_add(a, b), c);
    lemma_add_value(a, f_add(b, c));
    lemma_congruent_mod(val(c), p);
    lemma_congruent_mod(val(a), p);
    lemma_congruent_add(val(f_add(a, b)), val(a) + val(b), val(c), val(c), p);
    lemma_congruent_add(val(a), val(a), val(f_add(b, c)), val(b) + val(c), p);
    lemma_equal_by_value(f_add(f_add(a, b), c), f_add(a, f_add(b, c)));
}

/// Multiplication is associative: `(a * b) * c = a * (b * c)`.
pub proof fn lemma_mul_associative<F: Field>(a: F, b: F, c: F)
    requires
        F::valid(),
    ensures
        f_mul(f_mul(a, b), c) == f_mul(a, f_mul(b, c)),
{
    let p = order::<F>();
    F::lemma_field();
    lemma_mul_value(a, b);
    lemma_mul_value(b, c);
    lemma_mul_value(f_mul(a, b), c);
    lemma_mul_value(a, f_mul(b, c));
    lemma_congruent_mul(val(f_mul(a, b)), val(a) * val(b), val(c), val(c), p);
    lemma_congruent_mul(val(a), val(a), val(f_mul(b, c)), val(b) * val(c), p);
    assert((val(a) * val(b)) * val(c) == val(a) * (val(b) * val(c))) by (nonlinear_arith);
    lemma_equal_by_value(f_mul(f_mul(a, b), c), f_mul(a, f_mul(b, c)));
}

/// Multiplication distributes over addition:
/// `a * (b + c) = a * b + a * c`.
pub proof fn lemma_distributive<F: Field>(a: F, b: F, c: F)
    requires
        F::valid(),
    ensures
        f_mul(a, f_add(b, c)) == f_add(f_mul(a, b), f_mul(a, c)),
{
    let p = order::<F>();
    F::lemma_field();
    lemma_add_value(b, c);
    lemma_mul_value(a, f_add(b, c));
    lemma_mul_value(a, b);
    lemma_mul_value(a, c);
    lemma_add_value(f_mul(a, b), f_mul(a, c));
    lemma_congruent_mul(val(a), val(a), val(f_add(b, c)), val(b) + val(c), p);
    lemma_congruent_add(val(f_mul(a, b)), val(a) * val(b), val(f_mul(a, c)), val(a) * val(c), p);
    assert(val(a) * (val(b) + val(c)) == val(a) * val(b) + val(a) * val(c)) by (nonlinear_arith);
    lemma_equal_by_value(f_mul(a, f_add(b, c)), f_add(f_mul(a, b), f_mul(a, c)));
}

/// 0 is neutral for addition: `a + 0 = a`.
pub proof fn lemma_add_zero<F: Field>(a: F)
    requires
        F::valid(),
        a.wf(),
    ensures
        f_add(a, F::zero_spec()) == a,
{
    lemma_zero_one_value::<F>();
    lemma_add_value(a, F::zero_spec());
    lemma_equal_by_value(f_add(a, F::zero_spec()), a);
}

/// 1 is neutral for multiplication: `a * 1 = a`.
pub proof fn lemma_mul_one<F: Field>(a: F)
    requires
        F::valid(),
        a.wf(),
    ensures
        f_mul(a, F::one_spec()) == a,
{
    lemma_zero_one_value::<F>();
    lemma_mul_value(a, F::one_spec());
    assert(val(a) * 1 == val(a));
    lemma_equal_by_value(f_mul(a, F::one_spec()), a);
}

/// The negative is the inverse for addition: `a + (-a) = 0`.
pub proof fn lemma_add_negative<F: Field>(a: F)
    requires
        F::valid(),
    ensures
        f_add(a, f_neg(a)) == F::zero_spec(),
{
    let p = order::<F>();
    F::lemma_field();
    lemma_zero_one_value::<F>();
    lemma_neg_value(a);
    lemma_add_value(a, f_neg(a));
    lemma_congruent_mod(val(a), p);
    lemma_congruent_add(val(a), val(a), val(f_neg(a)), -val(a), p);
    lemma_equal_by_value(f_add(a, f_neg(a)), F::zero_spec());
}

/// Subtracting is adding the negative: `a - b = a + (-b)`.
pub proof fn lemma_sub_is_add_negative<F: Field>(a: F, b: F)
    requires
        F::valid(),
    ensures
        f_sub(a, b) == f_add(a, f_neg(b)),
{
    let p = order::<F>();
    F::lemma_field();
    lemma_neg_value(b);
    lemma_sub_value(a, b);
    lemma_add_value(a, f_neg(b));
    lemma_congruent_mod(val(a), p);
    lemma_congruent_add(val(a), val(a), val(f_neg(b)), -val(b), p);
    lemma_equal_by_value(f_sub(a, b), f_add(a, f_neg(b)));
}

/// The value of a power is the residue of the power of the value.
pub proof fn lemma_pow_value<F: Field>(a: F, e: nat)
    requires
        F::valid(),
    ensures
        f_pow(a, e).wf(),
        f_pow(a, e).value() == mod_pow(a.value(), e, F::modulus()),
{
    F::lemma_field();
    vstd::arithmetic::div_mod::lemma_mod_bound(
        vstd::arithmetic::power::pow(val(a), e),
        order::<F>(),
    );
    F::lemma_from_value(mod_pow(a.value(), e, F::modulus()));
}

/// In a field of prime order every element but 0 has an inverse, which is
/// what `inverse` returns: `a * a^(-1) = 1`.
pub proof fn lemma_mul_inverse<F: Field>(a: F)
    requires
        F::valid(),
        is_prime(F::modulus()),
        a.wf(),
        a.value() != 0,
    ensures
        invertible(a),
        f_mul(a, f_inv(a)) == F::one_spec(),
        f_div(a, a) == F::one_spec(),
{
    F::lemma_field();
    a.lemma_value();
    lemma_inverse_by_power(F::modulus(), a.value());
    lemma_pow_value(a, (F::modulus() - 2) as nat);
}

/// In a field of prime order above 2 exactly the element 0 has no
/// inverse.
pub proof fn lemma_invertible_iff_nonzero<F: Field>(a: F)
    requires
        F::valid(),
        is_prime(F::modulus()),
        F::modulus() > 2,
        a.wf(),
    ensures
        invertible(a) <==> a.value() != 0,
{
    if a.value() != 0 {
        lemma_mul_inverse(a);
    } else {
        lemma_zero_not_invertible(F::modulus());
    }
}

/// Reading an element as an integer and making an element of that
/// integer gives the element back: `from_int(as_int(x)) = x`.
pub proof fn lemma_int_round_trip<F: PrimeField>(x: F, n: F::BigInteger)
    requires
        F::valid(),
        x.wf(),
        int_val(&n) == x.value(),
    ensures
        F::from_value(int_val(&n) % F::modulus()) == x,
{
    x.lemma_value();
    vstd::arithmetic::div_mod::lemma_small_mod(x.value(), F::modulus());
}

/// The round trip on representatives: where `n` is what `as_int` returns
/// for `x`, `r` what `reduce` returns for `n`, and `m` what `as_int`
/// returns for `r`, then `r` is `x` and `m` stands for the same integer as
/// `n`: `as_int(reduce(as_int(x))) = as_int(x)`.
pub proof fn lemma_reduce_as_int<S: PrimeFieldOperations>(
    x: S::BigInt,
    n: S::BigInt,
    r: S::BigInt,
    m: S::BigInt,
)
    requires
        S::valid(),
        S::wf(x),
        int_val(&n) == S::value(x),
        S::wf(r),
        S::value(r) == int_val(&n) % S::modulus(),
        int_val(&m) == S::value(r),
    ensures
        r == x,
        int_val(&m) == int_val(&n),
{
    S::lemma_value(x);
    S::lemma_value(r);
    vstd::arithmetic::div_mod::lemma_small_mod(S::value(x), S::modulus());
}

} // verus!
