//! The strategy interface of a prime field, and the field element type that
//! is generic over it.

pub mod arithmetic;
pub mod exponentiation;
pub mod inversion;

use vstd::prelude::*;
use vstd::arithmetic::power::pow;
use crate::biginteger::Integer;
use crate::biginteger::Bits;
use crate::biginteger::int_val;
use crate::biginteger::be_bits_val;
use crate::biginteger::lemma_be_bits_push;
use super::modular::mod_add;
use super::modular::mod_sub;
use super::modular::mod_neg;
use super::modular::mod_mul;
use super::modular::mod_pow;
use super::modular::lemma_mod_pow_step;
use super::modular::lemma_mod_pow_zero;
use super::modular::lemma_mod_neg_two;
use super::Zero;
use super::One;
use super::Field;
use super::PrimeField;
use super::f_sum;
use super::f_product;
use vstd::std_specs::cmp::PartialEqSpecImpl;

verus! {

/// How the elements of a prime field are stored and computed with.
///
/// An element is stored as a big integer, its representative. The strategy
/// says which representatives are canonical (`wf`), which element of
/// `0 .. modulus()` a representative stands for (`value`), and computes on
/// representatives. All functions ask for constants that are `valid()`.
pub trait PrimeFieldOperations {
    type BigInt: Integer + Copy;

    /// Whether the constants of the strategy are consistent.
    spec fn valid() -> bool;

    /// The order `p` of the field.
    spec fn modulus() -> nat;

    /// Whether a big integer is the canonical representative of an element.
    spec fn wf(element: Self::BigInt) -> bool;

    /// The element that a representative stands for, in `0 .. p`.
    spec fn value(element: Self::BigInt) -> nat;

    /// The canonical representative of an element.
    spec fn encode(value: nat) -> Self::BigInt;

    /// The order is at least 2.
    proof fn lemma_modulus()
        requires
            Self::valid(),
        ensures
            Self::modulus() >= 2,
    ;

    /// A canonical representative stands for an element below `p`, and is
    /// the only canonical representative of it.
    proof fn lemma_value(element: Self::BigInt)
        requires
            Self::valid(),
            Self::wf(element),
        ensures
            Self::value(element) < Self::modulus(),
            Self::encode(Self::value(element)) == element,
    ;

    /// Every element below `p` has a canonical representative.
    proof fn lemma_encode(value: nat)
        requires
            Self::valid(),
            value < Self::modulus(),
        ensures
            Self::wf(Self::encode(value)),
            Self::value(Self::encode(value)) == value,
    ;

    /// The number of bits of a big integer, the same for all of them.
    spec fn int_bits() -> nat;

    /// The order `p` as a big integer.
    fn modulus_int() -> (r: Self::BigInt)
        requires
            Self::valid(),
        ensures
            int_val(&r) == Self::modulus(),
    ;

    /// The representative of 0.
    fn zero() -> (r: Self::BigInt)
        requires
            Self::valid(),
        ensures
            Self::wf(r),
            Self::value(r) == 0,
    ;

    /// The representative of 1.
    fn one() -> (r: Self::BigInt)
        requires
            Self::valid(),
        ensures
            Self::wf(r),
            Self::value(r) == 1,
    ;

    /// From a representative to the integer in `0 .. p` it stands for.
    fn as_int(element: &Self::BigInt) -> (r: Self::BigInt)
        requires
            Self::valid(),
            Self::wf(*element),
        ensures
            int_val(&r) == Self::value(*element),
            crate::biginteger::int_bits(&r) == Self::int_bits(),
    ;

    /// From any integer to the representative of its residue modulo `p`.
    fn reduce(element: &Self::BigInt) -> (r: Self::BigInt)
        requires
            Self::valid(),
        ensures
            Self::wf(r),
            Self::value(r) == int_val(element) % Self::modulus(),
    ;

    /// Whether the representative stands for 0.
    fn is_zero(element: &Self::BigInt) -> (r: bool)
        requires
            Self::valid(),
            Self::wf(*element),
        ensures
            r == (Self::value(*element) == 0),
    ;

    /// What an accepted candidate of rejection sampling is turned into.
    spec fn sampled(candidate: Self::BigInt) -> Self::BigInt;

    /// A candidate below `p` is turned into the canonical representative
    /// of the element that it stands for as an integer.
    proof fn lemma_sampled(candidate: Self::BigInt)
        requires
            Self::valid(),
            int_val(&candidate) < Self::modulus(),
        ensures
            Self::wf(Self::sampled(candidate)),
            Self::value(Self::sampled(candidate)) == int_val(&candidate),
    ;

    /// The acceptance test of rejection sampling: a candidate drawn
    /// uniformly from all big integers is accepted when it is at most `p`,
    /// and then turned into a representative. A candidate equal to `p` is
    /// accepted; whether what comes out is canonical then depends on the
    /// strategy.
    fn sample(candidate: &Self::BigInt) -> (r: Option<Self::BigInt>)
        requires
            Self::valid(),
        ensures
            r == (if int_val(candidate) <= Self::modulus() {
                Some(Self::sampled(*candidate))
            } else {
                None
            }),
    ;

    /// Whether a big integer is a canonical representative.
    fn is_canonical(element: &Self::BigInt) -> (r: bool)
        requires
            Self::valid(),
        ensures
            r == Self::wf(*element),
    ;

    /// Whether two representatives stand for the same element: their
    /// difference is 0.
    fn equals(lhs: &Self::BigInt, rhs: &Self::BigInt) -> (r: bool)
        requires
            Self::valid(),
            Self::wf(*lhs),
            Self::wf(*rhs),
        ensures
            r == (Self::value(*lhs) == Self::value(*rhs)),
            r == (*lhs == *rhs),
    {
        let mut res = *lhs;
        Self::sub_assign(&mut res, rhs);
        let r = Self::is_zero(&res);
        proof {
            Self::lemma_value(*lhs);
            Self::lemma_value(*rhs);
            Self::lemma_modulus();
            let p = Self::modulus() as int;
            let a = Self::value(*lhs) as int;
            let b = Self::value(*rhs) as int;
            if a >= b {
                vstd::arithmetic::div_mod::lemma_small_mod((a - b) as nat, p as nat);
            } else {
                super::modular::lemma_mod_add_multiple(a - b, 1, p);
                vstd::arithmetic::div_mod::lemma_small_mod((a - b + p) as nat, p as nat);
            }
        }
        r
    }

    /// `lhs = lhs + other`.
    fn add_assign(lhs: &mut Self::BigInt, other: &Self::BigInt)
        requires
            Self::valid(),
            Self::wf(*old(lhs)),
            Self::wf(*other),
        ensures
            Self::wf(*final(lhs)),
            Self::value(*final(lhs)) == mod_add(
                Self::value(*old(lhs)),
                Self::value(*other),
                Self::modulus(),
            ),
    ;

    /// `lhs = lhs - other`.
    fn sub_assign(lhs: &mut Self::BigInt, other: &Self::BigInt)
        requires
            Self::valid(),
            Self::wf(*old(lhs)),
            Self::wf(*other),
        ensures
            Self::wf(*final(lhs)),
            Self::value(*final(lhs)) == mod_sub(
                Self::value(*old(lhs)),
                Self::value(*other),
                Self::modulus(),
            ),
    ;

    /// `element = -element`, computed as `0 - element`.
    fn negation_in_place(element: &mut Self::BigInt)
        requires
            Self::valid(),
            Self::wf(*old(element)),
        ensures
            Self::wf(*final(element)),
            Self::value(*final(element)) == mod_neg(Self::value(*old(element)), Self::modulus()),
    {
        let mut res = Self::zero();
        Self::sub_assign(&mut res, element);
        *element = res;
    }

    /// `lhs = lhs * other`.
    fn mul_assign(lhs: &mut Self::BigInt, other: &Self::BigInt)
        requires
            Self::valid(),
            Self::wf(*old(lhs)),
            Self::wf(*other),
        ensures
            Self::wf(*final(lhs)),
            Self::value(*final(lhs)) == mod_mul(
                Self::value(*old(lhs)),
                Self::value(*other),
                Self::modulus(),
            ),
    ;

    /// `element = element * element`.
    fn square_assign(element: &mut Self::BigInt)
        requires
            Self::valid(),
            Self::wf(*old(element)),
        ensures
            Self::wf(*final(element)),
            Self::value(*final(element)) == mod_mul(
                Self::value(*old(element)),
                Self::value(*old(element)),
                Self::modulus(),
            ),
    {
        let other = *element;
        Self::mul_assign(element, &other);
    }

    /// `element = element + element`.
    fn double_assign(element: &mut Self::BigInt)
        requires
            Self::valid(),
            Self::wf(*old(element)),
        ensures
            Self::wf(*final(element)),
            Self::value(*final(element)) == mod_add(
                Self::value(*old(element)),
                Self::value(*old(element)),
                Self::modulus(),
            ),
    {
        let other = *element;
        Self::add_assign(element, &other);
    }

    /// The power `element^(p-2)`, which for a prime `p` is the inverse of a
    /// nonzero element; `None` where that power is 0.
    fn inverse(element: &Self::BigInt) -> (r: Option<Self::BigInt>)
        requires
            Self::valid(),
            Self::wf(*element),
        ensures
            r is None <==> mod_pow(
                Self::value(*element),
                (Self::modulus() - 2) as nat,
                Self::modulus(),
            ) == 0,
            r matches Some(x) ==> Self::wf(x) && Self::value(x) == mod_pow(
                Self::value(*element),
                (Self::modulus() - 2) as nat,
                Self::modulus(),
            ),
    {
        let mut modulus_minus_two = Self::one();
        let one = Self::one();
        Self::add_assign(&mut modulus_minus_two, &one);
        Self::negation_in_place(&mut modulus_minus_two);
        let power = Self::as_int(&modulus_minus_two);
        proof {
            Self::lemma_modulus();
            lemma_mod_neg_two(Self::modulus());
        }
        let res = Self::exp(element, &power);
        if Self::is_zero(&res) {
            None
        } else {
            Some(res)
        }
    }

    /// `element^exp`, by a ladder over the bits of `exp` from the most
    /// significant down. Each bit costs one multiplication and one squaring,
    /// whatever its value; the number of steps is the bit length of the
    /// type of `exp`.
    fn exp<E: Integer>(element: &Self::BigInt, exp: &E) -> (r: Self::BigInt)
        requires
            Self::valid(),
            Self::wf(*element),
        ensures
            Self::wf(r),
            Self::value(r) == mod_pow(Self::value(*element), int_val(exp), Self::modulus()),
    {
        let mut res = Self::one();
        let mut base = *element;
        let bits = Bits::into_iter_be(exp);
        let ghost x = Self::value(*element);
        let ghost p = Self::modulus();
        let mut k: usize = 0;
        proof {
            Self::lemma_modulus();
            Self::lemma_value(*element);
            assert(bits@.take(0).len() == 0);
            lemma_mod_pow_zero(x, p);
        }
        while k < bits.len()
            invariant
                k <= bits@.len(),
                Self::valid(),
                p == Self::modulus(),
                p >= 2,
                x < p,
                Self::wf(res),
                Self::wf(base),
                Self::value(res) == mod_pow(x, be_bits_val(bits@.take(k as int)), p),
                Self::value(base) == mod_pow(x, be_bits_val(bits@.take(k as int)) + 1, p),
            decreases bits@.len() - k,
        {
            let bit = bits[k];
            proof {
                let e = be_bits_val(bits@.take(k as int));
                assert(bits@.take(k + 1) =~= bits@.take(k as int).push(bits@[k as int]));
                lemma_be_bits_push(bits@.take(k as int), bits@[k as int]);
                lemma_mod_pow_step(x, e, e + 1, p);
                lemma_mod_pow_step(x, e + 1, e + 1, p);
                lemma_mod_pow_step(x, e + 1, e, p);
                lemma_mod_pow_step(x, e, e, p);
            }
            if bit {
                Self::mul_assign(&mut res, &base);
                Self::square_assign(&mut base);
            } else {
                Self::mul_assign(&mut base, &res);
                Self::square_assign(&mut res);
            }
            k += 1;
        }
        proof {
            assert(bits@.take(bits@.len() as int) =~= bits@);
        }
        res
    }
}

/// An element of the prime field whose arithmetic is the strategy `S`.
///
/// It holds one big integer, the canonical representative of the element.
/// That the constants of `S` are valid and the representative canonical is
/// an invariant of the type: the constructors ask for it and every
/// operation keeps it.
pub struct F<S: PrimeFieldOperations> {
    element: S::BigInt,
}

impl<S: PrimeFieldOperations> Clone for F<S> {
    fn clone(&self) -> (r: Self)
        ensures
            r == *self,
    {
        *self
    }
}

impl<S: PrimeFieldOperations> Copy for F<S> {

}

impl<S: PrimeFieldOperations> F<S> {
    #[verifier::type_invariant]
    pub closed spec fn inv(self) -> bool {
        S::valid() && S::wf(self.element)
    }

    /// The big integer that the element is stored as.
    pub closed spec fn repr(self) -> S::BigInt {
        self.element
    }

    /// The element stored as the given big integer, which must be the
    /// canonical representative of an element. This is for writing down
    /// constants; `from_int` takes any integer.
    #[inline]
    #[allow(non_snake_case)]
    pub fn from_RAW_limbs(element: S::BigInt) -> (r: Self)
        requires
            S::valid(),
            S::wf(element),
        ensures
            r.repr() == element,
            r.wf(),
            r.value() == S::value(element),
    {
        Self { element }
    }

    /// The big integer that the element is stored as.
    pub fn into_raw(&self) -> (r: S::BigInt)
        ensures
            r == self.repr(),
            S::valid(),
            S::wf(r),
    {
        proof {
            use_type_invariant(self);
        }
        self.element
    }

    /// The sum of the elements.
    pub fn sum(items: &[Self]) -> (r: Self)
        requires
            S::valid(),
        ensures
            r == f_sum(items@, items@.len()),
    {
        let mut acc = Self::zero();
        let mut i: usize = 0;
        while i < items.len()
            invariant
                i <= items@.len(),
                acc == f_sum(items@, i as nat),
            decreases items@.len() - i,
        {
            acc = acc.plus(&items[i]);
            i += 1;
        }
        acc
    }

    /// The product of the elements.
    pub fn product(items: &[Self]) -> (r: Self)
        requires
            S::valid(),
        ensures
            r == f_product(items@, items@.len()),
    {
        let mut acc = Self::one();
        let mut i: usize = 0;
        while i < items.len()
            invariant
                i <= items@.len(),
                acc == f_product(items@, i as nat),
            decreases items@.len() - i,
        {
            acc = acc.times(&items[i]);
            i += 1;
        }
        acc
    }

    /// The acceptance test of rejection sampling, for a candidate whose
    /// limbs were drawn uniformly at random: candidates above the order are
    /// refused, as is a candidate that the strategy accepts without bringing
    /// it into canonical form.
    pub fn sample(candidate: &S::BigInt) -> (r: Option<Self>)
        requires
            S::valid(),
        ensures
            r is Some <==> int_val(candidate) <= S::modulus() && S::wf(S::sampled(*candidate)),
            r matches Some(x) ==> x.repr() == S::sampled(*candidate),
            int_val(candidate) < S::modulus() ==> r is Some && r->0.value() == int_val(candidate),
    {
        proof {
            if int_val(candidate) < S::modulus() {
                S::lemma_sampled(*candidate);
            }
        }
        match S::sample(candidate) {
            Some(element) => {
                if S::is_canonical(&element) {
                    Some(Self { element })
                } else {
                    None
                }
            },
            None => None,
        }
    }
}

impl<S: PrimeFieldOperations> Zero for F<S> {
    open spec fn zero_defined() -> bool {
        S::valid()
    }

    closed spec fn zero_spec() -> Self {
        F { element: S::encode(0) }
    }

    fn zero() -> (r: Self) {
        let element = S::zero();
        proof {
            S::lemma_value(element);
        }
        Self::from_RAW_limbs(element)
    }
}

impl<S: PrimeFieldOperations> One for F<S> {
    open spec fn one_defined() -> bool {
        S::valid()
    }

    closed spec fn one_spec() -> Self {
        F { element: S::encode(1) }
    }

    fn one() -> (r: Self) {
        let element = S::one();
        proof {
            S::lemma_value(element);
        }
        Self::from_RAW_limbs(element)
    }
}

impl<S: PrimeFieldOperations> Field for F<S> {
    open spec fn valid() -> bool {
        S::valid()
    }

    open spec fn modulus() -> nat {
        S::modulus()
    }

    closed spec fn wf(self) -> bool {
        S::wf(self.element)
    }

    closed spec fn value(self) -> nat {
        S::value(self.element)
    }

    closed spec fn from_value(value: nat) -> Self {
        F { element: S::encode(value) }
    }

    proof fn lemma_field() {
        S::lemma_modulus();
    }

    proof fn lemma_value(self) {
        S::lemma_value(self.element);
    }

    proof fn lemma_from_value(value: nat) {
        S::lemma_encode(value);
    }

    fn check(&self) {
        proof {
            use_type_invariant(self);
        }
    }

    fn plus(&self, rhs: &Self) -> (r: Self) {
        proof {
            use_type_invariant(self);
            use_type_invariant(rhs);
        }
        let mut element = self.element;
        S::add_assign(&mut element, &rhs.element);
        proof {
            S::lemma_value(element);
        }
        Self { element }
    }

    fn minus(&self, rhs: &Self) -> (r: Self) {
        proof {
            use_type_invariant(self);
            use_type_invariant(rhs);
        }
        let mut element = self.element;
        S::sub_assign(&mut element, &rhs.element);
        proof {
            S::lemma_value(element);
        }
        Self { element }
    }

    fn times(&self, rhs: &Self) -> (r: Self) {
        proof {
            use_type_invariant(self);
            use_type_invariant(rhs);
        }
        let mut element = self.element;
        S::mul_assign(&mut element, &rhs.element);
        proof {
            S::lemma_value(element);
        }
        Self { element }
    }

    fn negated(&self) -> (r: Self) {
        proof {
            use_type_invariant(self);
        }
        let mut element = self.element;
        S::negation_in_place(&mut element);
        proof {
            S::lemma_value(element);
        }
        Self { element }
    }

    fn divided_by(&self, rhs: &Self) -> (r: Self) {
        proof {
            use_type_invariant(self);
            use_type_invariant(rhs);
        }
        let inverse = S::inverse(&rhs.element).unwrap();
        let mut element = self.element;
        S::mul_assign(&mut element, &inverse);
        proof {
            S::lemma_value(element);
            S::lemma_modulus();
            vstd::arithmetic::div_mod::lemma_mod_bound(
                pow(S::value(rhs.element) as int, (S::modulus() - 2) as nat),
                S::modulus() as int,
            );
            S::lemma_encode(S::value(inverse));
        }
        Self { element }
    }

    fn equals(&self, rhs: &Self) -> (r: bool) {
        proof {
            use_type_invariant(self);
            use_type_invariant(rhs);
        }
        S::equals(&self.element, &rhs.element)
    }

    fn is_zero(&self) -> (r: bool) {
        proof {
            use_type_invariant(self);
        }
        S::is_zero(&self.element)
    }

    fn inverse(&self) -> (r: Option<Self>) {
        proof {
            use_type_invariant(self);
        }
        match S::inverse(&self.element) {
            Some(element) => {
                proof {
                    S::lemma_value(element);
                }
                Some(Self { element })
            },
            None => None,
        }
    }

    fn square_in_place(&mut self) {
        proof {
            use_type_invariant(&*self);
        }
        let mut element = self.element;
        S::square_assign(&mut element);
        proof {
            S::lemma_value(element);
        }
        self.element = element;
    }

    fn double_in_place(&mut self) {
        proof {
            use_type_invariant(&*self);
        }
        let mut element = self.element;
        S::double_assign(&mut element);
        proof {
            S::lemma_value(element);
        }
        self.element = element;
    }

    fn pow(&self, exp: u64) -> (r: Self) {
        proof {
            use_type_invariant(self);
        }
        let mut res = S::one();
        let base = self.element;
        let mut rem: u64 = exp;
        let mut weight: u64 = 0x8000_0000_0000_0000;
        let ghost mut span: int = 0x1_0000_0000_0000_0000;
        let ghost mut e: nat = 0;
        let ghost mut k: nat = 63;
        let ghost x = S::value(self.element);
        let ghost p = S::modulus();
        proof {
            S::lemma_modulus();
            S::lemma_value(self.element);
            lemma_mod_pow_zero(x, p);
            vstd::arithmetic::power2::lemma2_to64_rest();
        }
        while weight > 0
            invariant
                S::valid(),
                S::wf(res),
                S::wf(base),
                x == S::value(base),
                p == S::modulus(),
                p >= 2,
                x < p,
                e * span + rem == exp,
                0 <= rem < span,
                weight > 0 ==> span == 2 * weight && weight == vstd::arithmetic::power2::pow2(k),
                weight == 0 ==> span == 1,
                S::value(res) == mod_pow(x, e, p),
            decreases weight,
        {
            let bit = rem >= weight;
            S::square_assign(&mut res);
            proof {
                lemma_mod_pow_step(x, e, e, p);
                lemma_mod_pow_step(x, e + e, 1, p);
                lemma_mod_pow_zero(x, p);
            }
            if bit {
                S::mul_assign(&mut res, &base);
                rem = rem - weight;
            }
            proof {
                let b: nat = if bit { 1 } else { 0 };
                let wt = weight as int;
                assert((2 * e + b) * wt == e * (2 * wt) + b * wt) by (nonlinear_arith);
                e = 2 * e + b;
                span = wt;
                if k > 0 {
                    vstd::arithmetic::power2::lemma_pow2_unfold(k);
                    k = (k - 1) as nat;
                } else {
                    vstd::arithmetic::power2::lemma2_to64();
                }
            }
            weight = weight / 2;
        }
        proof {
            S::lemma_value(res);
            assert(e * 1 == e);
        }
        Self { element: res }
    }

    fn exp<E: Integer>(&self, exp: &E) -> (r: Self) {
        proof {
            use_type_invariant(self);
        }
        let element = S::exp(&self.element, exp);
        proof {
            S::lemma_value(element);
        }
        Self::from_RAW_limbs(element)
    }
}

impl<S: PrimeFieldOperations> PrimeField for F<S> {
    type BigInteger = S::BigInt;

    open spec fn int_bits() -> nat {
        S::int_bits()
    }

    fn modulus_int() -> (r: Self::BigInteger) {
        S::modulus_int()
    }

    fn as_int(&self) -> (r: Self::BigInteger) {
        proof {
            use_type_invariant(self);
        }
        S::as_int(&self.element)
    }

    fn from_int(n: &Self::BigInteger) -> (r: Self) {
        let element = S::reduce(n);
        proof {
            S::lemma_value(element);
        }
        Self::from_RAW_limbs(element)
    }
}

impl<S: PrimeFieldOperations> PartialEq for F<S> {
    /// Equality in the field.
    fn eq(&self, other: &Self) -> (r: bool) {
        self.equals(other)
    }
}

impl<S: PrimeFieldOperations> PartialEqSpecImpl for F<S> {
    open spec fn obeys_eq_spec() -> bool {
        true
    }

    open spec fn eq_spec(&self, other: &Self) -> bool {
        self.value() == other.value()
    }
}

impl<S: PrimeFieldOperations> Eq for F<S> {

}

} // verus!
