//! The interface of a commutative ring with 1, with exponentiation by
//! any of two algorithms, and the ring that underlies a field.

use vstd::prelude::*;
use vstd::arithmetic::power2::pow2;
use crate::biginteger::Integer;
use crate::biginteger::Bits;
use crate::biginteger::int_val;
use crate::biginteger::be_bits_val;
use crate::biginteger::lemma_be_bits_push;
use crate::fields::Field;
use crate::fields::Zero;
use crate::fields::One;
use crate::fields::f_add;
use crate::fields::f_mul;
use crate::fields::f_pow;
use crate::fields::algebra::lemma_pow_value;
use crate::fields::algebra::lemma_zero_one_value;
use crate::fields::modular::lemma_mod_pow_step;
use crate::fields::modular::lemma_mod_pow_zero;

verus! {

/// A ring with 1.
///
/// The sum, the product and the powers of elements are spec functions of
/// the implementing type, of which `lemma_ring` states what the two
/// exponentiation algorithms rest on.
pub trait Ring: Sized + Copy + Zero + One {
    /// Whether the constants of the ring are consistent.
    spec fn ring_valid() -> bool;

    /// Whether the element is in canonical form.
    spec fn ring_wf(self) -> bool;

    spec fn plus_spec(self, other: Self) -> Self;

    spec fn times_spec(self, other: Self) -> Self;

    /// `self^e`.
    spec fn power_spec(self, e: nat) -> Self;

    /// The laws of exponents: `a^0 = 1`, `a^1 = a` for a well-formed `a`,
    /// and `a^i * a^j = a^(i+j)`.
    proof fn lemma_ring(a: Self, i: nat, j: nat)
        requires
            Self::ring_valid(),
        ensures
            Self::one_defined(),
            a.power_spec(0) == Self::one_spec(),
            a.ring_wf() ==> a.power_spec(1) == a,
            a.power_spec(i).times_spec(a.power_spec(j)) == a.power_spec(i + j),
    ;

    /// States what holds of every executable element: the ring is valid
    /// and the element well-formed.
    fn check(&self)
        ensures
            Self::ring_valid(),
            self.ring_wf(),
    ;

    /// `self + other`.
    fn plus(&self, other: &Self) -> (r: Self)
        ensures
            r == self.plus_spec(*other),
    ;

    /// `self * other`.
    fn times(&self, other: &Self) -> (r: Self)
        ensures
            r == self.times_spec(*other),
    ;

    /// Squares the ring element in place.
    fn square_in_place(&mut self)
        ensures
            *final(self) == old(self).times_spec(*old(self)),
    ;

    /// The square of the element.
    fn square(&self) -> (r: Self)
        ensures
            r == self.times_spec(*self),
    {
        let mut result = *self;
        result.square_in_place();
        result
    }

    /// Doubles the element in place.
    fn double_in_place(&mut self)
        ensures
            *final(self) == old(self).plus_spec(*old(self)),
    ;

    /// The double of the element.
    fn double(&self) -> (r: Self)
        ensures
            r == self.plus_spec(*self),
    {
        let mut result = *self;
        result.double_in_place();
        result
    }

    /// `self^exp` by squaring and multiplying over the 64 bits of `exp`.
    /// The multiplications depend on the bits: not for secret exponents.
    fn pow(&self, exp: u64) -> (r: Self)
        ensures
            r == self.power_spec(exp as nat),
    {
        self.check();
        proof {
            Self::lemma_ring(*self, 0, 0);
        }
        let mut res = Self::one();
        let base = *self;
        let mut rem: u64 = exp;
        let mut weight: u64 = 0x8000_0000_0000_0000;
        let ghost mut span: int = 0x1_0000_0000_0000_0000;
        let ghost mut e: nat = 0;
        let ghost mut k: nat = 63;
        proof {
            vstd::arithmetic::power2::lemma2_to64_rest();
        }
        while weight > 0
            invariant
                Self::ring_valid(),
                self.ring_wf(),
                base == *self,
                e * span + rem == exp,
                0 <= rem < span,
                weight > 0 ==> span == 2 * weight && weight == pow2(k),
                weight == 0 ==> span == 1,
                res == self.power_spec(e),
            decreases weight,
        {
            let bit = rem >= weight;
            res = res.square();
            proof {
                Self::lemma_ring(*self, e, e);
                Self::lemma_ring(*self, e + e, 1);
            }
            if bit {
                res = res.times(&base);
                rem = rem - weight;
            }
            proof {
                let b: nat = if bit { 1 } else { 0 };
                let wt = weight as int;
                assert((2 * e + b) * wt == e * (2 * wt) + b * wt) by (nonlinear_arith);
                e = 2 * e + b;
                span = wt;
                if k > 0 {
                    vstd::arithmetic::power2::lemma_pow2_unfold(k);
                    k = (k - 1) as nat;
                } else {
                    vstd::arithmetic::power2::lemma2_to64();
                }
            }
            weight = weight / 2;
        }
        proof {
            assert(e * 1 == e);
        }
        res
    }

    /// `self^exp` by a ladder with one multiplication and one squaring per
    /// bit of the type of `exp`, whatever the bits are.
    fn exp<E: Integer>(&self, exp: &E) -> (r: Self)
        ensures
            r == self.power_spec(int_val(exp)),
    {
        self.check();
        proof {
            Self::lemma_ring(*self, 0, 0);
        }
        let mut res = Self::one();
        let mut base = *self;

        let bits = Bits::into_iter_be(exp);
        let mut k: usize = 0;
        proof {
            assert(bits@.take(0).len() == 0);
        }
        while k < bits.len()
            invariant
                k <= bits@.len(),
                Self::ring_valid(),
                res == self.power_spec(be_bits_val(bits@.take(k as int))),
                base == self.power_spec(be_bits_val(bits@.take(k as int)) + 1),
            decreases bits@.len() - k,
        {
            let bit = bits[k];
            proof {
                let e = be_bits_val(bits@.take(k as int));
                assert(bits@.take(k + 1) =~= bits@.take(k as int).push(bits@[k as int]));
                lemma_be_bits_push(bits@.take(k as int), bits@[k as int]);
                Self::lemma_ring(*self, e, e + 1);
                Self::lemma_ring(*self, e + 1, e + 1);
                Self::lemma_ring(*self, e + 1, e);
                Self::lemma_ring(*self, e, e);
            }
            if bit {
                res = res.times(&base);
                base = base.square();
            } else {
                base = base.times(&res);
                res = res.square();
            }
            k += 1;
        }
        proof {
            assert(bits@.take(bits@.len() as int) =~= bits@);
        }
        res
    }
}

/// A wrapper to represent the underlying ring of a field.
pub struct AsRing<F: Field>(pub F);

impl<F: Field> Clone for AsRing<F> {
    fn clone(&self) -> (r: Self)
        ensures
            r == *self,
    {
        *self
    }
}

impl<F: Field> Copy for AsRing<F> {

}

impl<F: Field> Zero for AsRing<F> {
    open spec fn zero_defined() -> bool {
        F::zero_defined()
    }

    open spec fn zero_spec() -> Self {
        AsRing(F::zero_spec())
    }

    fn zero() -> (r: Self) {
        AsRing(F::zero())
    }
}

impl<F: Field> One for AsRing<F> {
    open spec fn one_defined() -> bool {
        F::one_defined()
    }

    open spec fn one_spec() -> Self {
        AsRing(F::one_spec())
    }

    fn one() -> (r: Self) {
        AsRing(F::one())
    }
}

impl<F: Field> Ring for AsRing<F> {
    open spec fn ring_valid() -> bool {
        F::valid()
    }

    open spec fn ring_wf(self) -> bool {
        self.0.wf()
    }

    open spec fn plus_spec(self, other: Self) -> Self {
        AsRing(f_add(self.0, other.0))
    }

    open spec fn times_spec(self, other: Self) -> Self {
        AsRing(f_mul(self.0, other.0))
    }

    open spec fn power_spec(self, e: nat) -> Self {
        AsRing(f_pow(self.0, e))
    }

    proof fn lemma_ring(a: Self, i: nat, j: nat) {
        let p = F::modulus();
        let v = a.0.value();
        assert(Self::ring_valid() == F::valid());
        assert(a.ring_wf() == a.0.wf());
        assert(Self::one_spec() == AsRing(F::one_spec()));
        assert(Self::one_defined() == F::one_defined());
        assert(a.power_spec(0) == AsRing(f_pow(a.0, 0)));
        assert(a.power_spec(1) == AsRing(f_pow(a.0, 1)));
        assert(a.power_spec(i) == AsRing(f_pow(a.0, i)));
        assert(a.power_spec(j) == AsRing(f_pow(a.0, j)));
        assert(a.power_spec(i + j) == AsRing(f_pow(a.0, i + j)));
        assert(a.power_spec(i).times_spec(a.power_spec(j)) == AsRing(
            f_mul(f_pow(a.0, i), f_pow(a.0, j)),
        ));
        F::lemma_field();
        lemma_zero_one_value::<F>();
        // a^0 = 1
        vstd::arithmetic::power::lemma_pow0(v as int);
        vstd::arithmetic::div_mod::lemma_small_mod(1, p);
        assert(f_pow(a.0, 0) == F::one_spec());
        // a^1 = a
        if a.0.wf() {
            a.0.lemma_value();
            lemma_mod_pow_zero(v, p);
        }
        // a^i * a^j = a^(i+j)
        lemma_pow_value(a.0, i);
        lemma_pow_value(a.0, j);
        lemma_mod_pow_step(v, i, j, p);
    }

    fn check(&self) {
        self.0.check();
        proof {
            assert(Self::ring_valid() == F::valid());
            assert(self.ring_wf() == self.0.wf());
        }
    }

    fn plus(&self, other: &Self) -> (r: Self) {
        AsRing(self.0.plus(&other.0))
    }

    fn times(&self, other: &Self) -> (r: Self) {
        AsRing(self.0.times(&other.0))
    }

    fn square_in_place(&mut self) {
        let mut x = self.0;
        x.square_in_place();
        self.0 = x;
    }

    fn double_in_place(&mut self) {
        let mut x = self.0;
        x.double_in_place();
        self.0 = x;
    }
}

} // verus!
