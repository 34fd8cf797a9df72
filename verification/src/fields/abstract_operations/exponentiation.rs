//! Exponentiation on top of the arithmetic of a field.

use vstd::prelude::*;
use crate::biginteger::Integer;
use crate::biginteger::Bits;
use crate::biginteger::int_val;
use crate::biginteger::be_bits_val;
use crate::biginteger::lemma_be_bits_push;
use crate::fields::modular::mod_pow;
use crate::fields::modular::lemma_mod_pow_step;
use crate::fields::modular::lemma_mod_pow_zero;
use super::arithmetic::ArithmeticOperations;

verus! {

/// An exponentiation algorithm for the arithmetic `A`.
pub trait Exponentiation<A: ArithmeticOperations> {
    /// `element^exp`.
    ///
    /// As provided, a ladder over the bits of `exp` from the most
    /// significant down, with one multiplication and one squaring for each
    /// bit, whatever it is: the running time depends on the bit length of
    /// the type of `exp` only.
    fn exp<E: Integer>(element: &A::BigInt, exp: &E) -> (r: A::BigInt)
        requires
            A::valid(),
            A::wf(*element),
        ensures
            A::wf(r),
            A::value(r) == mod_pow(A::value(*element), int_val(exp), A::modulus()),
    {
        let mut res = A::one();
        let mut base = *element;
        let bits = Bits::into_iter_be(exp);
        let ghost x = A::value(*element);
        let ghost p = A::modulus();
        let mut k: usize = 0;
        proof {
            A::lemma_arithmetic(*element);
            assert(bits@.take(0).len() == 0);
            lemma_mod_pow_zero(x, p);
        }
        while k < bits.len()
            invariant
                k <= bits@.len(),
                A::valid(),
                p == A::modulus(),
                p >= 2,
                x < p,
                A::wf(res),
                A::wf(base),
                A::value(res) == mod_pow(x, be_bits_val(bits@.take(k as int)), p),
                A::value(base) == mod_pow(x, be_bits_val(bits@.take(k as int)) + 1, p),
            decreases bits@.len() - k,
        {
            let bit = bits[k];
            proof {
                let e = be_bits_val(bits@.take(k as int));
                assert(bits@.take(k + 1) =~= bits@.take(k as int).push(bits@[k as int]));
                lemma_be_bits_push(bits@.take(k as int), bits@[k as int]);
                lemma_mod_pow_step(x, e, e + 1, p);
                lemma_mod_pow_step(x, e + 1, e + 1, p);
                lemma_mod_pow_step(x, e + 1, e, p);
                lemma_mod_pow_step(x, e, e, p);
            }
            if bit {
                A::mul_assign(&mut res, &base);
                A::square_assign(&mut base);
            } else {
                A::mul_assign(&mut base, &res);
                A::square_assign(&mut res);
            }
            k += 1;
        }
        proof {
            assert(bits@.take(bits@.len() as int) =~= bits@);
        }
        res
    }
}

} // verus!
