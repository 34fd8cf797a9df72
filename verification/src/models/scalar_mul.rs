//! Scalar multiplication.
//!
//! The Montgomery ladder performs one addition and one doubling for every
//! bit of the scalar, whatever the bit is. Multi-scalar multiplication is
//! one ladder per base, summed up.

use vstd::prelude::*;
use crate::biginteger::Integer;
use crate::biginteger::Bits;
use crate::biginteger::scalar_bits;
use crate::biginteger::bits_be;
use crate::fields::Field;
use crate::fields::PrimeField;
use super::CurveOperations;

verus! {

pub struct ScalarMul;

pub struct VariableBaseMSM;

pub struct FixedBaseMSM;

/// The two points that the ladder holds after the given bits, most
/// significant first: `(k * base, (k + 1) * base)` for the number `k` that
/// the bits stand for, as the formulas of the curve compute them.
pub open spec fn ladder_state<C: CurveOperations>(base: C::Point, bits: Seq<bool>) -> (
    C::Point,
    C::Point,
)
    decreases bits.len(),
{
    if bits.len() == 0 {
        (C::identity_spec(), base)
    } else {
        let (low, high) = ladder_state::<C>(base, bits.drop_last());
        if bits.last() {
            (C::add_spec(low, high), C::double_spec(high))
        } else {
            (C::double_spec(low), C::add_spec(high, low))
        }
    }
}

/// The multiple of `base` by the number that the bits stand for, as the
/// ladder computes it.
pub open spec fn ladder<C: CurveOperations>(base: C::Point, bits: Seq<bool>) -> C::Point {
    ladder_state::<C>(base, bits).0
}

/// The bits that a scalar of a prime field is multiplied by: those of its
/// value, in the width of the integers of the field.
pub open spec fn field_bits<N: PrimeField>(scalar: N) -> Seq<bool> {
    bits_be(scalar.value(), N::int_bits())
}

/// The sum of `scalars[i] * bases[i]` over `i < k`, each multiple by the
/// ladder, added up from the identity in the order of the indices.
pub open spec fn msm_sum<C: CurveOperations, N: PrimeField>(
    bases: Seq<C::Point>,
    scalars: Seq<N>,
    k: nat,
) -> C::Point
    decreases k,
{
    if k == 0 {
        C::identity_spec()
    } else {
        C::add_spec(
            msm_sum::<C, N>(bases, scalars, (k - 1) as nat),
            ladder::<C>(bases[k - 1], field_bits(scalars[k - 1])),
        )
    }
}

impl ScalarMul {
    /// The Montgomery ladder: `scalar * base`.
    ///
    /// For every bit of the scalar, from the most significant down, one of
    /// the two points held is replaced by their sum and the other is
    /// doubled; which one depends on the bit, the operations do not.
    pub fn montgomery_ladder<C: CurveOperations, I: Integer>(base: &C::Point, scalar: &I) -> (r:
        C::Point)
        requires
            C::Field::valid(),
        ensures
            r == ladder::<C>(*base, scalar_bits(scalar)),
    {
        let mut res = C::identity();
        let mut base = *base;
        let ghost start = base;

        let bits = Bits::into_iter_be(scalar);
        let mut k: usize = 0;
        proof {
            assert(bits@.take(0).len() == 0);
        }
        while k < bits.len()
            invariant
                k <= bits@.len(),
                (res, base) == ladder_state::<C>(start, bits@.take(k as int)),
            decreases bits@.len() - k,
        {
            let bit = bits[k];
            proof {
                assert(bits@.take(k + 1).drop_last() =~= bits@.take(k as int));
            }
            if bit {
                C::add_in_place(&mut res, &base);
                C::double_in_place(&mut base);
            } else {
                C::add_in_place(&mut base, &res);
                C::double_in_place(&mut res);
            }
            k += 1;
        }
        proof {
            assert(bits@.take(bits@.len() as int) =~= bits@);
        }
        res
    }
}

impl VariableBaseMSM {
    /// The sum of `scalars[i] * bases[i]`, by one ladder for each base. The
    /// two slices must have the same length.
    pub fn msm_simple<C: CurveOperations, N: PrimeField>(bases: &[C::Point], scalars: &[N]) -> (r:
        C::Point)
        requires
            C::Field::valid(),
            bases@.len() == scalars@.len(),
        ensures
            r == msm_sum::<C, N>(bases@, scalars@, bases@.len()),
    {
        let mut res = C::identity();
        let mut k: usize = 0;
        while k < bases.len()
            invariant
                k <= bases@.len(),
                bases@.len() == scalars@.len(),
                C::Field::valid(),
                res == msm_sum::<C, N>(bases@, scalars@, k as nat),
            decreases bases@.len() - k,
        {
            let scalar = scalars[k].as_int();
            let term = ScalarMul::montgomery_ladder::<C, N::BigInteger>(&bases[k], &scalar);
            C::add_in_place(&mut res, &term);
            k += 1;
        }
        res
    }
}

} // verus!
