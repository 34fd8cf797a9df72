//! Inversion on top of the arithmetic of a field.

use vstd::prelude::*;
use crate::fields::fermat::is_prime;
use crate::fields::modular::mod_mul;
use super::arithmetic::ArithmeticOperations;

verus! {

/// An inversion algorithm for the arithmetic `A`.
pub trait Inversion<A: ArithmeticOperations> {
    /// The multiplicative inverse of an element, if it exists. In a field,
    /// that is for an odd prime order, exactly the element 0 has none, and
    /// the product of any other element with its inverse is 1.
    fn inverse(element: &A::BigInt) -> (r: Option<A::BigInt>)
        requires
            A::valid(),
            A::wf(*element),
        ensures
            r matches Some(x) ==> A::wf(x),
            is_prime(A::modulus()) && A::modulus() > 2 ==> (r is None <==> A::value(*element)
                == 0),
            is_prime(A::modulus()) && A::modulus() > 2 ==> (r matches Some(x) ==> mod_mul(
                A::value(*element),
                A::value(x),
                A::modulus(),
            ) == 1),
    ;
}

} // verus!
