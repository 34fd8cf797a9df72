//! Commitments to vectors over a field.
//!
//! The randomness that a scheme consumes is handed in as values: the seed
//! of `setup` and the blinding of `commit` are scalars that the caller has
//! drawn.

pub mod pedersen;

use vstd::prelude::*;
use crate::fields::Field;
use crate::fields::f_add;
use crate::fields::f_mul;
use crate::fields::Zero;

verus! {

/// The public parameters of a vector commitment scheme.
pub trait VCPublicParameters {
    spec fn max_dim_spec(&self) -> nat;

    /// The largest dimension of a vector that can be committed to.
    fn max_dim(&self) -> (r: usize)
        ensures
            r == self.max_dim_spec(),
    ;
}

/// Minimal interface of a vector over a given field.
pub trait Vector {
    type Field: Field;

    /// The entries of the vector.
    spec fn entries(&self) -> Seq<Self::Field>;

    fn dim(&self) -> (r: usize)
        ensures
            r == self.entries().len(),
    ;
}

/// Minimal interface for a vector over a field with a fixed basis.
pub trait BasedVector: Vector {
    fn get(&self, i: usize) -> (r: &Self::Field)
        requires
            i < self.entries().len(),
        ensures
            *r == self.entries()[i as int],
    ;
}

/// Minimal interface for a vector in an inner product space.
pub trait InnerProductVector: Vector {
    spec fn inner_product_spec(&self, other: &Self) -> Self::Field;

    /// What has to hold for the inner product to be formed, beside equal
    /// dimensions.
    spec fn inner_product_pre(&self, other: &Self) -> bool;

    fn inner_product(&self, other: &Self) -> (r: Self::Field)
        requires
            self.entries().len() == other.entries().len(),
            self.inner_product_pre(other),
        ensures
            r == self.inner_product_spec(other),
    ;
}

/// Minimal interface for a vector commitment scheme.
///
/// What the three operations return is described by a relation of the
/// implementing type between their arguments and their result.
pub trait VectorCommitment<V: Vector> {
    type PublicParameters: VCPublicParameters;

    type Commitment;

    type Randomness;

    type Error;

    /// What has to hold of the arguments of `setup`.
    spec fn setup_pre(seed: Seq<V::Field>, max_dim: usize) -> bool;

    /// What `setup` returns.
    spec fn setup_post(
        seed: Seq<V::Field>,
        max_dim: usize,
        r: Result<Self::PublicParameters, Self::Error>,
    ) -> bool;

    /// What has to hold of the arguments of `commit`.
    spec fn commit_pre(pp: &Self::PublicParameters, input: &V) -> bool;

    /// What `commit` returns.
    spec fn commit_post(
        pp: &Self::PublicParameters,
        input: &V,
        blinding: Option<V::Field>,
        r: Result<(Self::Commitment, Self::Randomness), Self::Error>,
    ) -> bool;

    /// What `verify` returns.
    spec fn verify_post(
        pp: &Self::PublicParameters,
        commitment: &Self::Commitment,
        input: &V,
        randomness: &Self::Randomness,
        r: Result<bool, Self::Error>,
    ) -> bool;

    /// Public parameters for vectors of dimension up to `max_dim`, made of
    /// the scalars of the seed.
    fn setup(seed: &[V::Field], max_dim: usize) -> (r: Result<Self::PublicParameters, Self::Error>)
        requires
            Self::setup_pre(seed@, max_dim),
        ensures
            Self::setup_post(seed@, max_dim, r),
    ;

    /// A commitment to a vector of scalars, and the randomness that opens
    /// it.
    ///
    /// The number of group operations depends on the length of the input
    /// only. With a blinding the commitment is hiding, and takes more
    /// operations than without.
    fn commit(pp: &Self::PublicParameters, input: &V, blinding: Option<&V::Field>) -> (r: Result<
        (Self::Commitment, Self::Randomness),
        Self::Error,
    >)
        requires
            Self::commit_pre(pp, input),
        ensures
            Self::commit_post(
                pp,
                input,
                match blinding {
                    Some(b) => Some(*b),
                    None => None,
                },
                r,
            ),
    ;

    /// Whether a commitment is one to the input with the randomness.
    fn verify(
        pp: &Self::PublicParameters,
        commitment: &Self::Commitment,
        input: &V,
        randomness: &Self::Randomness,
    ) -> (r: Result<bool, Self::Error>)
        requires
            Self::commit_pre(pp, input),
        ensures
            Self::verify_post(pp, commitment, input, randomness, r),
    ;
}

/// The interface of a commitment scheme for vectors that supports inner
/// product proofs.
pub trait InnerProductCommitment<V: InnerProductVector>: VectorCommitment<V> {
    type Proof;

    type IPError;

    /// What `open` returns.
    spec fn open_post(
        pp: &Self::PublicParameters,
        commitment: &Self::Commitment,
        randomness: &Self::Randomness,
        input: &V,
        public_vector: &V,
        blinding: Option<V::Field>,
        r: Result<Self::Proof, Self::IPError>,
    ) -> bool;

    /// What `verify_inner_product` returns.
    spec fn verify_inner_product_post(
        pp: &Self::PublicParameters,
        commitment: &Self::Commitment,
        public_vector: &V,
        claimed_inner_product: &V::Field,
        proof: &Self::Proof,
        r: Result<bool, Self::IPError>,
    ) -> bool;

    /// A proof that the inner product of the committed vector with a
    /// public vector is what it is.
    fn open(
        pp: &Self::PublicParameters,
        commitment: &Self::Commitment,
        randomness: &Self::Randomness,
        input: &V,
        public_vector: &V,
        blinding: Option<&V::Field>,
    ) -> (r: Result<Self::Proof, Self::IPError>)
        requires
            Self::commit_pre(pp, input),
        ensures
            Self::open_post(
                pp,
                commitment,
                randomness,
                input,
                public_vector,
                match blinding {
                    Some(b) => Some(*b),
                    None => None,
                },
                r,
            ),
    ;

    /// Whether a proof shows the claimed inner product.
    fn verify_inner_product(
        pp: &Self::PublicParameters,
        commitment: &Self::Commitment,
        public_vector: &V,
        claimed_inner_product: &V::Field,
        proof: &Self::Proof,
    ) -> (r: Result<bool, Self::IPError>)
        ensures
            Self::verify_inner_product_post(
                pp,
                commitment,
                public_vector,
                claimed_inner_product,
                proof,
                r,
            ),
    ;
}

impl<F: Field, const N: usize> Vector for [F; N] {
    type Field = F;

    open spec fn entries(&self) -> Seq<F> {
        self@
    }

    fn dim(&self) -> (r: usize) {
        N
    }
}

impl<F: Field, const N: usize> BasedVector for [F; N] {
    fn get(&self, i: usize) -> (r: &F) {
        &self[i]
    }
}

/// The sum of the products of the first `k` entries, from the first on.
pub open spec fn dot<F: Field>(a: Seq<F>, b: Seq<F>, k: nat) -> F
    decreases k,
{
    if k == 0 {
        F::zero_spec()
    } else {
        f_add(dot(a, b, (k - 1) as nat), f_mul(a[k - 1], b[k - 1]))
    }
}

impl<F: Field, const N: usize> InnerProductVector for [F; N] {
    /// The sum of the products of the entries; for no entries, 0, which
    /// asks for a valid field.
    open spec fn inner_product_spec(&self, other: &Self) -> F {
        dot(self@, other@, N as nat)
    }

    open spec fn inner_product_pre(&self, other: &Self) -> bool {
        F::valid()
    }

    fn inner_product(&self, other: &Self) -> (r: F) {
        proof {
            F::lemma_field();
        }
        let mut acc = F::zero();
        let mut i: usize = 0;
        while i < N
            invariant
                i <= N,
                acc == dot(self@, other@, i as nat),
            decreases N - i,
        {
            acc = acc.plus(&self[i].times(&other[i]));
            i += 1;
        }
        acc
    }
}

impl<F: Field> Vector for Vec<F> {
    type Field = F;

    open spec fn entries(&self) -> Seq<F> {
        self@
    }

    fn dim(&self) -> (r: usize) {
        self.len()
    }
}

} // verus!
