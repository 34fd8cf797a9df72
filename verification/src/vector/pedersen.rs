//! Pedersen commitments to vectors of scalars of a group of prime order.
//!
//! With generators `g_1, ..., g_n` and `h`, the commitment to
//! `(x_1, ..., x_n)` with the blinding `r` is the sum of the `x_i * g_i`
//! plus `r * h`; the randomness that opens it is `r * h`. Without a
//! blinding the commitment is the sum alone and `h` is handed out in place
//! of the randomness.

use vstd::prelude::*;
use std::marker::PhantomData;
use crate::fields::Field;
use crate::groups::Group;
use crate::groups::PrimeGroup;
use super::VCPublicParameters;
use super::Vector;
use super::VectorCommitment;

verus! {

/// The Pedersen commitment scheme for vectors of dimension `N`.
pub struct Pedersen<G: PrimeGroup, const N: usize> {
    _marker: PhantomData<G>,
}

/// The Pedersen commitment scheme for vectors of any dimension up to a
/// maximum that is fixed at setup.
pub struct PedersenVec<G: PrimeGroup> {
    _marker: PhantomData<G>,
}

/// Why a Pedersen operation failed.
#[derive(Debug, PartialEq, Eq, Clone, Copy)]
pub enum PedersenError {
    /// A group element that had to be made public has no public form.
    NoPublicForm,
    /// The commitment to be verified is not an element of the group.
    InvalidCommitment,
}

/// The public parameters for dimension `N`: a generator for every entry
/// and one for the blinding.
pub struct PedersenPP<G: PrimeGroup, const N: usize> {
    g_vec: [G::Public; N],
    h: G::Public,
}

/// The public parameters for dimensions up to the number of generators.
pub struct PedersenVecPP<G: PrimeGroup> {
    g_vec: Vec<G::Public>,
    h: G::Public,
}

impl<G: PrimeGroup, const N: usize> Clone for PedersenPP<G, N> {
    fn clone(&self) -> (r: Self)
        ensures
            r == *self,
    {
        PedersenPP { g_vec: self.g_vec, h: self.h }
    }
}

impl<G: PrimeGroup, const N: usize> PedersenPP<G, N> {
    /// The generators for the entries.
    pub closed spec fn generators(&self) -> Seq<G::Public> {
        self.g_vec@
    }

    /// The generator for the blinding.
    pub closed spec fn blinder(&self) -> G::Public {
        self.h
    }
}

impl<G: PrimeGroup> PedersenVecPP<G> {
    /// The generators for the entries.
    pub closed spec fn generators(&self) -> Seq<G::Public> {
        self.g_vec@
    }

    /// The generator for the blinding.
    pub closed spec fn blinder(&self) -> G::Public {
        self.h
    }
}

/// The randomness that belongs to a blinding: `blinding * h` in public
/// form where there is a blinding and the multiple has a public form, `h`
/// where there is no blinding.
pub open spec fn blinded<G: PrimeGroup>(h: G::Public, blinding: Option<G::ScalarField>) -> Option<
    G::Public,
> {
    match blinding {
        Some(b) => G::lift_spec(h).scalar_mul_spec(b).as_public_spec(),
        None => Some(h),
    }
}

/// The commitment as a group element: the sum of the multiples of the
/// generators, plus the randomness where there is a blinding.
pub open spec fn committed<G: PrimeGroup>(
    generators: Seq<G::Public>,
    input: Seq<G::ScalarField>,
    blinding: Option<G::ScalarField>,
    randomness: G::Public,
) -> G {
    match blinding {
        Some(_) => G::msm_spec(generators, input).add_public_spec(randomness),
        None => G::msm_spec(generators, input),
    }
}

/// What `commit` returns for the given generators: the commitment in
/// public form with the randomness, or the error that one of the two has
/// no public form.
pub open spec fn commit_result<G: PrimeGroup>(
    generators: Seq<G::Public>,
    h: G::Public,
    input: Seq<G::ScalarField>,
    blinding: Option<G::ScalarField>,
) -> Result<(G::Public, G::Public), PedersenError> {
    match blinded::<G>(h, blinding) {
        Some(randomness) => match committed::<G>(
            generators,
            input,
            blinding,
            randomness,
        ).as_public_spec() {
            Some(commitment) => Ok((commitment, randomness)),
            None => Err(PedersenError::NoPublicForm),
        },
        None => Err(PedersenError::NoPublicForm),
    }
}

/// What `verify` returns for the given generators: for a commitment that
/// is an element of the group, whether it is the public form of the sum of
/// the multiples of the generators plus the randomness.
pub open spec fn verify_result<G: PrimeGroup>(
    generators: Seq<G::Public>,
    commitment: G::Public,
    input: Seq<G::ScalarField>,
    randomness: G::Public,
) -> Result<bool, PedersenError> {
    if !G::is_valid_spec(commitment) {
        Err(PedersenError::InvalidCommitment)
    } else {
        match G::msm_spec(generators, input).add_public_spec(randomness).as_public_spec() {
            Some(check) => Ok(G::same_public(commitment, check)),
            None => Err(PedersenError::NoPublicForm),
        }
    }
}

/// Whether the generators are those that belong to the scalars of the
/// seed, the last of them the one for the blinding.
pub open spec fn generated<G: PrimeGroup>(
    seed: Seq<G::ScalarField>,
    generators: Seq<G::Public>,
    h: G::Public,
) -> bool {
    &&& seed.len() == generators.len() + 1
    &&& forall|i: int|
        0 <= i < generators.len() ==> Some(#[trigger] generators[i]) == G::generator_for_spec(
            seed[i],
        )
    &&& Some(h) == G::generator_for_spec(seed[generators.len() as int])
}

/// Whether every scalar of the seed has a generator.
pub open spec fn all_generated<G: PrimeGroup>(seed: Seq<G::ScalarField>) -> bool {
    forall|i: int| 0 <= i < seed.len() ==> (#[trigger] G::generator_for_spec(seed[i])) is Some
}

/// The commitment for the given generators.
fn commit_with<G: PrimeGroup>(
    generators: &[G::Public],
    h: &G::Public,
    input: &[G::ScalarField],
    blinding: Option<&G::ScalarField>,
) -> (r: Result<(G::Public, G::Public), PedersenError>)
    requires
        G::valid(),
        generators@.len() == input@.len(),
    ensures
        r == commit_result::<G>(
            generators@,
            *h,
            input@,
            match blinding {
                Some(b) => Some(*b),
                None => None,
            },
        ),
{
    // With a blinding r the commitment is g^input * h^r and the randomness h^r;
    // without, the commitment is g^input and the randomness h.
    let h_rand = match blinding {
        Some(b) => {
            match G::lift(h).scalar_mul(b).as_public() {
                Some(hr) => Some(hr),
                None => {
                    return Err(PedersenError::NoPublicForm);
                },
            }
        },
        None => None,
    };

    let commit_g = G::msm(generators, input);

    let (commit_priv, randomness) = match h_rand {
        Some(hr) => {
            let mut sum = commit_g;
            sum.add_public_in_place(&hr);
            (sum, hr)
        },
        None => (commit_g, *h),
    };

    // Convert to public (avoids projective coordinate attacks)
    match commit_priv.as_public() {
        Some(commitment) => Ok((commitment, randomness)),
        None => Err(PedersenError::NoPublicForm),
    }
}

/// Whether the commitment is one to the input, for the given generators.
fn verify_with<G: PrimeGroup>(
    generators: &[G::Public],
    commitment: &G::Public,
    input: &[G::ScalarField],
    randomness: &G::Public,
) -> (r: Result<bool, PedersenError>)
    requires
        G::valid(),
        G::ScalarField::valid(),
        generators@.len() == input@.len(),
    ensures
        r == verify_result::<G>(generators@, *commitment, input@, *randomness),
{
    // necessary checks
    if !G::is_valid(commitment) {
        return Err(PedersenError::InvalidCommitment);
    }
    // verify commitment

    let mut commit_g = G::msm(generators, input);
    commit_g.add_public_in_place(randomness);

    match commit_g.as_public() {
        Some(commitment_check) => Ok(G::public_equals(commitment, &commitment_check)),
        None => Err(PedersenError::NoPublicForm),
    }
}

impl<G: PrimeGroup, const N: usize> VectorCommitment<[G::ScalarField; N]> for Pedersen<G, N> {
    type PublicParameters = PedersenPP<G, N>;

    type Commitment = G::Public;

    type Randomness = G::Public;

    type Error = PedersenError;

    /// The seed holds one scalar for every generator, `N + 1` in all.
    open spec fn setup_pre(seed: Seq<G::ScalarField>, max_dim: usize) -> bool {
        G::valid() && max_dim == N && seed.len() == N + 1
    }

    open spec fn setup_post(
        seed: Seq<G::ScalarField>,
        max_dim: usize,
        r: Result<PedersenPP<G, N>, PedersenError>,
    ) -> bool {
        match r {
            Ok(pp) => generated::<G>(seed, pp.generators(), pp.blinder()),
            Err(e) => e == PedersenError::NoPublicForm && !all_generated::<G>(seed),
        }
    }

    open spec fn commit_pre(pp: &PedersenPP<G, N>, input: &[G::ScalarField; N]) -> bool {
        G::valid() && G::ScalarField::valid()
    }

    open spec fn commit_post(
        pp: &PedersenPP<G, N>,
        input: &[G::ScalarField; N],
        blinding: Option<G::ScalarField>,
        r: Result<(G::Public, G::Public), PedersenError>,
    ) -> bool {
        r == commit_result::<G>(pp.generators(), pp.blinder(), input@, blinding)
    }

    open spec fn verify_post(
        pp: &PedersenPP<G, N>,
        commitment: &G::Public,
        input: &[G::ScalarField; N],
        randomness: &G::Public,
        r: Result<bool, PedersenError>,
    ) -> bool {
        r == verify_result::<G>(pp.generators(), *commitment, input@, *randomness)
    }

    fn setup(seed: &[G::ScalarField], max_dim: usize) -> (r: Result<
        PedersenPP<G, N>,
        PedersenError,
    >) {
        match G::batch_generators(seed) {
            Some(group_elements) => {
                let h = group_elements[N];
                let mut g_vec = [h;N];
                let mut i: usize = 0;
                while i < N
                    invariant
                        i <= N,
                        group_elements@.len() == N + 1,
                        forall|j: int| 0 <= j < i ==> g_vec@[j] == group_elements@[j],
                    decreases N - i,
                {
                    g_vec[i] = group_elements[i];
                    i += 1;
                }
                proof {
                    assert forall|j: int| 0 <= j < N implies Some(#[trigger] g_vec@[j])
                        == G::generator_for_spec(seed@[j]) by {
                        assert(Some(group_elements@[j]) == G::generator_for_spec(seed@[j]));
                    }
                    assert(Some(group_elements@[N as int]) == G::generator_for_spec(
                        seed@[N as int],
                    ));
                }
                Ok(PedersenPP { g_vec, h })
            },
            None => Err(PedersenError::NoPublicForm),
        }
    }

    fn commit(
        pp: &PedersenPP<G, N>,
        input: &[G::ScalarField; N],
        blinding: Option<&G::ScalarField>,
    ) -> (r: Result<(G::Public, G::Public), PedersenError>) {
        commit_with::<G>(pp.g_vec.as_slice(), &pp.h, input.as_slice(), blinding)
    }

    fn verify(
        pp: &PedersenPP<G, N>,
        commitment: &G::Public,
        input: &[G::ScalarField; N],
        randomness: &G::Public,
    ) -> (r: Result<bool, PedersenError>) {
        verify_with::<G>(pp.g_vec.as_slice(), commitment, input.as_slice(), randomness)
    }
}

impl<G: PrimeGroup, const N: usize> VCPublicParameters for PedersenPP<G, N> {
    open spec fn max_dim_spec(&self) -> nat {
        N as nat
    }

    fn max_dim(&self) -> (r: usize) {
        N
    }
}

// ----------------------------
// Vector commitment with heap allocated vectors
impl<G: PrimeGroup> VectorCommitment<Vec<G::ScalarField>> for PedersenVec<G> {
    type PublicParameters = PedersenVecPP<G>;

    type Commitment = G::Public;

    type Randomness = G::Public;

    type Error = PedersenError;

    /// The seed holds one scalar for every generator, `max_dim + 1` in
    /// all.
    open spec fn setup_pre(seed: Seq<G::ScalarField>, max_dim: usize) -> bool {
        G::valid() && seed.len() == max_dim + 1
    }

    open spec fn setup_post(
        seed: Seq<G::ScalarField>,
        max_dim: usize,
        r: Result<PedersenVecPP<G>, PedersenError>,
    ) -> bool {
        match r {
            Ok(pp) => generated::<G>(seed, pp.generators(), pp.blinder()),
            Err(e) => e == PedersenError::NoPublicForm && !all_generated::<G>(seed),
        }
    }

    /// The input is not longer than there are generators.
    open spec fn commit_pre(pp: &PedersenVecPP<G>, input: &Vec<G::ScalarField>) -> bool {
        G::valid() && G::ScalarField::valid() && input@.len() <= pp.generators().len()
    }

    open spec fn commit_post(
        pp: &PedersenVecPP<G>,
        input: &Vec<G::ScalarField>,
        blinding: Option<G::ScalarField>,
        r: Result<(G::Public, G::Public), PedersenError>,
    ) -> bool {
        r == commit_result::<G>(
            pp.generators().take(input@.len() as int),
            pp.blinder(),
            input@,
            blinding,
        )
    }

    open spec fn verify_post(
        pp: &PedersenVecPP<G>,
        commitment: &G::Public,
        input: &Vec<G::ScalarField>,
        randomness: &G::Public,
        r: Result<bool, PedersenError>,
    ) -> bool {
        r == verify_result::<G>(
            pp.generators().take(input@.len() as int),
            *commitment,
            input@,
            *randomness,
        )
    }

    fn setup(seed: &[G::ScalarField], max_dim: usize) -> (r: Result<
        PedersenVecPP<G>,
        PedersenError,
    >) {
        match G::batch_generators(seed) {
            Some(group_elements) => {
                let h = group_elements[max_dim];
                let mut g_vec: Vec<G::Public> = Vec::new();
                let mut i: usize = 0;
                while i < max_dim
                    invariant
                        i <= max_dim,
                        group_elements@.len() == max_dim + 1,
                        g_vec@.len() == i,
                        forall|j: int| 0 <= j < i ==> g_vec@[j] == group_elements@[j],
                    decreases max_dim - i,
                {
                    g_vec.push(group_elements[i]);
                    i += 1;
                }
                proof {
                    assert forall|j: int| 0 <= j < max_dim implies Some(#[trigger] g_vec@[j])
                        == G::generator_for_spec(seed@[j]) by {
                        assert(Some(group_elements@[j]) == G::generator_for_spec(seed@[j]));
                    }
                    assert(Some(group_elements@[max_dim as int]) == G::generator_for_spec(
                        seed@[max_dim as int],
                    ));
                }
                Ok(PedersenVecPP { g_vec, h })
            },
            None => Err(PedersenError::NoPublicForm),
        }
    }

    fn commit(
        pp: &PedersenVecPP<G>,
        input: &Vec<G::ScalarField>,
        blinding: Option<&G::ScalarField>,
    ) -> (r: Result<(G::Public, G::Public), PedersenError>) {
        let generators = vstd::slice::slice_subrange(pp.g_vec.as_slice(), 0, input.len());
        commit_with::<G>(generators, &pp.h, input.as_slice(), blinding)
    }

    fn verify(
        pp: &PedersenVecPP<G>,
        commitment: &G::Public,
        input: &Vec<G::ScalarField>,
        randomness: &G::Public,
    ) -> (r: Result<bool, PedersenError>) {
        let generators = vstd::slice::slice_subrange(pp.g_vec.as_slice(), 0, input.len());
        verify_with::<G>(generators, commitment, input.as_slice(), randomness)
    }
}

impl<G: PrimeGroup> VCPublicParameters for PedersenVecPP<G> {
    open spec fn max_dim_spec(&self) -> nat {
        self.generators().len()
    }

    fn max_dim(&self) -> (r: usize) {
        self.g_vec.len()
    }
}

} // verus!
