use cryp::curves::ed25519::AffineEd25519;
use cryp::curves::ed25519::Fp25519;
use cryp::curves::ed25519::GroupEd25519;
use cryp::Affine;
use cryp::One;
use cryp::curves::ed25519::ScalarEd25519;
use cryp::Field;
use cryp::LimbInt;
use cryp::Pedersen;
use cryp::PedersenError;
use cryp::PedersenVec;
use cryp::PrimeField;
use cryp::PrimeGroup;
use cryp::VCPublicParameters;
use cryp::Vector;
use cryp::VectorCommitment;
use cryp::Zero;
use rand::Rng;

/// A uniformly random scalar, by rejection sampling.
fn rand_scalar() -> ScalarEd25519 {
    let mut rng = rand::thread_rng();
    loop {
        let candidate = LimbInt::<u64, 4>::from([rng.gen(), rng.gen(), rng.gen(), rng.gen()]);
        if let Some(scalar) = ScalarEd25519::sample(&candidate) {
            return scalar;
        }
    }
}

fn rand_scalars(n: usize) -> Vec<ScalarEd25519> {
    (0..n).map(|_| rand_scalar()).collect()
}

#[test]
fn test_pedersen() {
    pub type PedEd = Pedersen<GroupEd25519, 1>;

    // our secret
    let secret = rand_scalar();

    let pp = PedEd::setup(&rand_scalars(2), 1).unwrap();
    let (commitment, randomness) = PedEd::commit(&pp, &[secret], Some(&rand_scalar())).unwrap();

    assert!(commitment != GroupEd25519::generator(None).unwrap());

    assert!(PedEd::verify(&pp, &commitment, &[secret], &randomness).unwrap());

    // A commitment to a fixed length vector
    const D: usize = 10;
    pub type PedEdVec = Pedersen<GroupEd25519, D>;
    let mut input = [ScalarEd25519::zero(); D];
    for i in 0..D {
        input[i] = rand_scalar();
    }
    let pp = PedEdVec::setup(&rand_scalars(D + 1), D).unwrap();
    let (commitment, randomness) = PedEdVec::commit(&pp, &input, Some(&rand_scalar())).unwrap();

    assert!(commitment != GroupEd25519::generator(None).unwrap());

    assert!(PedEdVec::verify(&pp, &commitment, &input, &randomness).unwrap());

    // A commitment to a vectors of different length

    let d = 50;
    pub type PedVec = PedersenVec<GroupEd25519>;

    let pp = PedVec::setup(&rand_scalars(d + 1), d).unwrap();

    let m = 10;
    let input = rand_scalars(m);
    let (commitment, randomness) = PedVec::commit(&pp, &input, Some(&rand_scalar())).unwrap();

    assert!(commitment != GroupEd25519::generator(None).unwrap());

    assert!(PedVec::verify(&pp, &commitment, &input, &randomness).unwrap());
}

#[test]
fn test_pedersen_binding() {
    type PedEd = Pedersen<GroupEd25519, 2>;
    let pp = PedEd::setup(&rand_scalars(3), 2).unwrap();
    assert_eq!(pp.max_dim(), 2);
    let input = [rand_scalar(), rand_scalar()];
    let (commitment, randomness) = PedEd::commit(&pp, &input, Some(&rand_scalar())).unwrap();
    // another vector does not open the commitment
    let other = [input[0], input[1].plus(&input[0]).plus(&ScalarEd25519::from_int(&[1, 0, 0, 0].into()))];
    assert!(!PedEd::verify(&pp, &commitment, &other, &randomness).unwrap());
    assert_eq!(input.dim(), 2);
    assert_eq!(cryp::Vector::dim(&vec![input[0]]), 1);
}

#[test]
fn test_pedersen_without_blinding() {
    type PedEd = Pedersen<GroupEd25519, 1>;
    let seed = rand_scalars(2);
    let pp = PedEd::setup(&seed, 1).unwrap();
    let secret = rand_scalar();
    let (commitment, randomness) = PedEd::commit(&pp, &[secret], None).unwrap();
    // the commitment is secret * g, and the generator for the blinding is handed out
    let generators = GroupEd25519::batch_generators(&seed).unwrap();
    let g = GroupEd25519::lift(&generators[0]);
    assert!(commitment == g.scalar_mul(&secret).as_public().unwrap());
    assert!(randomness == generators[1]);
}

#[test]
fn test_pedersen_invalid_commitment() {
    type PedEd = Pedersen<GroupEd25519, 1>;
    let pp = PedEd::setup(&rand_scalars(2), 1).unwrap();
    let secret = rand_scalar();
    let (_, randomness) = PedEd::commit(&pp, &[secret], Some(&rand_scalar())).unwrap();
    // the point (0, -1) has order 2: it is on the curve and not in the group
    let outside = AffineEd25519::new(Affine::new(Fp25519::zero(), -Fp25519::one()));
    assert_eq!(
        PedEd::verify(&pp, &outside, &[secret], &randomness),
        Err(PedersenError::InvalidCommitment)
    );
}
