//! Arithmetic for cryptography: fixed-width big integers, prime fields with
//! a choice of reduction strategy, and elliptic-curve groups over them.

pub mod biginteger;
pub mod fields;
pub mod groups;
pub mod rings;
pub mod models;
pub mod curves;
pub mod vector;

pub use biginteger::limb::Limb;
pub use biginteger::limb::WrongByteLengthError;
pub use biginteger::limbint::LimbInt;
pub use biginteger::Bits;
pub use biginteger::Bytes;
pub use biginteger::Integer;
pub use fields::abstract_operations::PrimeFieldOperations;
pub use fields::abstract_operations::F;
pub use fields::general_reduction::GeneralReduction;
pub use fields::general_reduction::GeneralReductionOperations;
pub use fields::montgomery::MontParameters;
pub use fields::montgomery::MontgomeryOperations;
pub use fields::solinas::SolinasParameters;
pub use fields::solinas::SolinasReduction;
pub use fields::Field;
pub use fields::One;
pub use fields::PrimeField;
pub use fields::Zero;
pub use groups::Group;
pub use groups::PrimeGroup;
pub use models::coordinates::Affine;
pub use models::coordinates::Coordinates;
pub use models::coordinates::ExtendedPoint;
pub use models::coordinates::JacobianPoint;
pub use models::coordinates::Projective;
pub use models::primegroup::subgroup::PrimeSubGroupConfig;
pub use models::primegroup::GroupEC;
pub use models::primegroup::PrimeGroupConfig;
pub use models::primegroup::PublicEC;
pub use models::scalar_mul::FixedBaseMSM;
pub use models::scalar_mul::ScalarMul;
pub use models::scalar_mul::VariableBaseMSM;
pub use models::short_weierstrass::ShortWeierstrass;
pub use models::short_weierstrass::ShortWeierstrassOperations;
pub use models::twisted_edwards::EdwardsAM1UnifiedOperations;
pub use models::twisted_edwards::TwistedEdwardsAM1;
pub use models::twisted_edwards::TwistedEdwardsGeneral;
pub use models::CurveOperations;
pub use vector::pedersen::Pedersen;
pub use vector::pedersen::PedersenError;
pub use vector::pedersen::PedersenPP;
pub use vector::pedersen::PedersenVec;
pub use vector::pedersen::PedersenVecPP;
pub use vector::BasedVector;
pub use vector::InnerProductCommitment;
pub use vector::InnerProductVector;
pub use vector::VCPublicParameters;
pub use vector::Vector;
pub use vector::VectorCommitment;
pub use rings::AsRing;
pub use rings::Ring;
pub use fields::abstract_operations::arithmetic::ArithmeticOperations;
pub use fields::abstract_operations::exponentiation::Exponentiation;
pub use fields::abstract_operations::inversion::Inversion;
pub use models::twisted_edwards::EdwardsAM1;
pub use models::twisted_edwards::EdwardsGeneralUnifiedOperations;
pub use models::twisted_edwards::TwistedEdwardsGeneralUnified;
pub use models::twisted_edwards::TwistedEdwardsUnifiedAM1;
