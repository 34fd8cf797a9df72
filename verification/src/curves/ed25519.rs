//! The curve edwards25519: `-x^2 + y^2 = 1 + D x^2 y^2` with
//! `D = -121665/121666` over the field of order `2^255 - 19`, and its
//! subgroup of prime order `2^252 + 27742317777372353535851937790883648493`.

use vstd::prelude::*;
use crate::biginteger::limbint::LimbInt;
use crate::biginteger::limbint::limbs_val;
use crate::biginteger::limbint::lemma_limbs_val_4;
use crate::fields::Field;
use crate::fields::PrimeField;
use crate::fields::abstract_operations::F;
use crate::fields::abstract_operations::PrimeFieldOperations;
use crate::fields::general_reduction::GeneralReduction;
use crate::fields::general_reduction::GeneralReductionOperations;
use crate::fields::montgomery::MontParameters;
use crate::fields::montgomery::MontgomeryOperations;
use crate::fields::montgomery::mont_valid;
use crate::fields::solinas::SolinasParameters;
use crate::fields::solinas::SolinasReduction;
use crate::fields::solinas::solinas_valid;
use crate::models::coordinates::Affine;
use crate::models::coordinates::Coordinates;
use crate::models::coordinates::ExtendedPoint;
use crate::models::primegroup::GroupEC;
use crate::models::primegroup::PublicEC;
use crate::models::primegroup::subgroup::PrimeSubGroupConfig;
use crate::models::twisted_edwards::EdwardsAM1UnifiedOperations;
use crate::models::twisted_edwards::TwistedEdwardsAM1;
use crate::models::twisted_edwards::TwistedEdwardsUnifiedAM1;
use crate::models::twisted_edwards::TwistedEdwardsGeneral;
use crate::models::twisted_edwards::TwistedEdwardsGeneralUnified;
use crate::fields::One;
use crate::fields::f_neg;
use crate::fields::f_mul;
use crate::fields::algebra::val;
use crate::fields::algebra::lemma_zero_one_value;
use crate::fields::modular::lemma_mod_unique;
use crate::fields::modular::lemma_mod_add_multiple;
use crate::models::edwards_group_law::on_curve;
use crate::models::edwards_group_law::consistent;
use crate::models::edwards_closure::curve_point;
use crate::models::edwards_closure::lemma_ladder_closed;
use crate::models::scalar_mul::ladder;

verus! {

/// The field of order `2^255 - 19`, on canonical residues.
pub type Fp25519 = F<GeneralReductionOperations<4, SolinasReduction<4, Fp25519Params>>>;

/// The field of order `2^255 - 19`, on Montgomery representatives.
pub type Fp25519Mont = F<MontgomeryOperations<4, Fp25519Params>>;

/// The scalars of the group: the field whose order is that of the subgroup.
pub type ScalarEd25519 = F<MontgomeryOperations<4, ScalarEd25519Parameters>>;

/// The subgroup of prime order of edwards25519.
pub type GroupEd25519 = GroupEC<EdwardsAM1UnifiedOperations<Ed25519Parameters>>;

/// The public form of the elements of the subgroup.
pub type AffineEd25519 = PublicEC<EdwardsAM1UnifiedOperations<Ed25519Parameters>>;

/// The parameters of the curve.
pub struct Ed25519Parameters;

/// The parameters of the field of order `2^255 - 19`.
pub struct Fp25519Params;

/// The parameters of the scalar field.
pub struct ScalarEd25519Parameters;

/// `2^255 - 19`.
pub open spec fn modulus25519() -> nat {
    0x7fffffffffffffffffffffffffffffffffffffffffffffffffffffffffffffednat
}

/// `2^252 + 27742317777372353535851937790883648493`.
pub open spec fn order25519() -> nat {
    0x1000000000000000000000000000000014def9dea2f79cd65812631a5cf5d3ednat
}

impl Ed25519Parameters {
    /// The first coordinate of the base point:
    /// 15112221349535400772501151409588531511454012693041857206046113283949847762202
    pub const X: [u64; 4] = [
        14507833142362363162,
        7578651490590762930,
        13881468655802702940,
        2407515759118799870,
    ];

    /// The second coordinate of the base point:
    /// 46316835694926478169428394003475163141307993866256225615783033603165251855960
    pub const Y: [u64; 4] = [
        7378697629483820632,
        7378697629483820646,
        7378697629483820646,
        7378697629483820646,
    ];

    /// `D = -121665/121666`:
    /// 37095705934669439343138083508754565189542113879843219016388785533085940283555
    pub const D: [u64; 4] = [
        8496970652267935907,
        31536524315187371,
        10144147576115030168,
        5909686906226998899,
    ];

    /// `2 D`.
    pub const D2: [u64; 4] = [
        16993941304535871833,
        63073048630374742,
        1841551078520508720,
        2596001775599221991,
    ];
}

impl MontParameters<4> for Fp25519Params {
    type Limb = u64;

    const MODULUS: [u64; 4] = [
        18446744073709551597,
        18446744073709551615,
        18446744073709551615,
        9223372036854775807,
    ];

    const R: [u64; 4] = [38, 0, 0, 0];

    const R2: [u64; 4] = [1444, 0, 0, 0];

    const MP: u64 = 9708812670373448219;
}

impl SolinasParameters<4> for Fp25519Params {
    type Limb = u64;

    // 2^255 - 19; 2^256 = 2 * (2^255 - 19) + 38
    const MODULUS: [u64; 4] = [
        18446744073709551597,
        18446744073709551615,
        18446744073709551615,
        9223372036854775807,
    ];

    const C: u64 = 38;
}

impl MontParameters<4> for ScalarEd25519Parameters {
    type Limb = u64;

    const MODULUS: [u64; 4] = [6346243789798364141, 1503914060200516822, 0, 1152921504606846976];

    // 7237005577332262213973186563042994240413239274941949949428319933631315875101
    const R: [u64; 4] = [
        15486807595281847581,
        14334777244411350896,
        18446744073709551614,
        1152921504606846975,
    ];

    // 1627715501170711445284395025044413883736156588369414752970002579683115011841
    const R2: [u64; 4] = [
        11819153939886771969,
        14991950615390032711,
        14910419812499177061,
        259310039853996605,
    ];

    const MP: u64 = 15183074304973897243;
}

/// The constants of the field of order `2^255 - 19` are valid for
/// reduction by folding, and the modulus is `2^255 - 19`.
pub proof fn lemma_fp25519_valid()
    ensures
        solinas_valid::<4, Fp25519Params>(),
        Fp25519::valid(),
        Fp25519::modulus() == modulus25519(),
{
    lemma_limbs_val_4(<Fp25519Params as SolinasParameters<4>>::MODULUS@);
    assert(limbs_val(<Fp25519Params as SolinasParameters<4>>::MODULUS@, 4) == modulus25519());
    assert(0x1_0000_0000_0000_0000_0000_0000_0000_0000_0000_0000_0000_0000_0000_0000_0000_0000nat
        % 0x7fffffffffffffffffffffffffffffffffffffffffffffffffffffffffffffednat == 38);
    assert(38nat % 0x7fffffffffffffffffffffffffffffffffffffffffffffffffffffffffffffednat == 38);
    assert(solinas_valid::<4, Fp25519Params>());
    crate::fields::solinas::lemma_solinas_modulus::<4, Fp25519Params>();
    assert(<SolinasReduction<4, Fp25519Params> as GeneralReduction<4>>::valid());
    assert(<GeneralReductionOperations<
        4,
        SolinasReduction<4, Fp25519Params>,
    > as PrimeFieldOperations>::valid());
}

/// The constants of the field of order `2^255 - 19` are valid for
/// Montgomery arithmetic.
pub proof fn lemma_fp25519_mont_valid()
    ensures
        mont_valid::<4, Fp25519Params>(),
        Fp25519Mont::valid(),
        Fp25519Mont::modulus() == modulus25519(),
{
    lemma_limbs_val_4(<Fp25519Params as MontParameters<4>>::MODULUS@);
    lemma_limbs_val_4(<Fp25519Params as MontParameters<4>>::R@);
    lemma_limbs_val_4(<Fp25519Params as MontParameters<4>>::R2@);
    let p: nat = 0x7fffffffffffffffffffffffffffffffffffffffffffffffffffffffffffffednat;
    let w: nat = 0x1_0000_0000_0000_0000_0000_0000_0000_0000_0000_0000_0000_0000_0000_0000_0000_0000nat;
    assert(limbs_val(<Fp25519Params as MontParameters<4>>::MODULUS@, 4) == p);
    assert(limbs_val(<Fp25519Params as MontParameters<4>>::R@, 4) == 38);
    assert(limbs_val(<Fp25519Params as MontParameters<4>>::R2@, 4) == 1444);
    assert(w % p == 38);
    vstd::arithmetic::div_mod::lemma_mul_mod_noop_general(w as int, w as int, p as int);
    assert(38int * 38int == 1444);
    assert(1444nat % p == 1444);
    assert((w * w) % p == 1444);
    assert((9708812670373448219nat * p + 1) % 0x1_0000_0000_0000_0000nat == 0);
    assert(mont_valid::<4, Fp25519Params>());
    assert(<MontgomeryOperations<4, Fp25519Params> as PrimeFieldOperations>::valid());
}

/// The constants of the scalar field are valid, and its order is the order
/// of the subgroup.
pub proof fn lemma_scalar_valid()
    ensures
        mont_valid::<4, ScalarEd25519Parameters>(),
        ScalarEd25519::valid(),
        ScalarEd25519::modulus() == order25519(),
{
    lemma_limbs_val_4(<ScalarEd25519Parameters as MontParameters<4>>::MODULUS@);
    lemma_limbs_val_4(<ScalarEd25519Parameters as MontParameters<4>>::R@);
    lemma_limbs_val_4(<ScalarEd25519Parameters as MontParameters<4>>::R2@);
    let p: nat = 0x1000000000000000000000000000000014def9dea2f79cd65812631a5cf5d3ednat;
    let w: nat = 0x1_0000_0000_0000_0000_0000_0000_0000_0000_0000_0000_0000_0000_0000_0000_0000_0000nat;
    let r: nat = 0xffffffffffffffffffffffffffffffec6ef5bf4737dcf70d6ec31748d98951dnat;
    assert(limbs_val(<ScalarEd25519Parameters as MontParameters<4>>::MODULUS@, 4) == p);
    assert(limbs_val(<ScalarEd25519Parameters as MontParameters<4>>::R@, 4) == r);
    assert(w == 15 * p + r);
    assert(w % p == r) by {
        crate::fields::modular::lemma_mod_unique(r as int, w as int, -15, p as int);
    }
    assert(mont_valid::<4, ScalarEd25519Parameters>()) by {
        lemma_scalar_r2();
        assert((15183074304973897243nat * p + 1) % 0x1_0000_0000_0000_0000nat == 0);
    }
    assert(<MontgomeryOperations<4, ScalarEd25519Parameters> as PrimeFieldOperations>::valid());
}

/// `R2` of the scalar field is `R^2 mod l`.
proof fn lemma_scalar_r2()
    ensures
        limbs_val(<ScalarEd25519Parameters as MontParameters<4>>::R2@, 4) == (
        0x1_0000_0000_0000_0000_0000_0000_0000_0000_0000_0000_0000_0000_0000_0000_0000_0000nat
            * 0x1_0000_0000_0000_0000_0000_0000_0000_0000_0000_0000_0000_0000_0000_0000_0000_0000nat)
            % 0x1000000000000000000000000000000014def9dea2f79cd65812631a5cf5d3ednat,
{
    lemma_limbs_val_4(<ScalarEd25519Parameters as MontParameters<4>>::R2@);
    let p: int = 0x1000000000000000000000000000000014def9dea2f79cd65812631a5cf5d3edint;
    let w: int = 0x1_0000_0000_0000_0000_0000_0000_0000_0000_0000_0000_0000_0000_0000_0000_0000_0000int;
    let r: int = 0xffffffffffffffffffffffffffffffec6ef5bf4737dcf70d6ec31748d98951dint;
    let r2: int = 0x399411b7c309a3dceec73d217f5be65d00e1ba768859347a40611e3449c0f01int;
    assert(limbs_val(<ScalarEd25519Parameters as MontParameters<4>>::R2@, 4) == r2);
    assert(w == 15 * p + r);
    // w * w = r * r (mod p)
    crate::fields::modular::lemma_mod_add_multiple(r, 15, p);
    vstd::arithmetic::div_mod::lemma_mul_mod_noop_general(w, w, p);
    vstd::arithmetic::div_mod::lemma_mul_mod_noop_general(r, r, p);
    let q: int = 0xffffffffffffffffffffffffffffffd78ffbe0a4404020b55c5ffcebe3b5668int;
    assert(r * r == q * p + r2) by (nonlinear_arith)
        requires
            p == 0x1000000000000000000000000000000014def9dea2f79cd65812631a5cf5d3edint,
            r == 0xffffffffffffffffffffffffffffffec6ef5bf4737dcf70d6ec31748d98951dint,
            r2 == 0x399411b7c309a3dceec73d217f5be65d00e1ba768859347a40611e3449c0f01int,
            q == 0xffffffffffffffffffffffffffffffd78ffbe0a4404020b55c5ffcebe3b5668int,
    ;
    crate::fields::modular::lemma_mod_unique(r2, r * r, -q, p);
}

impl TwistedEdwardsAM1 for Ed25519Parameters {
    type Field = Fp25519;

    open spec fn d_spec() -> Fp25519 {
        Fp25519::from_value(limbs_val(Ed25519Parameters::D@, 4))
    }

    open spec fn d2_spec() -> Fp25519 {
        Fp25519::from_value(limbs_val(Ed25519Parameters::D2@, 4))
    }

    fn d() -> (r: Fp25519) {
        let element = LimbInt::from_limbs(Ed25519Parameters::D);
        proof {
            lemma_fp25519_valid();
            lemma_limbs_val_4(Ed25519Parameters::D@);
            assert(element@ < modulus25519());
        }
        let r = Fp25519::from_RAW_limbs(element);
        proof {
            r.lemma_value();
        }
        r
    }

    fn d2() -> (r: Fp25519) {
        let element = LimbInt::from_limbs(Ed25519Parameters::D2);
        proof {
            lemma_fp25519_valid();
            lemma_limbs_val_4(Ed25519Parameters::D2@);
            assert(element@ < modulus25519());
        }
        let r = Fp25519::from_RAW_limbs(element);
        proof {
            r.lemma_value();
        }
        r
    }
}

impl TwistedEdwardsUnifiedAM1 for Ed25519Parameters {
    type Field = Fp25519;

    type Scalar = ScalarEd25519;

    open spec fn d_spec() -> Fp25519 {
        <Ed25519Parameters as TwistedEdwardsAM1>::d_spec()
    }

    open spec fn d2_spec() -> Fp25519 {
        <Ed25519Parameters as TwistedEdwardsAM1>::d2_spec()
    }

    fn d() -> (r: Fp25519) {
        <Ed25519Parameters as TwistedEdwardsAM1>::d()
    }

    fn d2() -> (r: Fp25519) {
        <Ed25519Parameters as TwistedEdwardsAM1>::d2()
    }
}

impl TwistedEdwardsGeneral for Ed25519Parameters {
    type Field = Fp25519;

    /// `A = -1`.
    open spec fn a_spec() -> Fp25519 {
        f_neg(Fp25519::one_spec())
    }

    open spec fn d_spec() -> Fp25519 {
        <Ed25519Parameters as TwistedEdwardsAM1>::d_spec()
    }

    fn a() -> (r: Fp25519) {
        Fp25519::one().negated()
    }

    fn d() -> (r: Fp25519) {
        <Ed25519Parameters as TwistedEdwardsAM1>::d()
    }
}

impl TwistedEdwardsGeneralUnified for Ed25519Parameters {
    type Field = Fp25519;

    type Scalar = ScalarEd25519;

    /// `A = -1`.
    open spec fn a_spec() -> Fp25519 {
        f_neg(Fp25519::one_spec())
    }

    open spec fn d_spec() -> Fp25519 {
        <Ed25519Parameters as TwistedEdwardsAM1>::d_spec()
    }

    fn a() -> (r: Fp25519) {
        Fp25519::one().negated()
    }

    fn d() -> (r: Fp25519) {
        <Ed25519Parameters as TwistedEdwardsAM1>::d()
    }
}

impl PrimeSubGroupConfig for EdwardsAM1UnifiedOperations<Ed25519Parameters> {
    type ScalarField = ScalarEd25519;

    const COFACTOR: u32 = 8;

    open spec fn same_affine(a: Affine<Fp25519>, b: Affine<Fp25519>) -> bool {
        a.same(&b)
    }

    fn affine_equals(a: &Affine<Fp25519>, b: &Affine<Fp25519>) -> (r: bool) {
        a.equals(b)
    }

    open spec fn base_spec() -> Affine<Fp25519> {
        Affine {
            x: Fp25519::from_value(limbs_val(Ed25519Parameters::X@, 4) % modulus25519()),
            y: Fp25519::from_value(limbs_val(Ed25519Parameters::Y@, 4) % modulus25519()),
        }
    }

    fn generator(scalar: Option<&ScalarEd25519>) -> (r: Option<Affine<Fp25519>>) {
        let x_int = LimbInt::from_limbs(Ed25519Parameters::X);
        let y_int = LimbInt::from_limbs(Ed25519Parameters::Y);
        proof {
            lemma_fp25519_valid();
            x_int.lemma_int_val();
            y_int.lemma_int_val();
        }
        let x = Fp25519::from_int(&x_int);
        let y = Fp25519::from_int(&y_int);
        let affine_point = Affine::new(x, y);
        match scalar {
            None => Some(affine_point),
            Some(s) => {
                let point = ExtendedPoint::from_affine(affine_point);
                let multiple = <Self as PrimeSubGroupConfig>::scalar_mul(&point, s);
                multiple.into_affine()
            },
        }
    }
}

/// The base point in extended coordinates.
pub open spec fn base_point() -> ExtendedPoint<Fp25519> {
    ExtendedPoint::from_affine_spec(
        <EdwardsAM1UnifiedOperations<Ed25519Parameters> as PrimeSubGroupConfig>::base_spec(),
    )
}

/// The base point is a point of the curve, and its extended coordinates
/// are consistent.
pub proof fn lemma_base_point()
    ensures
        Fp25519::valid(),
        on_curve::<Ed25519Parameters>(base_point()),
        consistent(base_point()),
{
    let p: int = 0x7fffffffffffffffffffffffffffffffffffffffffffffffffffffffffffffedint;
    let x: int = 0x216936d3cd6e53fec0a4e231fdd6dc5c692cc7609525a7b2c9562d608f25d51aint;
    let y: int = 0x6666666666666666666666666666666666666666666666666666666666666658int;
    let d: int = 0x52036cee2b6ffe738cc740797779e89800700a4d4141d8ab75eb4dca135978a3int;
    let t: int = 0x67875f0fd78b766566ea4e8e64abe37d20f09f80775152f56dde8ab3a5b7dda3int;
    let q: int = 0x1aba92430abea9989a1d81c197df16b05423d2b3aa848628a111bde6d8eb10e1int;
    let k: int = 0x1ad3797b917a39f9f486efcccc509de6f48e0949f42c6e9c900b1570700e3bb93a7cea0e60a67e5c8423bcf9129dc7be6f6ddce18dd0e710b9fb776c353930e0int;
    lemma_fp25519_valid();
    lemma_limbs_val_4(Ed25519Parameters::X@);
    lemma_limbs_val_4(Ed25519Parameters::Y@);
    lemma_limbs_val_4(Ed25519Parameters::D@);
    assert(limbs_val(Ed25519Parameters::X@, 4) == x);
    assert(limbs_val(Ed25519Parameters::Y@, 4) == y);
    assert(limbs_val(Ed25519Parameters::D@, 4) == d);
    assert(modulus25519() == p);
    let base = <EdwardsAM1UnifiedOperations<Ed25519Parameters> as PrimeSubGroupConfig>::base_spec();
    let point = base_point();
    assert(point == (ExtendedPoint {
        X: base.x,
        Y: base.y,
        T: f_mul(base.x, base.y),
        Z: Fp25519::one_spec(),
    }));
    vstd::arithmetic::div_mod::lemma_small_mod(x as nat, p as nat);
    vstd::arithmetic::div_mod::lemma_small_mod(y as nat, p as nat);
    Fp25519::lemma_from_value(x as nat);
    Fp25519::lemma_from_value(y as nat);
    Fp25519::lemma_from_value(d as nat);
    Fp25519::lemma_from_value(t as nat);
    lemma_zero_one_value::<Fp25519>();
    assert(val(point.X) == x);
    assert(val(point.Y) == y);
    assert(val(point.Z) == 1);
    assert(val(<Ed25519Parameters as TwistedEdwardsAM1>::d_spec()) == d);
    // T = x * y mod p
    assert(x * y == q * p + t) by (nonlinear_arith)
        requires
            p == 0x7fffffffffffffffffffffffffffffffffffffffffffffffffffffffffffffedint,
            x == 0x216936d3cd6e53fec0a4e231fdd6dc5c692cc7609525a7b2c9562d608f25d51aint,
            y == 0x6666666666666666666666666666666666666666666666666666666666666658int,
            t == 0x67875f0fd78b766566ea4e8e64abe37d20f09f80775152f56dde8ab3a5b7dda3int,
            q == 0x1aba92430abea9989a1d81c197df16b05423d2b3aa848628a111bde6d8eb10e1int,
    ;
    lemma_mod_unique(t, x * y, -q, p);
    assert(val(point.T) == t);
    // T * Z = X * Y
    assert(t * 1 == t);
    lemma_mod_add_multiple(t, q, p);
    assert(consistent(point));
    // Y^2 - X^2 = Z^2 + D * T^2
    assert(1 * 1 + d * (t * t) == (y * y - x * x) + k * p) by (nonlinear_arith)
        requires
            p == 0x7fffffffffffffffffffffffffffffffffffffffffffffffffffffffffffffedint,
            x == 0x216936d3cd6e53fec0a4e231fdd6dc5c692cc7609525a7b2c9562d608f25d51aint,
            y == 0x6666666666666666666666666666666666666666666666666666666666666658int,
            d == 0x52036cee2b6ffe738cc740797779e89800700a4d4141d8ab75eb4dca135978a3int,
            t == 0x67875f0fd78b766566ea4e8e64abe37d20f09f80775152f56dde8ab3a5b7dda3int,
            k == 0x1ad3797b917a39f9f486efcccc509de6f48e0949f42c6e9c900b1570700e3bb93a7cea0e60a67e5c8423bcf9129dc7be6f6ddce18dd0e710b9fb776c353930e0int,
    ;
    lemma_mod_add_multiple(y * y - x * x, k, p);
}

/// Every multiple of the base point that the ladder computes is a point
/// of the curve.
pub proof fn lemma_multiples_on_curve(bits: Seq<bool>)
    ensures
        curve_point::<Ed25519Parameters>(
            ladder::<EdwardsAM1UnifiedOperations<Ed25519Parameters>>(base_point(), bits),
        ),
{
    lemma_base_point();
    lemma_ladder_closed::<Ed25519Parameters>(base_point(), bits);
}

} // verus!
