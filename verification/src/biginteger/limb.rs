//! Machine words as the digits of a big integer.
//!
//! A limb is one digit in base `b`, where `b` is the number of values the
//! word type can hold. All arithmetic is total: what does not fit in one
//! word leaves through the carry.

use vstd::prelude::*;
use vstd::arithmetic::power::pow;

verus! {

/// The number a byte string stands for, most significant byte first.
pub open spec fn be_bytes_val(bytes: Seq<u8>) -> nat
    decreases bytes.len(),
{
    if bytes.len() == 0 {
        0
    } else {
        be_bytes_val(bytes.drop_last()) * 256 + bytes.last() as nat
    }
}

/// The number a byte string stands for, least significant byte first.
pub open spec fn le_bytes_val(bytes: Seq<u8>) -> nat
    decreases bytes.len(),
{
    if bytes.len() == 0 {
        0
    } else {
        bytes.first() as nat + 256 * le_bytes_val(bytes.drop_first())
    }
}

/// A carry or borrow bit as a number.
pub open spec fn bit(carry: bool) -> nat {
    if carry {
        1
    } else {
        0
    }
}

/// Returned when a byte string does not have the length of the integer it
/// should be read into.
#[derive(Debug, PartialEq, Eq, Clone, Copy)]
pub struct WrongByteLengthError;

/// One digit of a big integer.
///
/// The carry of an addition or a subtraction is a single bit, held in a
/// `bool`; the carry of a multiplication is a whole limb.
pub trait Limb: Sized + Copy {
    /// Number of bytes in a limb.
    const BYTES: usize;

    const ZERO: Self;

    const ONE: Self;

    /// The base `b`: limbs stand for the numbers `0 .. b`.
    spec fn base() -> nat;

    /// The number this limb stands for.
    spec fn val(self) -> nat;

    /// The limb that stands for a number below the base.
    spec fn of_val(n: nat) -> Self;

    /// Every limb is below the base, the base is `256^BYTES`, and the two
    /// constants are what their names say.
    proof fn lemma_limb_range(self)
        ensures
            self.val() < Self::base(),
            Self::base() == pow(256, Self::BYTES as nat),
            Self::BYTES >= 1,
            Self::base() >= 256,
            Self::ZERO.val() == 0,
            Self::ONE.val() == 1,
            forall|n: nat| n < Self::base() ==> (#[trigger] Self::of_val(n)).val() == n,
    ;

    /// Two limbs that stand for the same number are the same limb.
    proof fn lemma_val_injective(self, other: Self)
        requires
            self.val() == other.val(),
        ensures
            self == other,
    ;

    /// `self + rhs + carry`, as a limb and an outgoing carry bit.
    fn add_carry(&self, rhs: Self, carry: bool) -> (r: (Self, bool))
        ensures
            r.0.val() + bit(r.1) * Self::base() == self.val() + rhs.val() + bit(carry),
    ;

    /// `self - rhs - carry`, as a limb and an outgoing borrow bit.
    fn sub_carry(&self, rhs: Self, carry: bool) -> (r: (Self, bool))
        ensures
            r.0.val() - bit(r.1) * Self::base() == self.val() - rhs.val() - bit(carry),
    ;

    /// `self * rhs + carry`, as a low and a high limb.
    fn mul_carry(&self, rhs: Self, carry: Self) -> (r: (Self, Self))
        ensures
            r.0.val() + r.1.val() * Self::base() == self.val() * rhs.val() + carry.val(),
    ;

    /// Whether two limbs stand for the same number.
    fn same(&self, other: &Self) -> (r: bool)
        ensures
            r == (self.val() == other.val()),
    ;

    /// Whether this limb stands for a smaller number than the other.
    fn below(&self, other: &Self) -> (r: bool)
        ensures
            r == (self.val() < other.val()),
    ;

    /// The bytes of the limb, most significant first.
    fn into_bytes_be(&self) -> (r: Vec<u8>)
        ensures
            r@.len() == Self::BYTES,
            be_bytes_val(r@) == self.val(),
    ;

    /// The bytes of the limb, least significant first.
    fn into_bytes_le(&self) -> (r: Vec<u8>)
        ensures
            r@.len() == Self::BYTES,
            le_bytes_val(r@) == self.val(),
    ;

    /// Reads a limb from exactly `BYTES` bytes, most significant first.
    fn from_bytes_be(bytes: &[u8]) -> (r: Result<Self, WrongByteLengthError>)
        ensures
            r is Ok <==> bytes@.len() == Self::BYTES,
            r matches Ok(l) ==> l.val() == be_bytes_val(bytes@),
    ;

    /// Reads a limb from exactly `BYTES` bytes, least significant first.
    fn from_bytes_le(bytes: &[u8]) -> (r: Result<Self, WrongByteLengthError>)
        ensures
            r is Ok <==> bytes@.len() == Self::BYTES,
            r matches Ok(l) ==> l.val() == le_bytes_val(bytes@),
    ;
}

/// Unfolds `be_bytes_val` on four bytes.
pub proof fn lemma_be_bytes_4(s: Seq<u8>)
    requires
        s.len() == 4,
    ensures
        be_bytes_val(s) == ((s[0] as nat * 256 + s[1] as nat) * 256 + s[2] as nat) * 256
            + s[3] as nat,
{
    let s3 = s.drop_last();
    let s2 = s3.drop_last();
    let s1 = s2.drop_last();
    assert(s1.drop_last().len() == 0);
    assert(be_bytes_val(s1.drop_last()) == 0);
    assert(be_bytes_val(s1) == s[0] as nat);
    assert(be_bytes_val(s2) == be_bytes_val(s1) * 256 + s[1] as nat);
    assert(be_bytes_val(s3) == be_bytes_val(s2) * 256 + s[2] as nat);
}

/// Unfolds `le_bytes_val` on four bytes.
pub proof fn lemma_le_bytes_4(s: Seq<u8>)
    requires
        s.len() == 4,
    ensures
        le_bytes_val(s) == s[0] as nat + 256 * (s[1] as nat + 256 * (s[2] as nat + 256
            * (s[3] as nat))),
{
    let s1 = s.drop_first();
    let s2 = s1.drop_first();
    let s3 = s2.drop_first();
    assert(s3.drop_first().len() == 0);
    assert(le_bytes_val(s3.drop_first()) == 0);
    assert(le_bytes_val(s3) == s[3] as nat);
    assert(le_bytes_val(s2) == s[2] as nat + 256 * le_bytes_val(s3));
    assert(le_bytes_val(s1) == s[1] as nat + 256 * le_bytes_val(s2));
}

/// `be_bytes_val` of a string that continues four bytes further.
pub proof fn lemma_be_bytes_8(s: Seq<u8>)
    requires
        s.len() == 8,
    ensures
        be_bytes_val(s) == be_bytes_val(s.subrange(0, 4)) * 0x1_0000_0000 + be_bytes_val(
            s.subrange(4, 8),
        ),
{
    let hi = s.subrange(0, 4);
    let lo = s.subrange(4, 8);
    lemma_be_bytes_4(hi);
    lemma_be_bytes_4(lo);
    let s7 = s.drop_last();
    let s6 = s7.drop_last();
    let s5 = s6.drop_last();
    let s4 = s5.drop_last();
    assert(s4 =~= hi);
    assert(be_bytes_val(s5) == be_bytes_val(s4) * 256 + s[4] as nat);
    assert(be_bytes_val(s6) == be_bytes_val(s5) * 256 + s[5] as nat);
    assert(be_bytes_val(s7) == be_bytes_val(s6) * 256 + s[6] as nat);
    assert(be_bytes_val(s) == be_bytes_val(s7) * 256 + s[7] as nat);
}

/// `le_bytes_val` of a string that continues four bytes further.
pub proof fn lemma_le_bytes_8(s: Seq<u8>)
    requires
        s.len() == 8,
    ensures
        le_bytes_val(s) == le_bytes_val(s.subrange(0, 4)) + 0x1_0000_0000 * le_bytes_val(
            s.subrange(4, 8),
        ),
{
    let lo = s.subrange(0, 4);
    let hi = s.subrange(4, 8);
    lemma_le_bytes_4(lo);
    lemma_le_bytes_4(hi);
    let s1 = s.drop_first();
    let s2 = s1.drop_first();
    let s3 = s2.drop_first();
    let s4 = s3.drop_first();
    assert(s4 =~= hi);
    assert(le_bytes_val(s3) == s[3] as nat + 256 * le_bytes_val(s4));
    assert(le_bytes_val(s2) == s[2] as nat + 256 * le_bytes_val(s3));
    assert(le_bytes_val(s1) == s[1] as nat + 256 * le_bytes_val(s2));
    assert(le_bytes_val(s) == s[0] as nat + 256 * le_bytes_val(s1));
}

/// `256^4` and `256^8` as numbers.
pub proof fn lemma_pow256()
    ensures
        pow(256, 4) == 0x1_0000_0000,
        pow(256, 8) == 0x1_0000_0000_0000_0000,
{
    reveal_with_fuel(pow, 9);
}

/// The four bytes of a 32-bit word, most significant first.
fn split_u32(x: u32) -> (r: (u8, u8, u8, u8))
    ensures
        x == ((r.0 as nat * 256 + r.1 as nat) * 256 + r.2 as nat) * 256 + r.3 as nat,
{
    let b3 = (x % 256) as u8;
    let r1 = x / 256;
    let b2 = (r1 % 256) as u8;
    let r2 = r1 / 256;
    let b1 = (r2 % 256) as u8;
    let b0 = (r2 / 256) as u8;
    (b0, b1, b2, b3)
}

/// The 32-bit word made of four bytes, most significant first.
fn join_u32(b0: u8, b1: u8, b2: u8, b3: u8) -> (x: u32)
    ensures
        x == ((b0 as nat * 256 + b1 as nat) * 256 + b2 as nat) * 256 + b3 as nat,
{
    (((b0 as u32) * 256 + (b1 as u32)) * 256 + (b2 as u32)) * 256 + (b3 as u32)
}

impl Limb for u32 {
    const BYTES: usize = 4;

    const ZERO: Self = 0;

    const ONE: Self = 1;

    open spec fn base() -> nat {
        0x1_0000_0000
    }

    open spec fn val(self) -> nat {
        self as nat
    }

    open spec fn of_val(n: nat) -> Self {
        n as u32
    }

    proof fn lemma_limb_range(self) {
        lemma_pow256();
    }

    proof fn lemma_val_injective(self, other: Self) {
    }

    fn add_carry(&self, rhs: Self, carry: bool) -> (r: (Self, bool)) {
        let a = self.wrapping_add(rhs);
        let b = a < *self;
        let c: u32 = if carry { 1 } else { 0 };
        let s = a.wrapping_add(c);
        let d = s < a;
        (s, b || d)
    }

    fn sub_carry(&self, rhs: Self, carry: bool) -> (r: (Self, bool)) {
        let a = self.wrapping_sub(rhs);
        let b = *self < rhs;
        let c: u32 = if carry { 1 } else { 0 };
        let s = a.wrapping_sub(c);
        let d = a < c;
        (s, b || d)
    }

    fn mul_carry(&self, rhs: Self, carry: Self) -> (r: (Self, Self)) {
        let x = *self as u64;
        let y = rhs as u64;
        assert(x * y <= 0xffff_ffff * 0xffff_ffff) by (nonlinear_arith)
            requires
                x <= 0xffff_ffff,
                y <= 0xffff_ffff,
        ;
        let m: u64 = x * y + (carry as u64);
        ((m % 0x1_0000_0000) as u32, (m / 0x1_0000_0000) as u32)
    }

    fn same(&self, other: &Self) -> (r: bool) {
        *self == *other
    }

    fn below(&self, other: &Self) -> (r: bool) {
        *self < *other
    }

    fn into_bytes_be(&self) -> (r: Vec<u8>) {
        let (b0, b1, b2, b3) = split_u32(*self);
        let r = vec![b0, b1, b2, b3];
        proof {
            lemma_be_bytes_4(r@);
        }
        r
    }

    fn into_bytes_le(&self) -> (r: Vec<u8>) {
        let (b0, b1, b2, b3) = split_u32(*self);
        let r = vec![b3, b2, b1, b0];
        proof {
            lemma_le_bytes_4(r@);
        }
        r
    }

    fn from_bytes_be(bytes: &[u8]) -> (r: Result<Self, WrongByteLengthError>) {
        if bytes.len() != 4 {
            return Err(WrongByteLengthError);
        }
        proof {
            lemma_be_bytes_4(bytes@);
        }
        Ok(join_u32(bytes[0], bytes[1], bytes[2], bytes[3]))
    }

    fn from_bytes_le(bytes: &[u8]) -> (r: Result<Self, WrongByteLengthError>) {
        if bytes.len() != 4 {
            return Err(WrongByteLengthError);
        }
        proof {
            lemma_le_bytes_4(bytes@);
        }
        Ok(join_u32(bytes[3], bytes[2], bytes[1], bytes[0]))
    }
}

impl Limb for u64 {
    const BYTES: usize = 8;

    const ZERO: Self = 0;

    const ONE: Self = 1;

    open spec fn base() -> nat {
        0x1_0000_0000_0000_0000
    }

    open spec fn val(self) -> nat {
        self as nat
    }

    open spec fn of_val(n: nat) -> Self {
        n as u64
    }

    proof fn lemma_limb_range(self) {
        lemma_pow256();
    }

    proof fn lemma_val_injective(self, other: Self) {
    }

    fn add_carry(&self, rhs: Self, carry: bool) -> (r: (Self, bool)) {
        let a = self.wrapping_add(rhs);
        let b = a < *self;
        let c: u64 = if carry { 1 } else { 0 };
        let s = a.wrapping_add(c);
        let d = s < a;
        (s, b || d)
    }

    fn sub_carry(&self, rhs: Self, carry: bool) -> (r: (Self, bool)) {
        let a = self.wrapping_sub(rhs);
        let b = *self < rhs;
        let c: u64 = if carry { 1 } else { 0 };
        let s = a.wrapping_sub(c);
        let d = a < c;
        (s, b || d)
    }

    fn mul_carry(&self, rhs: Self, carry: Self) -> (r: (Self, Self)) {
        let x = *self as u128;
        let y = rhs as u128;
        assert(x * y <= 0xffff_ffff_ffff_ffff * 0xffff_ffff_ffff_ffff) by (nonlinear_arith)
            requires
                x <= 0xffff_ffff_ffff_ffff,
                y <= 0xffff_ffff_ffff_ffff,
        ;
        let m: u128 = x * y + (carry as u128);
        ((m % 0x1_0000_0000_0000_0000) as u64, (m / 0x1_0000_0000_0000_0000) as u64)
    }

    fn same(&self, other: &Self) -> (r: bool) {
        *self == *other
    }

    fn below(&self, other: &Self) -> (r: bool) {
        *self < *other
    }

    fn into_bytes_be(&self) -> (r: Vec<u8>) {
        let (b0, b1, b2, b3) = split_u32((*self / 0x1_0000_0000) as u32);
        let (b4, b5, b6, b7) = split_u32((*self % 0x1_0000_0000) as u32);
        let r = vec![b0, b1, b2, b3, b4, b5, b6, b7];
        proof {
            lemma_be_bytes_8(r@);
            lemma_be_bytes_4(r@.subrange(0, 4));
            lemma_be_bytes_4(r@.subrange(4, 8));
        }
        r
    }

    fn into_bytes_le(&self) -> (r: Vec<u8>) {
        let (b0, b1, b2, b3) = split_u32((*self / 0x1_0000_0000) as u32);
        let (b4, b5, b6, b7) = split_u32((*self % 0x1_0000_0000) as u32);
        let r = vec![b7, b6, b5, b4, b3, b2, b1, b0];
        proof {
            lemma_le_bytes_8(r@);
            lemma_le_bytes_4(r@.subrange(0, 4));
            lemma_le_bytes_4(r@.subrange(4, 8));
        }
        r
    }

    fn from_bytes_be(bytes: &[u8]) -> (r: Result<Self, WrongByteLengthError>) {
        if bytes.len() != 8 {
            return Err(WrongByteLengthError);
        }
        proof {
            lemma_be_bytes_8(bytes@);
            lemma_be_bytes_4(bytes@.subrange(0, 4));
            lemma_be_bytes_4(bytes@.subrange(4, 8));
        }
        let hi = join_u32(bytes[0], bytes[1], bytes[2], bytes[3]);
        let lo = join_u32(bytes[4], bytes[5], bytes[6], bytes[7]);
        Ok((hi as u64) * 0x1_0000_0000 + (lo as u64))
    }

    fn from_bytes_le(bytes: &[u8]) -> (r: Result<Self, WrongByteLengthError>) {
        if bytes.len() != 8 {
            return Err(WrongByteLengthError);
        }
        proof {
            lemma_le_bytes_8(bytes@);
            lemma_le_bytes_4(bytes@.subrange(0, 4));
            lemma_le_bytes_4(bytes@.subrange(4, 8));
        }
        let lo = join_u32(bytes[3], bytes[2], bytes[1], bytes[0]);
        let hi = join_u32(bytes[7], bytes[6], bytes[5], bytes[4]);
        Ok((hi as u64) * 0x1_0000_0000 + (lo as u64))
    }
}

/// A big-endian byte string followed by another: the first is shifted up
/// by the length of the second.
pub proof fn lemma_be_bytes_append(a: Seq<u8>, b: Seq<u8>)
    ensures
        be_bytes_val(a + b) == be_bytes_val(a) * pow(256, b.len()) + be_bytes_val(b),
    decreases b.len(),
{
    vstd::arithmetic::power::lemma_pow0(256);
    if b.len() == 0 {
        assert(a + b =~= a);
    } else {
        let rest = b.drop_last();
        lemma_be_bytes_append(a, rest);
        assert((a + b).drop_last() =~= a + rest);
        vstd::arithmetic::power::lemma_pow_adds(256, rest.len(), 1);
        vstd::arithmetic::power::lemma_pow1(256);
        let x = be_bytes_val(a) as int;
        let q = pow(256, rest.len());
        assert((x * q) * 256 == x * (q * 256)) by (nonlinear_arith);
    }
}

/// A little-endian byte string followed by another: the second is shifted
/// up by the length of the first.
pub proof fn lemma_le_bytes_append(a: Seq<u8>, b: Seq<u8>)
    ensures
        le_bytes_val(a + b) == le_bytes_val(a) + pow(256, a.len()) * le_bytes_val(b),
    decreases a.len(),
{
    vstd::arithmetic::power::lemma_pow0(256);
    if a.len() == 0 {
        assert(a + b =~= b);
    } else {
        let rest = a.drop_first();
        lemma_le_bytes_append(rest, b);
        assert((a + b).drop_first() =~= rest + b);
        assert((a + b).first() == a.first());
        vstd::arithmetic::power::lemma_pow_adds(256, 1, rest.len());
        vstd::arithmetic::power::lemma_pow1(256);
        let y = le_bytes_val(b) as int;
        let q = pow(256, rest.len());
        assert(256 * (q * y) == (256 * q) * y) by (nonlinear_arith);
        assert(256 * (le_bytes_val(rest) + q * y) == 256 * le_bytes_val(rest) + 256 * (q * y))
            by (nonlinear_arith);
    }
}

} // verus!
