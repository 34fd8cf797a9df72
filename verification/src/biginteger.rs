//! Fixed-width big integers made of limbs.
//!
//! An integer is a string of limbs, least significant limb first. A limb is
//! a machine word, `u32` or `u64`, with carrying arithmetic. Given a limb
//! type `L` and a length `N`, `LimbInt<L, N>` holds the integers that `N`
//! limbs can stand for.

pub mod limb;
pub mod limbint;

use vstd::prelude::*;
use limb::Limb;
use limb::be_bytes_val;
use limbint::limbs_val;
use limbint::base_pow;
use limbint::lemma_base_pow;

verus! {

/// An integer that can be read as a string of limbs.
pub trait Integer: Sized {
    type Limb: Limb;

    /// The limbs, least significant first.
    spec fn limbs_le(&self) -> Seq<Self::Limb>;

    fn into_limbs_le(&self) -> (r: &[Self::Limb])
        ensures
            r@ == self.limbs_le(),
    ;
}

/// The number an integer stands for.
pub open spec fn int_val<I: Integer>(x: &I) -> nat {
    limbs_val(x.limbs_le(), x.limbs_le().len())
}

/// The number of bits of an integer: eight for each byte of each limb.
pub open spec fn int_bits<I: Integer>(x: &I) -> nat {
    8 * (x.limbs_le().len() * I::Limb::BYTES as nat)
}

/// The `len` lowest binary digits of `n`, most significant first.
pub open spec fn bits_be(n: nat, len: nat) -> Seq<bool>
    decreases len,
{
    if len == 0 {
        Seq::empty()
    } else {
        bits_be(n / 2, (len - 1) as nat).push(n % 2 == 1)
    }
}

/// A bit string is determined by its length and the number it stands for.
pub proof fn lemma_bits_be_unique(bits: Seq<bool>)
    ensures
        bits == bits_be(be_bits_val(bits), bits.len()),
    decreases bits.len(),
{
    if bits.len() == 0 {
        assert(bits =~= Seq::empty());
    } else {
        let rest = bits.drop_last();
        lemma_bits_be_unique(rest);
        let b: nat = if bits.last() { 1 } else { 0 };
        let v = be_bits_val(rest);
        assert((2 * v + b) / 2 == v);
        assert(((2 * v + b) % 2 == 1) == bits.last());
        assert(bits =~= rest.push(bits.last()));
    }
}

/// The bits of an integer, most significant first.
pub open spec fn scalar_bits<I: Integer>(x: &I) -> Seq<bool> {
    bits_be(int_val(x), int_bits(x))
}

/// The number a bit string stands for, most significant bit first.
pub open spec fn be_bits_val(bits: Seq<bool>) -> nat
    decreases bits.len(),
{
    if bits.len() == 0 {
        0
    } else {
        2 * be_bits_val(bits.drop_last()) + (if bits.last() { 1nat } else { 0nat })
    }
}

/// Appending one byte to a big-endian byte string.
pub proof fn lemma_be_bytes_push(s: Seq<u8>, b: u8)
    ensures
        be_bytes_val(s.push(b)) == be_bytes_val(s) * 256 + b as nat,
{
    assert(s.push(b).drop_last() =~= s);
}

/// Appending one bit to a big-endian bit string.
pub proof fn lemma_be_bits_push(s: Seq<bool>, b: bool)
    ensures
        be_bits_val(s.push(b)) == 2 * be_bits_val(s) + (if b { 1nat } else { 0nat }),
{
    assert(s.push(b).drop_last() =~= s);
}

/// Namespace for reading an integer as bits.
pub struct Bits;

/// Namespace for reading an integer as bytes.
pub struct Bytes;

/// Appends the eight bits of a byte, most significant first.
fn push_bits_be(out: &mut Vec<bool>, b: u8)
    ensures
        final(out)@.len() == old(out)@.len() + 8,
        be_bits_val(final(out)@) == be_bits_val(old(out)@) * 256 + b as nat,
{
    let ghost s0 = out@;
    let b7 = b >= 128;
    let r6: u8 = if b7 { b - 128 } else { b };
    let b6 = r6 >= 64;
    let r5: u8 = if b6 { r6 - 64 } else { r6 };
    let b5 = r5 >= 32;
    let r4: u8 = if b5 { r5 - 32 } else { r5 };
    let b4 = r4 >= 16;
    let r3: u8 = if b4 { r4 - 16 } else { r4 };
    let b3 = r3 >= 8;
    let r2: u8 = if b3 { r3 - 8 } else { r3 };
    let b2 = r2 >= 4;
    let r1: u8 = if b2 { r2 - 4 } else { r2 };
    let b1 = r1 >= 2;
    let r0: u8 = if b1 { r1 - 2 } else { r1 };
    let b0 = r0 >= 1;
    out.push(b7);
    out.push(b6);
    out.push(b5);
    out.push(b4);
    out.push(b3);
    out.push(b2);
    out.push(b1);
    out.push(b0);
    proof {
        let s1 = s0.push(b7);
        let s2 = s1.push(b6);
        let s3 = s2.push(b5);
        let s4 = s3.push(b4);
        let s5 = s4.push(b3);
        let s6 = s5.push(b2);
        let s7 = s6.push(b1);
        lemma_be_bits_push(s0, b7);
        lemma_be_bits_push(s1, b6);
        lemma_be_bits_push(s2, b5);
        lemma_be_bits_push(s3, b4);
        lemma_be_bits_push(s4, b3);
        lemma_be_bits_push(s5, b2);
        lemma_be_bits_push(s6, b1);
        lemma_be_bits_push(s7, b0);
    }
}

impl Bytes {
    /// The bytes of an integer, most significant first: the limbs from the
    /// top down, each as its big-endian bytes.
    pub fn into_iter_be<I: Integer>(element: &I) -> (r: Vec<u8>)
        ensures
            r@.len() == element.limbs_le().len() * I::Limb::BYTES,
            be_bytes_val(r@) == int_val(element),
    {
        let limbs = element.into_limbs_le();
        let n = limbs.len();
        let mut out: Vec<u8> = Vec::new();
        let mut k: usize = n;
        proof {
            assert(0 * (I::Limb::BYTES as int) == 0);
            assert(n * (I::Limb::BYTES as int) - n * (I::Limb::BYTES as int) == 0);
            assert(0 * base_pow::<I::Limb>(n as nat) == 0);
        }
        while k > 0
            invariant
                k <= n,
                n == limbs@.len(),
                limbs@ == element.limbs_le(),
                out@.len() == (n - k) * I::Limb::BYTES,
                be_bytes_val(out@) * base_pow::<I::Limb>(k as nat) + limbs_val(limbs@, k as nat)
                    == limbs_val(limbs@, n as nat),
            decreases k,
        {
            let ghost k0 = k;
            k -= 1;
            let bytes = limbs[k].into_bytes_be();
            let ghost before = out@;
            let mut t: usize = 0;
            proof {
                limbs@[k as int].lemma_limb_range();
                assert(before + bytes@.take(0) =~= before);
            }
            while t < bytes.len()
                invariant
                    t <= bytes@.len(),
                    out@ == before + bytes@.take(t as int),
                decreases bytes@.len() - t,
            {
                out.push(bytes[t]);
                proof {
                    assert(bytes@.take(t + 1) =~= bytes@.take(t as int).push(bytes@[t as int]));
                    assert(before + bytes@.take(t + 1) =~= (before + bytes@.take(t as int)).push(
                        bytes@[t as int],
                    ));
                }
                t += 1;
            }
            proof {
                assert(bytes@.take(bytes@.len() as int) =~= bytes@);
                limb::lemma_be_bytes_append(before, bytes@);
                lemma_base_pow::<I::Limb>(k as nat);
                let b = I::Limb::base() as int;
                let p = base_pow::<I::Limb>(k as nat) as int;
                let v = be_bytes_val(before) as int;
                let l = limbs@[k as int].val() as int;
                assert((v * b + l) * p == v * (b * p) + l * p) by (nonlinear_arith);
                let m = I::Limb::BYTES as int;
                assert((n - k0) * m + m == (n - k) * m) by (nonlinear_arith)
                    requires
                        k0 == k + 1,
                ;
            }
        }
        proof {
            lemma_base_pow::<I::Limb>(0);
            assert(be_bytes_val(out@) * 1 == be_bytes_val(out@));
            assert(limbs_val(limbs@, 0) == 0);
        }
        out
    }
}

impl Bits {
    /// The bits of an integer, most significant first: each byte of
    /// `Bytes::into_iter_be` as its eight bits.
    pub fn into_iter_be<I: Integer>(element: &I) -> (r: Vec<bool>)
        ensures
            r@.len() == int_bits(element),
            be_bits_val(r@) == int_val(element),
            r@ == scalar_bits(element),
    {
        let bytes = Bytes::into_iter_be(element);
        let mut out: Vec<bool> = Vec::new();
        let mut t: usize = 0;
        proof {
            assert(bytes@.take(0).len() == 0);
        }
        while t < bytes.len()
            invariant
                t <= bytes@.len(),
                out@.len() == 8 * t,
                be_bits_val(out@) == be_bytes_val(bytes@.take(t as int)),
            decreases bytes@.len() - t,
        {
            push_bits_be(&mut out, bytes[t]);
            proof {
                assert(bytes@.take(t + 1) =~= bytes@.take(t as int).push(bytes@[t as int]));
                lemma_be_bytes_push(bytes@.take(t as int), bytes@[t as int]);
            }
            t += 1;
        }
        proof {
            assert(bytes@.take(bytes@.len() as int) =~= bytes@);
            lemma_bits_be_unique(out@);
        }
        out
    }
}

impl<L: Limb, const N: usize> Integer for [L; N] {
    type Limb = L;

    open spec fn limbs_le(&self) -> Seq<L> {
        self@
    }

    fn into_limbs_le(&self) -> (r: &[L]) {
        self
    }
}

} // verus!
