//! Fixed-width unsigned integers of `N` limbs, least significant limb first.

use vstd::prelude::*;
use vstd::arithmetic::power::pow;
use vstd::arithmetic::power::lemma_pow0;
use vstd::arithmetic::power::lemma_pow1;
use vstd::arithmetic::power::lemma_pow_adds;
use vstd::arithmetic::power::lemma_pow_positive;
use super::limb::Limb;
use super::limb::bit;
use super::limb::WrongByteLengthError;
use super::limb::be_bytes_val;
use super::limb::le_bytes_val;
use super::limb::lemma_be_bytes_append;
use super::limb::lemma_le_bytes_append;
use vstd::slice::slice_subrange;
use super::Integer;
use vstd::std_specs::cmp::PartialEqSpecImpl;
use vstd::std_specs::convert::FromSpecImpl;

verus! {

/// `b^k` for the base `b` of the limb type.
pub open spec fn base_pow<L: Limb>(k: nat) -> nat {
    pow(L::base() as int, k) as nat
}

/// The number that the lowest `k` limbs of `limbs` stand for:
/// the sum of `limbs[j] * b^j` over `j < k`.
pub open spec fn limbs_val<L: Limb>(limbs: Seq<L>, k: nat) -> nat
    decreases k,
{
    if k == 0 {
        0
    } else {
        limbs_val(limbs, (k - 1) as nat) + limbs[k - 1].val() * base_pow::<L>((k - 1) as nat)
    }
}

/// `b^0 = 1`, `b^(k+1) = b * b^k`, and every power is positive.
pub proof fn lemma_base_pow<L: Limb>(k: nat)
    ensures
        base_pow::<L>(0) == 1,
        base_pow::<L>(1) == L::base(),
        base_pow::<L>(k) >= 1,
        base_pow::<L>(k + 1) == L::base() * base_pow::<L>(k),
        L::base() >= 256,
{
    L::ZERO.lemma_limb_range();
    let b = L::base() as int;
    lemma_pow0(b);
    lemma_pow1(b);
    lemma_pow_positive(b, k);
    lemma_pow_positive(b, k + 1);
    lemma_pow_adds(b, 1, k);
}

/// `b^(i+j) = b^i * b^j`.
pub proof fn lemma_base_pow_adds<L: Limb>(i: nat, j: nat)
    ensures
        base_pow::<L>(i + j) == base_pow::<L>(i) * base_pow::<L>(j),
{
    L::ZERO.lemma_limb_range();
    let b = L::base() as int;
    lemma_pow_adds(b, i, j);
    lemma_pow_positive(b, i);
    lemma_pow_positive(b, j);
    lemma_pow_positive(b, i + j);
}

/// Powers of the base grow with the exponent.
pub proof fn lemma_base_pow_monotonic<L: Limb>(i: nat, j: nat)
    requires
        i <= j,
    ensures
        base_pow::<L>(i) <= base_pow::<L>(j),
{
    let d = (j - i) as nat;
    lemma_base_pow_adds::<L>(i, d);
    lemma_base_pow::<L>(d);
    lemma_base_pow::<L>(i);
    let x = base_pow::<L>(i);
    let y = base_pow::<L>(d);
    assert(x <= x * y) by (nonlinear_arith)
        requires
            x >= 1,
            y >= 1,
    ;
}

/// `k` limbs stand for a number below `b^k`.
pub proof fn lemma_limbs_val_bound<L: Limb>(limbs: Seq<L>, k: nat)
    ensures
        limbs_val(limbs, k) < base_pow::<L>(k),
    decreases k,
{
    lemma_base_pow::<L>(k);
    if k > 0 {
        let j = (k - 1) as nat;
        lemma_limbs_val_bound(limbs, j);
        lemma_base_pow::<L>(j);
        limbs[k - 1].lemma_limb_range();
        let d = limbs[k - 1].val();
        let p = base_pow::<L>(j);
        let b = L::base();
        assert(d * p + p <= b * p) by (nonlinear_arith)
            requires
                d + 1 <= b,
        ;
    }
}

/// The value of the lowest `k` limbs depends on those limbs only.
pub proof fn lemma_limbs_val_agree<L: Limb>(a: Seq<L>, b: Seq<L>, k: nat)
    requires
        forall|j: int| 0 <= j < k ==> a[j] == b[j],
    ensures
        limbs_val(a, k) == limbs_val(b, k),
    decreases k,
{
    if k > 0 {
        lemma_limbs_val_agree(a, b, (k - 1) as nat);
    }
}

/// Limbs that are all zero stand for zero.
pub proof fn lemma_limbs_val_zero<L: Limb>(limbs: Seq<L>, k: nat)
    requires
        forall|j: int| 0 <= j < k ==> limbs[j].val() == 0,
    ensures
        limbs_val(limbs, k) == 0,
    decreases k,
{
    if k > 0 {
        lemma_limbs_val_zero(limbs, (k - 1) as nat);
        assert(limbs[k - 1].val() * base_pow::<L>((k - 1) as nat) == 0) by (nonlinear_arith)
            requires
                limbs[k - 1].val() == 0,
        ;
    }
}

/// Replacing limb `i` by `x` changes the value by `(x - limbs[i]) * b^i`.
pub proof fn lemma_limbs_val_update<L: Limb>(limbs: Seq<L>, k: nat, i: int, x: L)
    requires
        0 <= i < k <= limbs.len(),
    ensures
        limbs_val(limbs.update(i, x), k) == limbs_val(limbs, k) + x.val() * base_pow::<L>(
            i as nat,
        ) - limbs[i].val() * base_pow::<L>(i as nat),
    decreases k,
{
    let j = (k - 1) as nat;
    if i == j {
        lemma_limbs_val_agree(limbs.update(i, x), limbs, j);
    } else {
        lemma_limbs_val_update(limbs, j, i, x);
    }
}

/// Limb strings of one length that stand for the same number are equal.
pub proof fn lemma_limbs_val_injective<L: Limb>(a: Seq<L>, b: Seq<L>, k: nat)
    requires
        limbs_val(a, k) == limbs_val(b, k),
    ensures
        forall|j: int| 0 <= j < k ==> a[j] == b[j],
    decreases k,
{
    if k > 0 {
        let j = (k - 1) as nat;
        lemma_limbs_val_bound(a, j);
        lemma_limbs_val_bound(b, j);
        let p = base_pow::<L>(j) as int;
        let x = a[k - 1].val() as int;
        let y = b[k - 1].val() as int;
        let u = limbs_val(a, j) as int;
        let v = limbs_val(b, j) as int;
        assert(x == y) by (nonlinear_arith)
            requires
                u + x * p == v + y * p,
                0 <= u < p,
                0 <= v < p,
        ;
        a[k - 1].lemma_val_injective(b[k - 1]);
        lemma_limbs_val_injective(a, b, j);
    }
}

/// The order of two numbers is decided by their topmost limbs that differ.
pub proof fn lemma_limbs_val_order<L: Limb>(a: Seq<L>, b: Seq<L>, k: nat)
    requires
        k > 0,
    ensures
        a[k - 1].val() < b[k - 1].val() ==> limbs_val(a, k) < limbs_val(b, k),
        a[k - 1].val() == b[k - 1].val() ==> (limbs_val(a, k) <= limbs_val(b, k) <==> limbs_val(
            a,
            (k - 1) as nat,
        ) <= limbs_val(b, (k - 1) as nat)),
{
    let j = (k - 1) as nat;
    lemma_limbs_val_bound(a, j);
    lemma_limbs_val_bound(b, j);
    let p = base_pow::<L>(j) as int;
    let x = a[k - 1].val() as int;
    let y = b[k - 1].val() as int;
    let u = limbs_val(a, j) as int;
    let v = limbs_val(b, j) as int;
    assert(x < y ==> u + x * p < v + y * p) by (nonlinear_arith)
        requires
            0 <= u < p,
            0 <= v < p,
    ;
    assert(x == y ==> x * p == y * p);
}

/// The lowest `k` limbs stand for the number modulo `b^k`.
pub proof fn lemma_limbs_val_mod<L: Limb>(limbs: Seq<L>, k: nat, m: nat)
    requires
        k <= m,
    ensures
        limbs_val(limbs, m) % base_pow::<L>(k) == limbs_val(limbs, k),
    decreases m,
{
    lemma_base_pow::<L>(k);
    let q = base_pow::<L>(k) as int;
    if m == k {
        lemma_limbs_val_bound(limbs, k);
        vstd::arithmetic::div_mod::lemma_small_mod(limbs_val(limbs, k), base_pow::<L>(k));
    } else {
        let j = (m - 1) as nat;
        lemma_limbs_val_mod(limbs, k, j);
        lemma_base_pow_adds::<L>(k, (j - k) as nat);
        let d = limbs[j as int].val() as int;
        let e = base_pow::<L>((j - k) as nat) as int;
        let x = limbs_val(limbs, j) as int;
        let bj = base_pow::<L>(j) as int;
        assert(bj == q * e);
        assert(limbs_val(limbs, m) == x + d * bj);
        assert(x + d * bj == q * (d * e) + x) by (nonlinear_arith)
            requires
                bj == q * e,
        ;
        vstd::arithmetic::div_mod::lemma_mod_multiples_vanish(d * e, x, q);
        assert((q * (d * e) + x) % q == x % q);
    }
}

/// The array whose lowest `k` limbs are the lowest `k` digits of `n` in
/// base `b`, and whose other limbs are zero.
pub open spec fn limbs_of_nat<L: Limb, const N: usize>(n: nat, k: nat) -> [L; N]
    decreases k,
{
    if k == 0 {
        vstd::array::spec_array_fill_for_copy_type::<L, N>(L::ZERO)
    } else {
        vstd::array::spec_array_update(
            limbs_of_nat::<L, N>(n, (k - 1) as nat),
            k - 1,
            L::of_val(((n / base_pow::<L>((k - 1) as nat)) % L::base()) as nat),
        )
    }
}

/// The lowest `k` limbs of `limbs_of_nat(n, k)` stand for `n mod b^k`.
pub proof fn lemma_limbs_of_nat<L: Limb, const N: usize>(n: nat, k: nat)
    requires
        k <= N,
    ensures
        limbs_val(limbs_of_nat::<L, N>(n, k)@, k) == n % base_pow::<L>(k),
    decreases k,
{
    lemma_base_pow::<L>(k);
    if k == 0 {
    } else {
        let j = (k - 1) as nat;
        lemma_limbs_of_nat::<L, N>(n, j);
        lemma_base_pow::<L>(j);
        let prev = limbs_of_nat::<L, N>(n, j);
        let bj = base_pow::<L>(j);
        let d = ((n / bj) % L::base()) as nat;
        let limb = L::of_val(d);
        L::ZERO.lemma_limb_range();
        vstd::arithmetic::div_mod::lemma_mod_bound((n / bj) as int, L::base() as int);
        assert(limb.val() == d);
        let next = limbs_of_nat::<L, N>(n, k);
        assert(next@ == prev@.update(j as int, limb));
        lemma_limbs_val_agree(next@, prev@, j);
        vstd::arithmetic::div_mod::lemma_mod_breakdown(n as int, bj as int, L::base() as int);
        assert(bj * L::base() == L::base() * bj) by (nonlinear_arith);
        assert(d * bj == bj * d) by (nonlinear_arith);
    }
}

/// Four 64-bit limbs written out as one number.
pub proof fn lemma_limbs_val_4(limbs: Seq<u64>)
    requires
        limbs.len() == 4,
    ensures
        limbs_val(limbs, 4) == limbs[0] as nat + 0x1_0000_0000_0000_0000nat * (limbs[1] as nat)
            + 0x1_0000_0000_0000_0000_0000_0000_0000_0000nat * (limbs[2] as nat)
            + 0x1_0000_0000_0000_0000_0000_0000_0000_0000_0000_0000_0000_0000nat * (limbs[3] as nat),
        base_pow::<u64>(4)
            == 0x1_0000_0000_0000_0000_0000_0000_0000_0000_0000_0000_0000_0000_0000_0000_0000_0000nat,
{
    lemma_base_pow::<u64>(0);
    lemma_base_pow::<u64>(1);
    lemma_base_pow::<u64>(2);
    lemma_base_pow::<u64>(3);
    assert(base_pow::<u64>(1) == 0x1_0000_0000_0000_0000nat);
    assert(base_pow::<u64>(2) == 0x1_0000_0000_0000_0000_0000_0000_0000_0000nat);
    assert(base_pow::<u64>(3) == 0x1_0000_0000_0000_0000_0000_0000_0000_0000_0000_0000_0000_0000nat);
    assert(limbs_val(limbs, 0) == 0);
    assert(limbs[0].val() == limbs[0] as nat);
    assert(limbs[1].val() == limbs[1] as nat);
    assert(limbs[2].val() == limbs[2] as nat);
    assert(limbs[3].val() == limbs[3] as nat);
    assert(limbs_val(limbs, 1) == limbs_val(limbs, 0) + limbs[0].val() * base_pow::<u64>(0));
    assert(limbs_val(limbs, 1) == limbs[0] as nat);
    assert(limbs_val(limbs, 2) == limbs_val(limbs, 1) + limbs[1].val() * base_pow::<u64>(1));
    assert(limbs_val(limbs, 3) == limbs_val(limbs, 2) + limbs[2].val() * base_pow::<u64>(2));
    assert(limbs_val(limbs, 4) == limbs_val(limbs, 3) + limbs[3].val() * base_pow::<u64>(3));
}

/// Limbs that are zero from index `k` on stand for the number of the
/// lowest `k`.
pub proof fn lemma_limbs_val_high_zero<L: Limb>(limbs: Seq<L>, k: nat, m: nat)
    requires
        k <= m,
        forall|j: int| k <= j < m ==> limbs[j].val() == 0,
    ensures
        limbs_val(limbs, m) == limbs_val(limbs, k),
    decreases m,
{
    if m > k {
        lemma_limbs_val_high_zero(limbs, k, (m - 1) as nat);
        assert(limbs[m - 1].val() * base_pow::<L>((m - 1) as nat) == 0) by (nonlinear_arith)
            requires
                limbs[m - 1].val() == 0,
        ;
    }
}

/// `256^(BYTES * i) = b^i`.
pub proof fn lemma_byte_pow<L: Limb>(i: nat)
    ensures
        pow(256, (L::BYTES as nat) * i) == base_pow::<L>(i),
{
    L::ZERO.lemma_limb_range();
    vstd::arithmetic::power::lemma_pow_multiplies(256, L::BYTES as nat, i);
    lemma_base_pow::<L>(i);
    vstd::arithmetic::power::lemma_pow_positive(256, L::BYTES as nat);
    let b = L::BYTES as nat;
    assert(L::base() as int == pow(256, b));
    assert(pow(pow(256, b), i) == pow(256, b * i));
    assert(pow(L::base() as int, i) == pow(pow(256, b), i));
    vstd::arithmetic::power::lemma_pow_positive(L::base() as int, i);
}

/// An unsigned integer of exactly `N` limbs, least significant limb first.
/// It stands for a number in `[0, b^N)`, its view.
pub struct LimbInt<L: Limb, const N: usize> {
    pub limbs: [L; N],
}

impl<L: Limb, const N: usize> View for LimbInt<L, N> {
    type V = nat;

    open spec fn view(&self) -> nat {
        limbs_val(self.limbs@, N as nat)
    }
}

impl<L: Limb, const N: usize> Clone for LimbInt<L, N> {
    fn clone(&self) -> (r: Self)
        ensures
            r == *self,
    {
        LimbInt { limbs: self.limbs }
    }
}

impl<L: Limb, const N: usize> Copy for LimbInt<L, N> {

}

/// One step of a rippling addition: the sum of the lowest `i + 1` limbs from
/// the sum of the lowest `i`.
proof fn lemma_add_step(
    r: int,
    a: int,
    b: int,
    cin: int,
    c: int,
    c2: int,
    l: int,
    x: int,
    y: int,
    p: int,
    base: int,
)
    requires
        r + c * p == a + b + cin,
        l + c2 * base == x + y + c,
    ensures
        (r + l * p) + c2 * (base * p) == (a + x * p) + (b + y * p) + cin,
{
    assert((l + c2 * base) * p == l * p + c2 * (base * p)) by (nonlinear_arith);
    assert((x + y + c) * p == x * p + y * p + c * p) by (nonlinear_arith);
}

/// One step of a rippling subtraction.
proof fn lemma_sub_step(
    r: int,
    a: int,
    b: int,
    cin: int,
    c: int,
    c2: int,
    l: int,
    x: int,
    y: int,
    p: int,
    base: int,
)
    requires
        r - c * p == a - b - cin,
        l - c2 * base == x - y - c,
    ensures
        (r + l * p) - c2 * (base * p) == (a + x * p) - (b + y * p) - cin,
{
    assert((l - c2 * base) * p == l * p - c2 * (base * p)) by (nonlinear_arith);
    assert((x - y - c) * p == x * p - y * p - c * p) by (nonlinear_arith);
}

/// One step of a schoolbook multiplication row: limb `x` of the left factor
/// is multiplied by `y`, and the carry `u` moves one place up.
proof fn lemma_mul_step(
    w: int,
    c: int,
    q: int,
    w0: int,
    s: int,
    y: int,
    p: int,
    x: int,
    v: int,
    u: int,
    wold: int,
    base: int,
    bj: int,
)
    requires
        w + c * q == w0 + s * y * p,
        v + u * base == x * y + wold + c,
        q == bj * p,
    ensures
        (w + v * q - wold * q) + u * (base * q) == w0 + (s + x * bj) * y * p,
{
    assert((v + u * base) * q == v * q + u * (base * q)) by (nonlinear_arith);
    assert((x * y + wold + c) * q == x * y * q + wold * q + c * q) by (nonlinear_arith);
    assert(x * y * q == x * bj * y * p) by (nonlinear_arith)
        requires
            q == bj * p,
    ;
    assert((s + x * bj) * y * p == s * y * p + x * bj * y * p) by (nonlinear_arith);
}

/// `x * y + w + c` as a low and a high limb; it always fits in two limbs.
fn mul_add_limb<L: Limb>(x: L, y: L, w: L, c: L) -> (r: (L, L))
    ensures
        r.0.val() + r.1.val() * L::base() == x.val() * y.val() + w.val() + c.val(),
{
    let (v1, u1) = x.mul_carry(y, c);
    let (v, t) = v1.add_carry(w, false);
    let (u, over) = u1.add_carry(L::ZERO, t);
    proof {
        x.lemma_limb_range();
        y.lemma_limb_range();
        c.lemma_limb_range();
        w.lemma_limb_range();
        v.lemma_limb_range();
        u.lemma_limb_range();
        v1.lemma_limb_range();
        u1.lemma_limb_range();
        let b = L::base() as int;
        let xv = x.val() as int;
        let yv = y.val() as int;
        assert(xv * yv <= (b - 1) * (b - 1)) by (nonlinear_arith)
            requires
                0 <= xv <= b - 1,
                0 <= yv <= b - 1,
        ;
        assert((b - 1) * (b - 1) + (b - 1) == (b - 1) * b) by (nonlinear_arith);
        let u1v = u1.val() as int;
        let v1v = v1.val() as int;
        assert(u1v <= b - 1 && (u1v == b - 1 ==> v1v == 0)) by (nonlinear_arith)
            requires
                v1v + u1v * b <= (b - 1) * b,
                0 <= v1v,
                0 <= u1v,
                b >= 1,
        ;
        assert(bit(t) * L::base() == if t { L::base() } else { 0 }) by (nonlinear_arith);
        assert(bit(over) * L::base() == if over { L::base() } else { 0 }) by (nonlinear_arith);
        assert(!over);
        assert((u1v + bit(t)) * b == u1v * b + bit(t) * b) by (nonlinear_arith);
    }
    (v, u)
}

impl<L: Limb, const N: usize> LimbInt<L, N> {
    /// The number `b^N`, one more than the largest value of this type.
    pub open spec fn modulus() -> nat {
        base_pow::<L>(N as nat)
    }

    /// Every value is below `b^N`.
    pub proof fn lemma_bound(self)
        ensures
            self@ < Self::modulus(),
    {
        lemma_limbs_val_bound(self.limbs@, N as nat);
    }

    /// Read as an `Integer`, a value stands for the same number.
    pub proof fn lemma_int_val(self)
        ensures
            crate::biginteger::int_val(&self) == self@,
            crate::biginteger::int_bits(&self) == 8 * (N as nat * L::BYTES as nat),
    {
        assert(self.limbs_le().len() == N);
    }

    /// Two values that stand for the same number are equal.
    pub proof fn lemma_view_injective(self, other: Self)
        requires
            self@ == other@,
        ensures
            self == other,
    {
        lemma_limbs_val_injective(self.limbs@, other.limbs@, N as nat);
        assert(self.limbs =~= other.limbs);
    }

    /// The integer that stands for `n`, for `n < b^N`.
    pub open spec fn from_nat(n: nat) -> Self {
        LimbInt { limbs: limbs_of_nat::<L, N>(n, N as nat) }
    }

    /// `from_nat` is the inverse of the view.
    pub proof fn lemma_from_nat(n: nat)
        requires
            n < Self::modulus(),
        ensures
            Self::from_nat(n)@ == n,
    {
        lemma_limbs_of_nat::<L, N>(n, N as nat);
        vstd::arithmetic::div_mod::lemma_small_mod(n, Self::modulus());
    }

    /// `from_nat` of the view gives the value back.
    pub proof fn lemma_from_nat_view(self)
        ensures
            Self::from_nat(self@) == self,
    {
        self.lemma_bound();
        Self::lemma_from_nat(self@);
        Self::from_nat(self@).lemma_view_injective(self);
    }

    /// Reads an integer from bytes, most significant first. The bytes are
    /// whole limbs, at most `N` of them; limbs that are not given are zero.
    pub fn from_bytes_be(bytes: &[u8]) -> (r: Result<Self, WrongByteLengthError>)
        ensures
            r is Ok <==> bytes@.len() % (L::BYTES as nat) == 0 && bytes@.len() / (L::BYTES as nat)
                <= N,
            r matches Ok(x) ==> x@ == be_bytes_val(bytes@),
    {
        proof {
            L::ZERO.lemma_limb_range();
        }
        let width = L::BYTES;
        if bytes.len() % width != 0 || bytes.len() / width > N {
            return Err(WrongByteLengthError);
        }
        let n = bytes.len() / width;
        let z = L::ZERO;
        let mut limbs = [z;N];
        let mut i: usize = 0;
        proof {
            vstd::arithmetic::div_mod::lemma_fundamental_div_mod(bytes@.len() as int, width as int);
            assert(bytes@.skip(bytes@.len() as int).len() == 0);
            assert(n * width == width * n) by (nonlinear_arith);
        }
        while i < n
            invariant
                i <= n <= N,
                width == L::BYTES,
                width >= 1,
                bytes@.len() == n * width,
                n * width <= usize::MAX,
                z.val() == 0,
                forall|j: int| i <= j < N ==> (#[trigger] limbs[j]).val() == 0,
                limbs_val(limbs@, i as nat) == be_bytes_val(bytes@.skip((n - i) * width)),
            decreases n - i,
        {
            proof {
                assert((n - i - 1) * width + width == (n - i) * width) by (nonlinear_arith);
                assert((n - i) * width <= n * width) by (nonlinear_arith)
                    requires
                        i <= n,
                        width >= 0,
                ;
                assert(0 <= (n - i - 1) * width <= n * width) by (nonlinear_arith)
                    requires
                        i < n,
                        width >= 0,
                ;
            }
            let start = (n - i - 1) * width;
            let chunk = slice_subrange(bytes, start, start + width);
            let ghost before = limbs@;
            match L::from_bytes_be(chunk) {
                Ok(l) => {
                    limbs[i] = l;
                    proof {
                        let rest = bytes@.skip((n - i) * width);
                        assert(bytes@.skip(start as int) =~= chunk@ + rest);
                        lemma_be_bytes_append(chunk@, rest);
                        assert(n * width - (n - i) * width == i * width) by (nonlinear_arith);
                        assert(rest.len() == i * width);
                        assert(i * width == (L::BYTES as nat) * (i as nat)) by (nonlinear_arith)
                            requires
                                width == L::BYTES,
                        ;
                        lemma_byte_pow::<L>(i as nat);
                        lemma_limbs_val_agree(limbs@, before, i as nat);
                    }
                },
                Err(e) => {
                    return Err(e);
                },
            }
            i += 1;
        }
        proof {
            lemma_limbs_val_high_zero(limbs@, n as nat, N as nat);
            assert(bytes@.skip(0) =~= bytes@);
            assert((n - n) * width == 0) by (nonlinear_arith);
        }
        Ok(Self::from_limbs(limbs))
    }

    /// Reads an integer from bytes, least significant first. The bytes are
    /// whole limbs, at most `N` of them; limbs that are not given are zero.
    pub fn from_bytes_le(bytes: &[u8]) -> (r: Result<Self, WrongByteLengthError>)
        ensures
            r is Ok <==> bytes@.len() % (L::BYTES as nat) == 0 && bytes@.len() / (L::BYTES as nat)
                <= N,
            r matches Ok(x) ==> x@ == le_bytes_val(bytes@),
    {
        proof {
            L::ZERO.lemma_limb_range();
        }
        let width = L::BYTES;
        if bytes.len() % width != 0 || bytes.len() / width > N {
            return Err(WrongByteLengthError);
        }
        let n = bytes.len() / width;
        let z = L::ZERO;
        let mut limbs = [z;N];
        let mut i: usize = 0;
        proof {
            vstd::arithmetic::div_mod::lemma_fundamental_div_mod(bytes@.len() as int, width as int);
            assert(bytes@.take(0).len() == 0);
            assert(n * width == width * n) by (nonlinear_arith);
            assert(0 * width == 0);
        }
        while i < n
            invariant
                i <= n <= N,
                width == L::BYTES,
                width >= 1,
                bytes@.len() == n * width,
                n * width <= usize::MAX,
                z.val() == 0,
                forall|j: int| i <= j < N ==> (#[trigger] limbs[j]).val() == 0,
                limbs_val(limbs@, i as nat) == le_bytes_val(bytes@.take(i * width)),
            decreases n - i,
        {
            proof {
                assert(i * width + width == (i + 1) * width) by (nonlinear_arith);
                assert((i + 1) * width <= n * width) by (nonlinear_arith)
                    requires
                        i < n,
                        width >= 0,
                ;
                assert(0 <= i * width <= n * width) by (nonlinear_arith)
                    requires
                        0 <= i < n,
                        width >= 0,
                ;
            }
            let start = i * width;
            let chunk = slice_subrange(bytes, start, start + width);
            let ghost before = limbs@;
            match L::from_bytes_le(chunk) {
                Ok(l) => {
                    limbs[i] = l;
                    proof {
                        let done = bytes@.take(i * width);
                        assert(bytes@.take((i + 1) * width) =~= done + chunk@);
                        lemma_le_bytes_append(done, chunk@);
                        assert(done.len() == i * width);
                        assert(i * width == (L::BYTES as nat) * (i as nat)) by (nonlinear_arith)
                            requires
                                width == L::BYTES,
                        ;
                        lemma_byte_pow::<L>(i as nat);
                        lemma_limbs_val_agree(limbs@, before, i as nat);
                        let q = base_pow::<L>(i as nat);
                        assert(l.val() * q == q * l.val()) by (nonlinear_arith);
                    }
                },
                Err(e) => {
                    return Err(e);
                },
            }
            i += 1;
        }
        proof {
            lemma_limbs_val_high_zero(limbs@, n as nat, N as nat);
            assert(bytes@.take(bytes@.len() as int) =~= bytes@);
        }
        Ok(Self::from_limbs(limbs))
    }

    /// Reading back the bytes of an integer gives the integer: where
    /// `bytes` is what `Bytes::into_iter_be` returns for `self`,
    /// `from_bytes_be` accepts it, and what it returns is `self`.
    pub proof fn lemma_bytes_round_trip(self, bytes: Seq<u8>, back: Self)
        requires
            bytes.len() == N * L::BYTES,
            be_bytes_val(bytes) == self@,
            back@ == be_bytes_val(bytes),
        ensures
            bytes.len() % (L::BYTES as nat) == 0,
            bytes.len() / (L::BYTES as nat) <= N,
            back == self,
    {
        L::ZERO.lemma_limb_range();
        let w = L::BYTES as int;
        vstd::arithmetic::div_mod::lemma_fundamental_div_mod_converse(
            bytes.len() as int,
            w,
            N as int,
            0,
        );
        assert(N * w == w * N) by (nonlinear_arith);
        back.lemma_view_injective(self);
    }

    /// Whether this is the integer 0. Every limb is looked at.
    pub fn is_zero(&self) -> (r: bool)
        ensures
            r == (self@ == 0),
    {
        let mut flag = false;
        let mut i: usize = 0;
        while i < N
            invariant
                i <= N,
                flag == !(forall|j: int| 0 <= j < i ==> self.limbs[j].val() == 0),
            decreases N - i,
        {
            let nonzero = !self.limbs[i].same(&L::ZERO);
            proof {
                L::ZERO.lemma_limb_range();
            }
            flag = flag || nonzero;
            i += 1;
        }
        proof {
            if !flag {
                lemma_limbs_val_zero(self.limbs@, N as nat);
            } else {
                if self@ == 0 {
                    let z = Self::zero_limbs();
                    L::ZERO.lemma_limb_range();
                    lemma_limbs_val_zero(z, N as nat);
                    lemma_limbs_val_injective(self.limbs@, z, N as nat);
                }
            }
        }
        !flag
    }

    /// The integer 0.
    #[inline]
    pub fn zero() -> (r: Self)
        ensures
            r@ == 0,
            forall|j: int| 0 <= j < N ==> r.limbs[j] == L::ZERO,
    {
        let z = L::ZERO;
        let limbs = [z;N];
        proof {
            z.lemma_limb_range();
            lemma_limbs_val_zero(limbs@, N as nat);
        }
        Self::from_limbs(limbs)
    }

    /// The integer 1.
    #[inline]
    pub fn one() -> (r: Self)
        requires
            N >= 1,
        ensures
            r@ == 1,
    {
        proof {
            L::ONE.lemma_limb_range();
            lemma_base_pow::<L>(0);
        }
        Self::single_power(L::ONE, 0)
    }

    /// The integer with the given limbs, least significant first.
    #[inline]
    pub fn from_limbs(limbs: [L; N]) -> (r: Self)
        ensures
            r.limbs == limbs,
    {
        Self { limbs }
    }

    /// The integer `limb * b^i`.
    pub fn single_power(limb: L, i: usize) -> (r: Self)
        requires
            i < N,
        ensures
            r@ == limb.val() * base_pow::<L>(i as nat),
            r.limbs@ == Self::zero_limbs().update(i as int, limb),
    {
        let z = L::ZERO;
        let mut limbs = [z;N];
        proof {
            z.lemma_limb_range();
            lemma_limbs_val_zero(limbs@, N as nat);
            lemma_limbs_val_update(limbs@, N as nat, i as int, limb);
            assert(limbs@ =~= Self::zero_limbs());
            assert(z.val() * base_pow::<L>(i as nat) == 0) by (nonlinear_arith)
                requires
                    z.val() == 0,
            ;
        }
        limbs[i] = limb;
        Self::from_limbs(limbs)
    }

    /// `N` limbs that are all zero.
    pub open spec fn zero_limbs() -> Seq<L> {
        Seq::new(N as nat, |j: int| L::ZERO)
    }

    /// `self + rhs + carry`: the sum modulo `b^N`, and whether it reached
    /// `b^N`.
    pub fn carrying_add(&self, rhs: Self, carry: bool) -> (r: (Self, bool))
        ensures
            r.0@ + bit(r.1) * Self::modulus() == self@ + rhs@ + bit(carry),
    {
        let ghost cin = carry;
        let mut carry = carry;
        let z = L::ZERO;
        let mut limbs = [z;N];
        let mut i: usize = 0;
        proof {
            lemma_base_pow::<L>(0);
        }
        while i < N
            invariant
                i <= N,
                limbs_val(limbs@, i as nat) + bit(carry) * base_pow::<L>(i as nat) == limbs_val(
                    self.limbs@,
                    i as nat,
                ) + limbs_val(rhs.limbs@, i as nat) + bit(cin),
            decreases N - i,
        {
            let ghost before = limbs@;
            let ghost c0 = carry;
            let (l, c) = self.limbs[i].add_carry(rhs.limbs[i], carry);
            limbs[i] = l;
            carry = c;
            proof {
                lemma_limbs_val_agree(limbs@, before, i as nat);
                lemma_base_pow::<L>(i as nat);
                lemma_add_step(
                    limbs_val(before, i as nat) as int,
                    limbs_val(self.limbs@, i as nat) as int,
                    limbs_val(rhs.limbs@, i as nat) as int,
                    bit(cin) as int,
                    bit(c0) as int,
                    bit(c) as int,
                    l.val() as int,
                    self.limbs[i as int].val() as int,
                    rhs.limbs[i as int].val() as int,
                    base_pow::<L>(i as nat) as int,
                    L::base() as int,
                );
            }
            i += 1;
        }
        (Self::from_limbs(limbs), carry)
    }

    /// `self - rhs - carry`: the difference modulo `b^N`, and whether it
    /// fell below zero.
    pub fn carrying_sub(&self, rhs: Self, carry: bool) -> (r: (Self, bool))
        ensures
            r.0@ - bit(r.1) * Self::modulus() == self@ - rhs@ - bit(carry),
    {
        let ghost cin = carry;
        let mut carry = carry;
        let z = L::ZERO;
        let mut limbs = [z;N];
        let mut i: usize = 0;
        proof {
            lemma_base_pow::<L>(0);
        }
        while i < N
            invariant
                i <= N,
                limbs_val(limbs@, i as nat) - bit(carry) * base_pow::<L>(i as nat) == limbs_val(
                    self.limbs@,
                    i as nat,
                ) - limbs_val(rhs.limbs@, i as nat) - bit(cin),
            decreases N - i,
        {
            let ghost before = limbs@;
            let ghost c0 = carry;
            let (l, c) = self.limbs[i].sub_carry(rhs.limbs[i], carry);
            limbs[i] = l;
            carry = c;
            proof {
                lemma_limbs_val_agree(limbs@, before, i as nat);
                lemma_base_pow::<L>(i as nat);
                lemma_sub_step(
                    limbs_val(before, i as nat) as int,
                    limbs_val(self.limbs@, i as nat) as int,
                    limbs_val(rhs.limbs@, i as nat) as int,
                    bit(cin) as int,
                    bit(c0) as int,
                    bit(c) as int,
                    l.val() as int,
                    self.limbs[i as int].val() as int,
                    rhs.limbs[i as int].val() as int,
                    base_pow::<L>(i as nat) as int,
                    L::base() as int,
                );
            }
            i += 1;
        }
        (Self::from_limbs(limbs), carry)
    }

    /// The number that a low and a high half stand for together.
    pub open spec fn wide(lo: Seq<L>, hi: Seq<L>) -> nat {
        limbs_val(lo, N as nat) + Self::modulus() * limbs_val(hi, N as nat)
    }

    /// `self * rhs + carry` in full: the low and the high `N` limbs of the
    /// `2N`-limb result.
    pub fn carrying_mul(&self, rhs: Self, carry: Self) -> (r: (Self, Self))
        ensures
            r.0@ + r.1@ * Self::modulus() == self@ * rhs@ + carry@,
    {
        let z = L::ZERO;
        let mut w_l = [z;N];
        let mut w_h = [z;N];
        proof {
            z.lemma_limb_range();
            lemma_limbs_val_zero(w_l@, N as nat);
            lemma_limbs_val_zero(w_h@, N as nat);
            assert(Self::modulus() * 0 == 0);
            assert(self@ * 0 == 0);
        }
        let mut i: usize = 0;
        while i < N
            invariant
                i <= N,
                z.val() == 0,
                Self::wide(w_l@, w_h@) == self@ * limbs_val(rhs.limbs@, i as nat),
                forall|k: int| i <= k < N ==> (#[trigger] w_h[k]).val() == 0,
            decreases N - i,
        {
            let ghost w0 = Self::wide(w_l@, w_h@);
            let ghost y = rhs.limbs[i as int].val();
            let ghost p = base_pow::<L>(i as nat);
            let mut c = z;
            let mut j: usize = 0;
            proof {
                assert(c.val() * base_pow::<L>(i as nat) == 0) by (nonlinear_arith)
                    requires
                        c.val() == 0,
                ;
                assert(0 * y * p == 0) by (nonlinear_arith);
            }
            while j < N - i
                invariant
                    i < N,
                    j <= N - i,
                    y == rhs.limbs[i as int].val(),
                    p == base_pow::<L>(i as nat),
                    Self::wide(w_l@, w_h@) + c.val() * base_pow::<L>((i + j) as nat) == w0
                        + limbs_val(self.limbs@, j as nat) * y * p,
                decreases N - i - j,
            {
                let ghost before = w_l@;
                let ghost c0 = c;
                let (v, u) = mul_add_limb(self.limbs[j], rhs.limbs[i], w_l[i + j], c);
                w_l[i + j] = v;
                c = u;
                proof {
                    lemma_limbs_val_update(before, N as nat, (i + j) as int, v);
                    lemma_base_pow_adds::<L>(j as nat, i as nat);
                    lemma_base_pow::<L>((i + j) as nat);
                    lemma_mul_step(
                        Self::wide(before, w_h@) as int,
                        c0.val() as int,
                        base_pow::<L>((i + j) as nat) as int,
                        w0 as int,
                        limbs_val(self.limbs@, j as nat) as int,
                        y as int,
                        p as int,
                        self.limbs[j as int].val() as int,
                        v.val() as int,
                        u.val() as int,
                        before[i + j].val() as int,
                        L::base() as int,
                        base_pow::<L>(j as nat) as int,
                    );
                }
                j += 1;
            }
            while j < N
                invariant
                    i < N,
                    N - i <= j <= N,
                    y == rhs.limbs[i as int].val(),
                    p == base_pow::<L>(i as nat),
                    Self::wide(w_l@, w_h@) + c.val() * base_pow::<L>((i + j) as nat) == w0
                        + limbs_val(self.limbs@, j as nat) * y * p,
                    forall|k: int| i <= k < N ==> (#[trigger] w_h[k]).val() == 0,
                decreases N - j,
            {
                let ghost before = w_h@;
                let ghost c0 = c;
                let m = j - (N - i);
                let (v, u) = mul_add_limb(self.limbs[j], rhs.limbs[i], w_h[m], c);
                w_h[m] = v;
                c = u;
                proof {
                    lemma_limbs_val_update(before, N as nat, m as int, v);
                    lemma_base_pow_adds::<L>(j as nat, i as nat);
                    lemma_base_pow_adds::<L>(N as nat, m as nat);
                    lemma_base_pow::<L>((i + j) as nat);
                    let q = base_pow::<L>((i + j) as nat) as int;
                    let bn = Self::modulus() as int;
                    let bm = base_pow::<L>(m as nat) as int;
                    let hv = limbs_val(before, N as nat) as int;
                    let vv = v.val() as int;
                    let wold = before[m as int].val() as int;
                    assert(bn * (hv + vv * bm - wold * bm) == bn * hv + vv * q - wold * q)
                        by (nonlinear_arith)
                        requires
                            q == bn * bm,
                    ;
                    lemma_mul_step(
                        Self::wide(w_l@, before) as int,
                        c0.val() as int,
                        q,
                        w0 as int,
                        limbs_val(self.limbs@, j as nat) as int,
                        y as int,
                        p as int,
                        self.limbs[j as int].val() as int,
                        vv,
                        u.val() as int,
                        wold,
                        L::base() as int,
                        base_pow::<L>(j as nat) as int,
                    );
                }
                j += 1;
            }
            let ghost before = w_h@;
            w_h[i] = c;
            proof {
                lemma_limbs_val_update(before, N as nat, i as int, c);
                lemma_base_pow_adds::<L>(N as nat, i as nat);
                let q = base_pow::<L>((i + N) as nat) as int;
                let bn = Self::modulus() as int;
                let hv = limbs_val(before, N as nat) as int;
                let cv = c.val() as int;
                let pi = p as int;
                assert(before[i as int].val() == 0);
                assert(bn * (hv + cv * pi - 0 * pi) == bn * hv + cv * q) by (nonlinear_arith)
                    requires
                        q == bn * pi,
                ;
                let a = self@ as int;
                let r0 = limbs_val(rhs.limbs@, i as nat) as int;
                assert(a * (r0 + (y as int) * pi) == a * r0 + a * (y as int) * pi)
                    by (nonlinear_arith);
            }
            i += 1;
        }
        let res_l = Self::from_limbs(w_l);
        let res_h = Self::from_limbs(w_h);
        let (low, flag) = res_l.carrying_add(carry, false);
        let (high, over) = res_h.carrying_add(Self::zero(), flag);
        proof {
            self.lemma_bound();
            rhs.lemma_bound();
            carry.lemma_bound();
            low.lemma_bound();
            high.lemma_bound();
            let bn = Self::modulus() as int;
            let a = self@ as int;
            let b = rhs@ as int;
            assert(a * b <= (bn - 1) * (bn - 1)) by (nonlinear_arith)
                requires
                    0 <= a <= bn - 1,
                    0 <= b <= bn - 1,
            ;
            assert((bn - 1) * (bn - 1) + (bn - 1) == bn * bn - bn) by (nonlinear_arith);
            let h = res_h@ as int;
            let f = bit(flag) as int;
            let o = bit(over) as int;
            let hi = high@ as int;
            assert(bn * (hi + o * bn) == bn * hi + o * (bn * bn)) by (nonlinear_arith);
            assert(bn * (h + f) == bn * h + f * bn) by (nonlinear_arith);
            assert(o * (bn * bn) == if over { bn * bn } else { 0 }) by (nonlinear_arith)
                requires
                    o == (if over { 1int } else { 0int }),
            ;
            assert(bn * hi >= 0) by (nonlinear_arith)
                requires
                    bn >= 0,
                    hi >= 0,
            ;
            assert(!over);
            assert(high@ * Self::modulus() == Self::modulus() * high@) by (nonlinear_arith);
        }
        (low, high)
    }

    /// `self * rhs`: the low `N` limbs and the limb above them.
    pub fn mul_by_limb(&self, rhs: L) -> (r: (Self, L))
        ensures
            r.0@ + r.1.val() * Self::modulus() == self@ * rhs.val(),
    {
        proof {
            L::ZERO.lemma_limb_range();
        }
        self.mul_by_limb_carry(rhs, L::ZERO)
    }

    /// `self * rhs + carry`: the low `N` limbs and the limb above them.
    pub fn mul_by_limb_carry(&self, rhs: L, carry: L) -> (r: (Self, L))
        ensures
            r.0@ + r.1.val() * Self::modulus() == self@ * rhs.val() + carry.val(),
    {
        let ghost cin = carry;
        let mut carry = carry;
        let z = L::ZERO;
        let mut limbs = [z;N];
        let mut i: usize = 0;
        proof {
            lemma_base_pow::<L>(0);
            assert(0 * rhs.val() == 0);
        }
        while i < N
            invariant
                i <= N,
                limbs_val(limbs@, i as nat) + carry.val() * base_pow::<L>(i as nat) == limbs_val(
                    self.limbs@,
                    i as nat,
                ) * rhs.val() + cin.val(),
            decreases N - i,
        {
            let ghost before = limbs@;
            let ghost c0 = carry;
            let (l, c) = self.limbs[i].mul_carry(rhs, carry);
            limbs[i] = l;
            carry = c;
            proof {
                lemma_limbs_val_agree(limbs@, before, i as nat);
                lemma_base_pow::<L>(i as nat);
                let p = base_pow::<L>(i as nat) as int;
                let b = L::base() as int;
                let lv = l.val() as int;
                let cv = c.val() as int;
                let x = self.limbs[i as int].val() as int;
                let y = rhs.val() as int;
                let s0 = limbs_val(self.limbs@, i as nat) as int;
                assert((lv + cv * b) * p == lv * p + cv * (b * p)) by (nonlinear_arith);
                assert((x * y + c0.val()) * p == x * p * y + c0.val() * p) by (nonlinear_arith);
                assert((s0 + x * p) * y == s0 * y + x * p * y) by (nonlinear_arith);
            }
            i += 1;
        }
        (Self::from_limbs(limbs), carry)
    }

    /// `self * rhs * b^index` in full, as a low and a high half.
    pub fn mul_by_limb_shift(&self, rhs: L, index: usize) -> (r: (Self, Self))
        requires
            index < N,
        ensures
            r.0@ + r.1@ * Self::modulus() == self@ * (rhs.val() * base_pow::<L>(index as nat)),
    {
        let other = Self::single_power(rhs, index);
        self.carrying_mul(other, Self::zero())
    }

    /// Whether `self <= other`. Every pair of limbs is looked at, wherever
    /// the first difference lies.
    pub fn le(&self, other: &Self) -> (r: bool)
        ensures
            r == (self@ <= other@),
    {
        let mut res = true;
        let mut _dummy_res = true;
        let mut flag = true;
        let mut i: usize = N;
        while i > 0
            invariant
                i <= N,
                flag ==> res,
                flag ==> (self@ <= other@ <==> limbs_val(self.limbs@, i as nat) <= limbs_val(
                    other.limbs@,
                    i as nat,
                )),
                !flag ==> res == (self@ <= other@),
            decreases i,
        {
            proof {
                lemma_limbs_val_order(self.limbs@, other.limbs@, i as nat);
                lemma_limbs_val_order(other.limbs@, self.limbs@, i as nat);
            }
            i -= 1;
            if !self.limbs[i].same(&other.limbs[i]) {
                if flag {
                    res = self.limbs[i].below(&other.limbs[i]);
                    flag = false;
                } else {
                    _dummy_res = self.limbs[i].below(&other.limbs[i]);
                }
            }
        }
        res
    }

    /// Whether `self <= other`, stopping at the first limbs that differ.
    pub fn le_non_ct(&self, other: &Self) -> (r: bool)
        ensures
            r == (self@ <= other@),
    {
        let mut i: usize = N;
        while i > 0
            invariant
                i <= N,
                self@ <= other@ <==> limbs_val(self.limbs@, i as nat) <= limbs_val(
                    other.limbs@,
                    i as nat,
                ),
            decreases i,
        {
            proof {
                lemma_limbs_val_order(self.limbs@, other.limbs@, i as nat);
                lemma_limbs_val_order(other.limbs@, self.limbs@, i as nat);
            }
            i -= 1;
            if !self.limbs[i].same(&other.limbs[i]) {
                return self.limbs[i].below(&other.limbs[i]);
            }
        }
        true
    }

    /// Compares two double-width values given as (low, high): true when the
    /// high halves are in order, or are equal with the low halves in order.
    /// Equal high halves are in order, so the high halves alone decide.
    pub fn le_double(element: &(Self, Self), other: &(Self, Self)) -> (r: bool)
        ensures
            r == (element.1@ <= other.1@ || (element.1@ == other.1@ && element.0@ <= other.0@)),
            r == (element.1@ <= other.1@),
    {
        let high = element.1.le(&other.1);
        let low = element.0.le(&other.0);
        let equal = element.1 == other.1;

        high || (equal && low)
    }
}

impl<L: Limb, const N: usize> PartialEq for LimbInt<L, N> {
    /// Limb by limb.
    fn eq(&self, other: &Self) -> (r: bool) {
        let mut res = true;
        let mut i: usize = 0;
        while i < N
            invariant
                i <= N,
                res == (forall|j: int| 0 <= j < i ==> self.limbs[j] == other.limbs[j]),
            decreases N - i,
        {
            if !self.limbs[i].same(&other.limbs[i]) {
                res = false;
            } else {
                proof {
                    self.limbs[i as int].lemma_val_injective(other.limbs[i as int]);
                }
            }
            i += 1;
        }
        proof {
            if res {
                lemma_limbs_val_agree(self.limbs@, other.limbs@, N as nat);
            } else {
                if self@ == other@ {
                    lemma_limbs_val_injective(self.limbs@, other.limbs@, N as nat);
                }
            }
        }
        res
    }
}

impl<L: Limb, const N: usize> PartialEqSpecImpl for LimbInt<L, N> {
    open spec fn obeys_eq_spec() -> bool {
        true
    }

    open spec fn eq_spec(&self, other: &Self) -> bool {
        self@ == other@
    }
}

impl<L: Limb, const N: usize> Eq for LimbInt<L, N> {

}

impl<L: Limb, const N: usize> From<[L; N]> for LimbInt<L, N> {
    fn from(limbs: [L; N]) -> (r: Self) {
        Self { limbs }
    }
}

impl<L: Limb, const N: usize> FromSpecImpl<[L; N]> for LimbInt<L, N> {
    open spec fn obeys_from_spec() -> bool {
        true
    }

    open spec fn from_spec(limbs: [L; N]) -> Self {
        LimbInt { limbs }
    }
}

impl<L: Limb, const N: usize> Integer for LimbInt<L, N> {
    type Limb = L;

    open spec fn limbs_le(&self) -> Seq<L> {
        self.limbs@
    }

    fn into_limbs_le(&self) -> (r: &[L]) {
        &self.limbs
    }
}

} // verus!
