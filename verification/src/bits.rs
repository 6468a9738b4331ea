//! Bit strings in stream order.
//!
//! The format packs its codes first bit first into the low end of each byte.
//! A bit string therefore reads as a natural number whose bit `k` is the
//! string's bit `k`, together with the number of bits.

use vstd::arithmetic::div_mod::{
    lemma_div_denominator, lemma_fundamental_div_mod_converse, lemma_mod_bound,
    lemma_mod_breakdown, lemma_mod_mod,
};
use vstd::arithmetic::power2::{lemma2_to64, lemma_pow2_adds, lemma_pow2_pos, pow2};
use vstd::prelude::*;

verus! {

/// A finite bit string: bit `k` of `value` is the string's bit `k`.
pub struct Bits {
    /// The bits, first bit in the least significant position.
    pub value: nat,
    /// How many bits the string holds.
    pub len: nat,
}

impl Bits {
    /// No bit is set beyond the string's length.
    pub open spec fn wf(self) -> bool {
        self.value < pow2(self.len)
    }

    /// The first `n` bits, as a number.
    pub open spec fn low(self, n: nat) -> nat {
        self.value % pow2(n)
    }

    /// The string without its first `n` bits.
    pub open spec fn skip(self, n: nat) -> Bits
        recommends
            n <= self.len,
    {
        Bits { value: self.value / pow2(n), len: (self.len - n) as nat }
    }

    /// This string followed by `other`.
    pub open spec fn append(self, other: Bits) -> Bits {
        Bits { value: self.value + other.value * pow2(self.len), len: self.len + other.len }
    }
}

/// The number whose little-endian digits in base 256 are `bytes`.
pub open spec fn le_value(bytes: Seq<u8>) -> nat
    decreases bytes.len(),
{
    if bytes.len() == 0 {
        0
    } else {
        (bytes.last() as nat) * pow2((8 * (bytes.len() - 1)) as nat) + le_value(bytes.drop_last())
    }
}

/// The bit string that a byte sequence holds.
pub open spec fn bits_of_bytes(bytes: Seq<u8>) -> Bits {
    Bits { value: le_value(bytes), len: 8 * bytes.len() }
}

/// The bytes that hold a bit string, the last byte padded with zero bits.
pub open spec fn bytes_of_bits(bits: Bits) -> Seq<u8> {
    Seq::new((bits.len + 7) / 8, |i: int| ((bits.value / pow2((8 * i) as nat)) % 256) as u8)
}

/// `x` shifted right by `n` bits.
pub fn shift_right(x: u32, n: u32) -> (r: u32)
    requires
        n < 32,
    ensures
        r == x as nat / pow2(n as nat),
{
    proof {
        vstd::bits::lemma_u32_shr_is_div(x, n);
    }
    x >> n
}

/// The low `n` bits of `x`.
pub fn low_bits(x: u32, n: u32) -> (r: u32)
    requires
        n <= 16,
    ensures
        r == x as nat % pow2(n as nat),
        r < pow2(n as nat),
{
    proof {
        vstd::bits::lemma_u32_pow2_no_overflow(n as nat);
        vstd::bits::lemma_u32_shl_is_mul(1, n);
        vstd::bits::lemma_u32_low_bits_mask_is_mod(x, n as nat);
        lemma_pow2_pos(n as nat);
        lemma2_to64();
        vstd::arithmetic::div_mod::lemma_mod_bound(x as int, pow2(n as nat) as int);
    }
    x & ((1u32 << n) - 1)
}

/// `2^n` as a machine integer.
pub fn power_of_two(n: u32) -> (r: u32)
    requires
        n <= 16,
    ensures
        r == pow2(n as nat),
{
    proof {
        vstd::bits::lemma_u32_pow2_no_overflow(n as nat);
        vstd::bits::lemma_u32_shl_is_mul(1, n);
    }
    1u32 << n
}

/// Splitting a number at `2^a` and then at `2^b`: the low `a + b` bits are
/// the low `a` bits and, above them, the low `b` bits of the rest.
pub proof fn lemma_bits_split(v: nat, a: nat, b: nat)
    ensures
        (v / pow2(a)) / pow2(b) == v / pow2(a + b),
        v % pow2(a + b) == v % pow2(a) + pow2(a) * ((v / pow2(a)) % pow2(b)),
        (v % pow2(a + b)) / pow2(a) == (v / pow2(a)) % pow2(b),
        (v % pow2(a + b)) % pow2(a) == v % pow2(a),
{
    let pa = pow2(a) as int;
    let pb = pow2(b) as int;
    lemma_pow2_pos(a);
    lemma_pow2_pos(b);
    lemma_pow2_adds(a, b);
    lemma_div_denominator(v as int, pa, pb);
    lemma_mod_breakdown(v as int, pa, pb);
    lemma_mod_mod(v as int, pa, pb);
    lemma_mod_bound(v as int, pa);
    lemma_mod_bound((v as int) / pa, pb);
    lemma_fundamental_div_mod_converse(
        (v as int) % (pa * pb),
        pa,
        ((v as int) / pa) % pb,
        (v as int) % pa,
    );
}

/// The bits of a number below `2^(a + b)` above its low `a` bits are
/// below `2^b`.
pub proof fn lemma_shift_bound(v: nat, a: nat, b: nat)
    requires
        v < pow2(a + b),
    ensures
        v / pow2(a) < pow2(b),
{
    lemma_pow2_pos(a);
    lemma_pow2_pos(b);
    lemma_pow2_adds(a, b);
    vstd::arithmetic::div_mod::lemma_multiply_divide_lt(
        v as int,
        pow2(a) as int,
        pow2(b) as int,
    );
}

/// A number below `2^a` with a multiple of `2^a` added splits back into
/// the two.
pub proof fn lemma_bits_join(x: nat, y: nat, a: nat)
    requires
        x < pow2(a),
    ensures
        (x + y * pow2(a)) % pow2(a) == x,
        (x + y * pow2(a)) / pow2(a) == y,
{
    lemma_pow2_pos(a);
    assert(x + y * pow2(a) == pow2(a) * y + x) by (nonlinear_arith);
    lemma_fundamental_div_mod_converse((x + y * pow2(a)) as int, pow2(a) as int, y as int, x as int);
}

/// A string followed by another that is well formed is well formed.
pub proof fn lemma_append_wf(a: Bits, b: Bits)
    requires
        a.wf(),
        b.wf(),
    ensures
        a.append(b).wf(),
{
    lemma_pow2_adds(a.len, b.len);
    assert(a.value + b.value * pow2(a.len) < pow2(a.len) * pow2(b.len)) by (nonlinear_arith)
        requires
            a.value < pow2(a.len),
            b.value < pow2(b.len),
    ;
}

/// Appending is associative.
pub proof fn lemma_append_assoc(a: Bits, b: Bits, c: Bits)
    ensures
        a.append(b).append(c) == a.append(b.append(c)),
{
    lemma_pow2_adds(a.len, b.len);
    assert(a.value + b.value * pow2(a.len) + c.value * (pow2(a.len) * pow2(b.len)) == a.value + (
    b.value + c.value * pow2(b.len)) * pow2(a.len)) by (nonlinear_arith);
}

/// Dropping bits twice drops their sum.
pub proof fn lemma_skip_skip(s: Bits, a: nat, b: nat)
    requires
        a + b <= s.len,
    ensures
        s.skip(a).skip(b) == s.skip(a + b),
{
    lemma_bits_split(s.value, a, b);
}

/// The value of a byte sequence is below `256^len`.
pub proof fn lemma_le_value_bound(bytes: Seq<u8>)
    ensures
        le_value(bytes) < pow2(8 * bytes.len()),
    decreases bytes.len(),
{
    lemma2_to64();
    if bytes.len() > 0 {
        let n = (bytes.len() - 1) as nat;
        lemma_le_value_bound(bytes.drop_last());
        lemma_pow2_adds(8 * n, 8);
        assert(8 * n + 8 == 8 * bytes.len());
        assert((bytes.last() as nat) * pow2(8 * n) + le_value(bytes.drop_last()) < pow2(8 * n)
            * 256) by (nonlinear_arith)
            requires
                (bytes.last() as nat) < 256,
                le_value(bytes.drop_last()) < pow2(8 * n),
        ;
    }
}

/// The value of a byte sequence splits at any byte boundary.
pub proof fn lemma_le_value_split(bytes: Seq<u8>, k: int)
    requires
        0 <= k <= bytes.len(),
    ensures
        le_value(bytes) == le_value(bytes.take(k)) + le_value(bytes.skip(k)) * pow2((8 * k) as nat),
    decreases bytes.len(),
{
    lemma2_to64();
    if k == bytes.len() {
        assert(bytes.take(k) =~= bytes);
        assert(bytes.skip(k).len() == 0);
        assert(le_value(bytes.skip(k)) == 0);
        assert(le_value(bytes.skip(k)) * pow2((8 * k) as nat) == 0) by (nonlinear_arith)
            requires
                le_value(bytes.skip(k)) == 0,
        ;
    } else {
        let n = (bytes.len() - 1) as nat;
        let front = bytes.drop_last();
        lemma_le_value_split(front, k);
        assert(front.take(k) =~= bytes.take(k));
        assert(bytes.skip(k).drop_last() =~= front.skip(k));
        assert(bytes.skip(k).last() == bytes.last());
        let m = (n - k) as nat;
        assert(bytes.skip(k).len() - 1 == m);
        lemma_pow2_adds(8 * m, (8 * k) as nat);
        assert(8 * m + 8 * k == 8 * n);
        let hi = bytes.last() as nat;
        let mid = le_value(front.skip(k));
        let lo = le_value(bytes.take(k));
        assert(le_value(bytes.skip(k)) == hi * pow2(8 * m) + mid);
        assert(le_value(bytes) == hi * pow2(8 * n) + le_value(front));
        assert(le_value(front) == lo + mid * pow2((8 * k) as nat));
        assert(pow2(8 * n) == pow2(8 * m) * pow2((8 * k) as nat));
        assert(hi * (pow2(8 * m) * pow2((8 * k) as nat)) + (lo + mid * pow2((8 * k) as nat)) == lo
            + (hi * pow2(8 * m) + mid) * pow2((8 * k) as nat)) by (nonlinear_arith);
    }
}

/// Byte `k` of a byte sequence is the eight bits of its value from bit
/// `8 * k`.
pub proof fn lemma_le_value_byte(bytes: Seq<u8>, k: int)
    requires
        0 <= k < bytes.len(),
    ensures
        (le_value(bytes) / pow2((8 * k) as nat)) % 256 == bytes[k],
{
    lemma2_to64();
    lemma_le_value_split(bytes, k);
    lemma_le_value_bound(bytes.take(k));
    lemma_bits_join(le_value(bytes.take(k)), le_value(bytes.skip(k)), (8 * k) as nat);
    let tail = bytes.skip(k);
    lemma_le_value_split(tail, 1);
    assert(tail.take(1).drop_last() =~= Seq::<u8>::empty());
    assert(le_value(tail.take(1).drop_last()) == 0);
    assert(tail.take(1).last() == bytes[k]);
    let b = bytes[k] as nat;
    assert(tail.take(1).len() == 1);
    assert(le_value(tail.take(1)) == b * pow2(0) + le_value(tail.take(1).drop_last()));
    assert(b * pow2(0) == b) by (nonlinear_arith)
        requires
            pow2(0) == 1,
    ;
    assert(le_value(tail.take(1)) == b);
    lemma_bits_join(bytes[k] as nat, le_value(tail.skip(1)), 8);
}

} // verus!
