//! Codes as runs of fields, and streams that start with a field.

use crate::bits::{lemma_bits_join, Bits};
use crate::common::CompressionMode;
use crate::implode::model::{distance_code, distance_low_bits, length_bucket, literal_code};
use crate::implode::output::lemma_length_bucket_range;
use crate::tables::{
    CH_BITS_ASC, CH_CODE_ASC, DIST_BITS, DIST_CODE, EX_LEN_BITS, LEN_BASE, LEN_BITS, LEN_CODE,
};
use vstd::arithmetic::power2::{lemma2_to64, lemma_pow2_adds, lemma_pow2_pos, pow2};
use vstd::prelude::*;

verus! {

/// The stream `s` holds the bits `r`, and behind them only zero bits.
pub open spec fn carries(s: Bits, r: Bits) -> bool {
    s.value == r.value && s.len >= r.len
}

/// The bits of one field: a number of `len` bits.
pub open spec fn field(value: int, len: int) -> Bits {
    Bits { value: value as nat, len: len as nat }
}

/// A stream that holds a field and more bits starts with the field, and
/// holds the other bits behind it.
pub proof fn lemma_peel(s: Bits, c: Bits, r: Bits)
    requires
        carries(s, c.append(r)),
        c.wf(),
    ensures
        s.low(c.len) == c.value,
        carries(s.skip(c.len), r),
        s.skip(c.len).len == s.len - c.len,
{
    lemma_bits_join(c.value, r.value, c.len);
}

/// The code of a byte in binary mode is a zero bit and the byte.
pub proof fn lemma_binary_fields(v: int)
    requires
        0 <= v < 0x100,
    ensures
        literal_code(CompressionMode::Binary, v) == field(0, 1).append(field(v, 8)),
{
    lemma2_to64();
    assert((v as nat) * pow2(1) == 2 * v) by (nonlinear_arith)
        requires
            pow2(1) == 2,
            v >= 0,
    ;
}

/// The code of a byte in ASCII mode is a zero bit and the ASCII code.
pub proof fn lemma_ascii_fields(v: int)
    requires
        0 <= v < 0x100,
    ensures
        literal_code(CompressionMode::ASCII, v) == field(0, 1).append(
            field(CH_CODE_ASC[v] as int, CH_BITS_ASC[v] as int),
        ),
{
    lemma2_to64();
    let code = CH_CODE_ASC[v] as nat;
    assert(code * pow2(1) == 2 * code) by (nonlinear_arith)
        requires
            pow2(1) == 2,
    ;
}

/// The code of a length value is a one bit, the code of its bucket and
/// the extra bits.
pub proof fn lemma_length_fields(mode: CompressionMode, w: int)
    requires
        0 <= w < 0x206,
    ensures
        ({
            let i = length_bucket(w);
            literal_code(mode, 0x100 + w) == field(1, 1).append(
                field(LEN_CODE[i] as int, LEN_BITS[i] as int).append(
                    field(w - LEN_BASE[i], EX_LEN_BITS[i] as int),
                ),
            )
        }),
{
    lemma2_to64();
    lemma_length_bucket_range(w);
    let i = length_bucket(w);
    let bits = LEN_BITS[i] as nat;
    lemma_pow2_adds(1, bits);
    let extra = (w - LEN_BASE[i]) as nat;
    let code = LEN_CODE[i] as nat;
    assert(bits + 1 == 1 + bits);
    assert(1 + (code + extra * pow2(bits)) * 2 == 1 + 2 * code + (2 * pow2(bits)) * extra)
        by (nonlinear_arith);
}

/// The code of a distance is the code of its high part and its low bits.
pub proof fn lemma_distance_fields(dsize_bits: int, length: int, distance: int)
    requires
        1 <= distance,
    ensures
        ({
            let k = distance_low_bits(dsize_bits, length) as nat;
            let high = (distance - 1) / (pow2(k) as int);
            let low = (distance - 1) % (pow2(k) as int);
            distance_code(dsize_bits, length, distance) == field(
                DIST_CODE[high] as int,
                DIST_BITS[high] as int,
            ).append(field(low, k as int))
        }),
{
    let k = distance_low_bits(dsize_bits, length) as nat;
    lemma_pow2_pos(k);
    let low = (distance - 1) % (pow2(k) as int);
    vstd::arithmetic::div_mod::lemma_mod_bound(distance - 1, pow2(k) as int);
    let high = (distance - 1) / (pow2(k) as int);
    let p = pow2(DIST_BITS[high] as nat);
    assert(p * low == low * p) by (nonlinear_arith);
}

} // verus!
