//! Reading back what was written: a stream that starts with the code of a
//! value is decoded as that value.

use crate::bits::{lemma_append_assoc, lemma_bits_split, lemma_skip_skip, Bits};
use crate::common::CompressionMode;
use crate::explode::model::{
    ascii_enters, ascii_lead_bits, ascii_route, ascii_tail_bits, decode_ascii, decode_ascii_tail,
    decode_distance, decode_length, decode_literal, lemma_ascii_table_ranges,
    lemma_length_table_ranges, length_slot,
};
use crate::implode::model::{distance_code, distance_low_bits, length_bucket, literal_code};
use crate::implode::output::lemma_length_bucket_range;
use crate::laws::arith::starts_with;
use crate::laws::fields::{
    carries, field, lemma_ascii_fields, lemma_binary_fields, lemma_distance_fields,
    lemma_length_fields, lemma_peel,
};
use crate::laws::inverse::{
    lemma_ascii_first_slot_long, lemma_ascii_first_slot_short, lemma_ascii_long_slot,
    lemma_ascii_tail_code, lemma_distance_slot, lemma_length_slot,
};
use crate::tables::{
    CH_BITS_ASC, CH_CODE_ASC, DIST_BITS, DIST_CODE, EX_LEN_BITS, LEN_BASE, LEN_BITS, LEN_CODE,
};
use vstd::arithmetic::power2::{lemma2_to64, lemma_pow2_pos, pow2};
use vstd::prelude::*;

verus! {

/// A stream that starts with the code of a byte in binary mode is decoded
/// as that byte, and the bits behind the code remain.
pub proof fn lemma_decode_binary(s: Bits, v: int, r: Bits)
    requires
        0 <= v < 0x100,
        carries(s, literal_code(CompressionMode::Binary, v).append(r)),
        r.len >= 8,
    ensures
        decode_literal(CompressionMode::Binary, s).value == v,
        carries(decode_literal(CompressionMode::Binary, s).rest, r),
        decode_literal(CompressionMode::Binary, s).rest.len == s.len - 9,
{
    lemma2_to64();
    lemma_binary_fields(v);
    let flag = field(0, 1);
    let byte = field(v, 8);
    lemma_append_assoc(flag, byte, r);
    lemma_peel(s, flag, byte.append(r));
    lemma_peel(s.skip(1), byte, r);
}

/// A stream that starts with the code of a length value is decoded as
/// that value, and the bits behind the code remain. The end marker is
/// decoded even when nothing follows it.
pub proof fn lemma_decode_length(mode: CompressionMode, s: Bits, w: int, r: Bits)
    requires
        0 <= w < 0x206,
        carries(s, literal_code(mode, 0x100 + w).append(r)),
        r.len >= 8 || w == 0x205,
    ensures
        decode_literal(mode, s).value == 0x100 + w,
        r.len >= 8 ==> carries(decode_literal(mode, s).rest, r) && decode_literal(
            mode,
            s,
        ).rest.len == s.len - literal_code(mode, 0x100 + w).len,
{
    lemma2_to64();
    lemma_length_fields(mode, w);
    lemma_length_bucket_range(w);
    lemma_length_table_ranges();
    let i = length_bucket(w);
    assert(LEN_CODE[i] < pow2(LEN_BITS[i] as nat)) by {
        assert(forall|k: int| 0 <= k < 16 ==> #[trigger] LEN_CODE[k] < pow2(LEN_BITS[k] as nat));
    }
    let flag = field(1, 1);
    let code = field(LEN_CODE[i] as int, LEN_BITS[i] as int);
    let extra = field(w - LEN_BASE[i], EX_LEN_BITS[i] as int);
    lemma_append_assoc(flag, code.append(extra), r);
    lemma_append_assoc(code, extra, r);
    lemma_peel(s, flag, code.append(extra.append(r)));
    let s0 = s.skip(1);
    lemma_peel(s0, code, extra.append(r));
    assert(starts_with(s0.value as int, LEN_CODE[i] as int, LEN_BITS[i] as int));
    lemma_length_slot(s0.value, i);
    assert(length_slot(s0.low(8) as int) == i);
    let s1 = s0.skip(LEN_BITS[i] as nat);
    if EX_LEN_BITS[i] == 0 {
        assert(extra.append(r) == r) by {
            assert(r.value * pow2(0) == r.value) by (nonlinear_arith)
                requires
                    pow2(0) == 1,
            ;
        }
    } else {
        lemma_peel(s1, extra, r);
    }
    assert(decode_literal(mode, s) == decode_length(s0));
}

/// The end marker at the end of a stream is decoded as the end marker.
pub proof fn lemma_decode_end(mode: CompressionMode, s: Bits)
    requires
        carries(s, literal_code(mode, 0x305)),
    ensures
        decode_literal(mode, s).value == 0x305,
{
    let nothing = Bits { value: 0, len: 0 };
    let code = literal_code(mode, 0x305);
    assert(code.append(nothing) == code) by {
        assert(0 * pow2(code.len) == 0) by (nonlinear_arith);
    }
    lemma_decode_length(mode, s, 0x205, nothing);
}

/// Behind the bits that the lookup of a long code drops, the bits that
/// index its table start with the rest of the code.
pub proof fn lemma_long_index(w: nat, code: nat, bits: nat, lead: nat, width: nat)
    requires
        starts_with(w as int, code as int, bits as int),
        lead <= bits,
        bits - lead <= width,
    ensures
        starts_with(
            ((w / pow2(lead)) % pow2(width)) as int,
            (code / pow2(lead)) as int,
            (bits - lead) as int,
        ),
{
    let tail = (bits - lead) as nat;
    lemma_bits_split(w, lead, tail);
    assert(lead + tail == bits);
    lemma_bits_split(w / pow2(lead), tail, (width - tail) as nat);
    assert(tail + (width - tail) as nat == width);
}

/// The low bits of a stream that starts with a code are the low bits of
/// the code.
pub proof fn lemma_low_of_code(w: nat, code: nat, bits: nat, low: nat)
    requires
        starts_with(w as int, code as int, bits as int),
        low <= bits,
    ensures
        w % pow2(low) == code % pow2(low),
{
    lemma_bits_split(w, low, (bits - low) as nat);
    assert(low + (bits - low) as nat == bits);
}

/// A stream that starts with the code of a byte in ASCII mode is decoded
/// as that byte, and the bits behind the code remain.
pub proof fn lemma_decode_ascii(s: Bits, v: int, r: Bits)
    requires
        0 <= v < 0x100,
        carries(s, literal_code(CompressionMode::ASCII, v).append(r)),
        r.len >= 8,
    ensures
        decode_literal(CompressionMode::ASCII, s).value == v,
        carries(decode_literal(CompressionMode::ASCII, s).rest, r),
        decode_literal(CompressionMode::ASCII, s).rest.len == s.len - literal_code(
            CompressionMode::ASCII,
            v,
        ).len,
{
    lemma2_to64();
    lemma_ascii_fields(v);
    lemma_ascii_table_ranges();
    let flag = field(0, 1);
    let code = field(CH_CODE_ASC[v] as int, CH_BITS_ASC[v] as int);
    lemma_append_assoc(flag, code, r);
    lemma_peel(s, flag, code.append(r));
    let s0 = s.skip(1);
    lemma_peel(s0, code, r);
    assert(decode_literal(CompressionMode::ASCII, s) == decode_ascii(s0));
    lemma_decode_ascii_code(s0, v, r);
}

/// Behind its flag bit, a stream that starts with the ASCII code of a byte
/// is decoded as that byte.
proof fn lemma_decode_ascii_code(s0: Bits, v: int, r: Bits)
    requires
        0 <= v < 0x100,
        starts_with(s0.value as int, CH_CODE_ASC[v] as int, CH_BITS_ASC[v] as int),
        s0.len >= CH_BITS_ASC[v] + 8,
        carries(s0.skip(CH_BITS_ASC[v] as nat), r),
        s0.skip(CH_BITS_ASC[v] as nat).len == s0.len - CH_BITS_ASC[v],
    ensures
        decode_ascii(s0).value == v,
        carries(decode_ascii(s0).rest, r),
        decode_ascii(s0).rest.len == s0.len - CH_BITS_ASC[v],
{
    lemma2_to64();
    lemma_ascii_tail_code(v);
    let w = s0.value;
    let code = CH_CODE_ASC[v] as nat;
    let bits = CH_BITS_ASC[v] as nat;
    let route = ascii_route(v);
    let lead = ascii_lead_bits(v) as nat;
    let tail = ascii_tail_bits(v) as nat;
    if route == 0 {
        lemma_ascii_first_slot_short(w, v);
        assert(decode_ascii(s0) == decode_ascii_tail(s0, v));
    } else {
        lemma_low_of_code(w, code, bits, 8);
        lemma_low_of_code(w, code, bits, 6);
        if route == 3 {
            lemma_long_index(w, code, bits, 8, 8);
        } else {
            lemma_ascii_first_slot_long(v);
            if route == 1 {
                lemma_long_index(w, code, bits, 4, 8);
            } else {
                lemma_long_index(w, code, bits, 6, 7);
            }
        }
        let s1 = s0.skip(lead);
        let x = if route == 2 {
            s1.low(7)
        } else {
            s1.low(8)
        };
        lemma_pow2_pos(7);
        vstd::arithmetic::div_mod::lemma_mod_bound(s1.value as int, 128);
        vstd::arithmetic::div_mod::lemma_mod_bound(s1.value as int, 256);
        assert(ascii_enters(v, route, x as int));
        lemma_ascii_long_slot(x, v);
        lemma_skip_skip(s0, lead, tail);
        assert(decode_ascii(s0) == decode_ascii_tail(s1, v));
    }
}

/// A stream that starts with the code of a distance is decoded as that
/// distance, and the bits behind the code remain.
pub proof fn lemma_decode_distance(dsize_bits: int, length: int, distance: int, s: Bits, r: Bits)
    requires
        4 <= dsize_bits <= 6,
        1 <= distance,
        (distance - 1) / (pow2(distance_low_bits(dsize_bits, length) as nat) as int) < 64,
        carries(s, distance_code(dsize_bits, length, distance).append(r)),
        r.len >= 8,
    ensures
        decode_distance(dsize_bits, length, s).value == distance,
        carries(decode_distance(dsize_bits, length, s).rest, r),
        decode_distance(dsize_bits, length, s).rest.len == s.len - distance_code(
            dsize_bits,
            length,
            distance,
        ).len,
{
    lemma2_to64();
    lemma_distance_fields(dsize_bits, length, distance);
    let k = distance_low_bits(dsize_bits, length) as nat;
    lemma_pow2_pos(k);
    let high = (distance - 1) / (pow2(k) as int);
    let low = (distance - 1) % (pow2(k) as int);
    vstd::arithmetic::div_mod::lemma_fundamental_div_mod(distance - 1, pow2(k) as int);
    vstd::arithmetic::div_mod::lemma_mod_bound(distance - 1, pow2(k) as int);
    assert(0 <= high < 64);
    assert(DIST_CODE[high] < pow2(DIST_BITS[high] as nat) && DIST_BITS[high] <= 8) by {
        assert(forall|i: int|
            0 <= i < 64 ==> #[trigger] DIST_BITS[i] <= 8 && DIST_CODE[i] < pow2(
                DIST_BITS[i] as nat,
            ));
    }
    let code = field(DIST_CODE[high] as int, DIST_BITS[high] as int);
    let tail = field(low, k as int);
    lemma_append_assoc(code, tail, r);
    lemma_peel(s, code, tail.append(r));
    assert(starts_with(s.value as int, DIST_CODE[high] as int, DIST_BITS[high] as int));
    lemma_distance_slot(s.value, high);
    let s1 = s.skip(DIST_BITS[high] as nat);
    lemma_peel(s1, tail, r);
    assert(high * pow2(k) + low + 1 == distance) by (nonlinear_arith)
        requires
            distance - 1 == pow2(k) * high + low,
    ;
}

} // verus!
