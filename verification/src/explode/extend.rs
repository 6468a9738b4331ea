//! Decompression of a stream of which more may come: the tokens that can
//! be read from the input that is there are the tokens of any longer
//! input.

use crate::bits::{bits_of_bytes, le_value, lemma_bits_split, lemma_le_value_split, Bits};
use crate::common::{CompressionMode, PkLibError};
use crate::explode::model::{
    ascii_tail_bits, decode_ascii, decode_ascii_tail, decode_distance, decode_length,
    decode_literal, explode_run, explode_step, lemma_ascii_table_ranges,
    lemma_explode_step_rest, lemma_inverse_slot_range, lemma_length_table_ranges,
    length_slot, Step, LITERAL_END_OF_STREAM, LITERAL_ERROR,
};
use crate::tables::{DIST_BITS, DIST_CODE, EX_LEN_BITS, LEN_BITS, LEN_CODE};
use vstd::arithmetic::power2::{lemma2_to64, lemma_pow2_pos, pow2};
use vstd::prelude::*;

verus! {

/// The stream `longer` starts with the bits of the stream `s`.
pub open spec fn extends(longer: Bits, s: Bits) -> bool {
    longer.len - s.len >= 0 && longer.value % pow2(s.len) == s.value
}

/// A longer stream has the same first bits, and without its first bits it
/// is the longer one of the two streams without theirs.
pub proof fn lemma_extends_parts(longer: Bits, s: Bits, n: nat)
    requires
        extends(longer, s),
        n <= s.len,
    ensures
        longer.low(n) == s.low(n),
        extends(longer.skip(n), s.skip(n)),
        longer.skip(n).len - s.skip(n).len == longer.len - s.len,
{
    lemma_bits_split(longer.value, n, (s.len - n) as nat);
    assert(n + (s.len - n) as nat == s.len);
}

/// The bits of a byte sequence with more bytes behind it start with the
/// bits of the byte sequence.
pub proof fn lemma_more_bytes_extend(bytes: Seq<u8>, more: Seq<u8>)
    ensures
        extends(bits_of_bytes(bytes + more), bits_of_bytes(bytes)),
{
    let all = bytes + more;
    lemma_le_value_split(all, bytes.len() as int);
    assert(all.take(bytes.len() as int) =~= bytes);
    crate::bits::lemma_le_value_bound(bytes);
    crate::bits::lemma_bits_join(
        le_value(bytes),
        le_value(all.skip(bytes.len() as int)),
        8 * bytes.len(),
    );
}

/// A length value that can be read from a stream is read from every
/// longer stream.
pub proof fn lemma_decode_length_extends(longer: Bits, s: Bits)
    requires
        extends(longer, s),
        s.len >= 8,
        decode_length(s).value != LITERAL_ERROR,
    ensures
        decode_length(longer).value == decode_length(s).value,
        decode_length(s).value != LITERAL_END_OF_STREAM ==> extends(
            decode_length(longer).rest,
            decode_length(s).rest,
        ) && decode_length(longer).rest.len - decode_length(s).rest.len == longer.len - s.len,
{
    lemma2_to64();
    lemma_length_table_ranges();
    lemma_extends_parts(longer, s, 8);
    lemma_inverse_slot_range(LEN_CODE@, LEN_BITS@, 16, s.low(8) as int, 0);
    let bucket = length_slot(s.low(8) as int) as int;
    let bits = LEN_BITS[bucket] as nat;
    lemma_extends_parts(longer, s, bits);
    let s1 = s.skip(bits);
    let l1 = longer.skip(bits);
    let extra_bits = EX_LEN_BITS[bucket] as nat;
    if extra_bits > 0 {
        lemma_extends_parts(l1, s1, extra_bits);
        lemma_pow2_pos(extra_bits);
        vstd::arithmetic::div_mod::lemma_mod_bound(s1.value as int, pow2(extra_bits) as int);
        if extra_bits < 8 {
            vstd::arithmetic::power2::lemma_pow2_strictly_increases(extra_bits, 8);
        }
    }
}

/// An ASCII literal that can be read from a stream is read from every
/// longer stream.
pub proof fn lemma_decode_ascii_extends(longer: Bits, s: Bits)
    requires
        extends(longer, s),
        s.len >= 8,
        decode_ascii(s).value != LITERAL_ERROR,
    ensures
        decode_ascii(longer).value == decode_ascii(s).value,
        extends(decode_ascii(longer).rest, decode_ascii(s).rest),
        decode_ascii(longer).rest.len - decode_ascii(s).rest.len == longer.len - s.len,
{
    lemma2_to64();
    lemma_ascii_table_ranges();
    lemma_extends_parts(longer, s, 8);
    lemma_extends_parts(longer, s, 6);
    if s.low(8) != 0 {
        let v = crate::explode::model::ascii_first_slot(0, s.low(8) as int);
        if v != 0xFF {
            lemma_ascii_tail_extends(longer, s, v as int);
        } else if s.low(6) != 0 {
            lemma_extends_parts(longer, s, 4);
            lemma_extends_parts(longer.skip(4), s.skip(4), 8);
            lemma_ascii_tail_extends(
                longer.skip(4),
                s.skip(4),
                crate::explode::model::ascii_long_slot(1, 0, s.skip(4).low(8) as int) as int,
            );
        } else {
            lemma_extends_parts(longer, s, 6);
            lemma_extends_parts(longer.skip(6), s.skip(6), 7);
            lemma_ascii_tail_extends(
                longer.skip(6),
                s.skip(6),
                crate::explode::model::ascii_long_slot(2, 0, s.skip(6).low(7) as int) as int,
            );
        }
    } else {
        lemma_extends_parts(longer, s, 8);
        lemma_extends_parts(longer.skip(8), s.skip(8), 8);
        lemma_ascii_tail_extends(
            longer.skip(8),
            s.skip(8),
            crate::explode::model::ascii_long_slot(3, 0, s.skip(8).low(8) as int) as int,
        );
    }
}

/// The rest of an ASCII literal that can be read from a stream is read
/// from every longer stream.
pub proof fn lemma_ascii_tail_extends(longer: Bits, s: Bits, v: int)
    requires
        extends(longer, s),
        0 <= v < 256,
        decode_ascii_tail(s, v).value != LITERAL_ERROR,
    ensures
        decode_ascii_tail(longer, v).value == decode_ascii_tail(s, v).value,
        extends(decode_ascii_tail(longer, v).rest, decode_ascii_tail(s, v).rest),
        decode_ascii_tail(longer, v).rest.len - decode_ascii_tail(s, v).rest.len == longer.len
            - s.len,
{
    lemma_ascii_table_ranges();
    lemma_extends_parts(longer, s, ascii_tail_bits(v) as nat);
}

/// A literal, a length value or an end marker that can be read from a
/// stream is read from every longer stream.
pub proof fn lemma_decode_literal_extends(mode: CompressionMode, longer: Bits, s: Bits)
    requires
        extends(longer, s),
        s.len >= 8,
        decode_literal(mode, s).value != LITERAL_ERROR,
    ensures
        decode_literal(mode, longer).value == decode_literal(mode, s).value,
        decode_literal(mode, s).value != LITERAL_END_OF_STREAM ==> extends(
            decode_literal(mode, longer).rest,
            decode_literal(mode, s).rest,
        ) && decode_literal(mode, longer).rest.len - decode_literal(mode, s).rest.len
            == longer.len - s.len,
{
    lemma2_to64();
    lemma_extends_parts(longer, s, 1);
    let s0 = s.skip(1);
    let l0 = longer.skip(1);
    if s.low(1) == 1 {
        lemma_decode_length_extends(l0, s0);
    } else if mode == CompressionMode::Binary {
        lemma_extends_parts(l0, s0, 8);
    } else {
        lemma_decode_ascii_extends(l0, s0);
    }
}

/// A distance that can be read from a stream is read from every longer
/// stream.
pub proof fn lemma_decode_distance_extends(dsize_bits: int, length: int, longer: Bits, s: Bits)
    requires
        extends(longer, s),
        s.len >= 8,
        4 <= dsize_bits <= 6,
        decode_distance(dsize_bits, length, s).value != 0,
    ensures
        decode_distance(dsize_bits, length, longer).value == decode_distance(
            dsize_bits,
            length,
            s,
        ).value,
        extends(
            decode_distance(dsize_bits, length, longer).rest,
            decode_distance(dsize_bits, length, s).rest,
        ),
        decode_distance(dsize_bits, length, longer).rest.len - decode_distance(
            dsize_bits,
            length,
            s,
        ).rest.len == longer.len - s.len,
{
    lemma2_to64();
    lemma_extends_parts(longer, s, 8);
    lemma_inverse_slot_range(DIST_CODE@, DIST_BITS@, 64, s.low(8) as int, 0);
    let high = crate::explode::model::distance_slot(s.low(8) as int) as int;
    assert(DIST_BITS[high] <= 8) by {
        assert(forall|i: int| 0 <= i < 64 ==> #[trigger] DIST_BITS[i] <= 8);
    }
    let bits = DIST_BITS[high] as nat;
    lemma_extends_parts(longer, s, bits);
    let low_bits: nat = if length == 2 {
        2
    } else {
        dsize_bits as nat
    };
    lemma_extends_parts(longer.skip(bits), s.skip(bits), low_bits);
}

/// A token that is accepted, the end marker, and a repetition that is
/// rejected for where it starts or ends, are the same in every longer
/// stream. Only a token that the end of the input cuts short may become
/// another.
pub proof fn lemma_step_extends(
    mode: CompressionMode,
    dsize_bits: int,
    longer: Bits,
    s: Bits,
    out: Seq<u8>,
)
    requires
        extends(longer, s),
        s.len >= 8,
        4 <= dsize_bits <= 6,
        explode_step(mode, dsize_bits, s, out) != Step::Fail(PkLibError::InvalidFormat),
    ensures
        match explode_step(mode, dsize_bits, s, out) {
            Step::Next { rest, out: next } => {
                &&& explode_step(mode, dsize_bits, longer, out) is Next
                &&& explode_step(mode, dsize_bits, longer, out)->out == next
                &&& extends(explode_step(mode, dsize_bits, longer, out)->rest, rest)
                &&& explode_step(mode, dsize_bits, longer, out)->rest.len - rest.len
                    == longer.len - s.len
            },
            other => explode_step(mode, dsize_bits, longer, out) == other,
        },
{
    crate::explode::model::lemma_decode_literal_rest(mode, s);
    lemma_decode_literal_extends(mode, longer, s);
    let lit = decode_literal(mode, s);
    if lit.value != LITERAL_END_OF_STREAM && lit.value >= 0x100 {
        let length = lit.value - 0xFE;
        lemma_decode_distance_extends(
            dsize_bits,
            length,
            decode_literal(mode, longer).rest,
            lit.rest,
        );
    }
}

/// Where decompression stands after `n` tokens were accepted: the stream
/// that is left and the output. `None` if one of the first `n` tokens is
/// not accepted.
pub open spec fn reached(
    mode: CompressionMode,
    dsize_bits: int,
    s: Bits,
    out: Seq<u8>,
    n: nat,
) -> Option<(Bits, Seq<u8>)>
    decreases n,
{
    if n == 0 {
        Some((s, out))
    } else {
        match reached(mode, dsize_bits, s, out, (n - 1) as nat) {
            Some((before, held)) => match explode_step(mode, dsize_bits, before, held) {
                Step::Next { rest, out: next } => Some((rest, next)),
                _ => None,
            },
            None => None,
        }
    }
}

/// Decompression from a place that was reached gives what decompression
/// from the start gives.
pub proof fn lemma_reached_run(
    mode: CompressionMode,
    dsize_bits: int,
    s: Bits,
    out: Seq<u8>,
    n: nat,
)
    requires
        s.len >= 8,
        4 <= dsize_bits <= 6,
        reached(mode, dsize_bits, s, out, n) is Some,
    ensures
        reached(mode, dsize_bits, s, out, n)->Some_0.0.len >= 8,
        explode_run(
            mode,
            dsize_bits,
            reached(mode, dsize_bits, s, out, n)->Some_0.0,
            reached(mode, dsize_bits, s, out, n)->Some_0.1,
        ) == explode_run(mode, dsize_bits, s, out),
    decreases n,
{
    if n > 0 {
        lemma_reached_run(mode, dsize_bits, s, out, (n - 1) as nat);
        let before = reached(mode, dsize_bits, s, out, (n - 1) as nat)->Some_0;
        lemma_explode_step_rest(mode, dsize_bits, before.0, before.1);
    }
}

/// A place that was reached in a stream is reached in every longer
/// stream, with the same output.
pub proof fn lemma_reached_extends(
    mode: CompressionMode,
    dsize_bits: int,
    longer: Bits,
    s: Bits,
    out: Seq<u8>,
    n: nat,
)
    requires
        extends(longer, s),
        s.len >= 8,
        4 <= dsize_bits <= 6,
        reached(mode, dsize_bits, s, out, n) is Some,
    ensures
        reached(mode, dsize_bits, longer, out, n) is Some,
        reached(mode, dsize_bits, longer, out, n)->Some_0.1 == reached(
            mode,
            dsize_bits,
            s,
            out,
            n,
        )->Some_0.1,
        extends(
            reached(mode, dsize_bits, longer, out, n)->Some_0.0,
            reached(mode, dsize_bits, s, out, n)->Some_0.0,
        ),
        reached(mode, dsize_bits, longer, out, n)->Some_0.0.len - reached(
            mode,
            dsize_bits,
            s,
            out,
            n,
        )->Some_0.0.len == longer.len - s.len,
        reached(mode, dsize_bits, s, out, n)->Some_0.0.len >= 8,
    decreases n,
{
    if n > 0 {
        lemma_reached_extends(mode, dsize_bits, longer, s, out, (n - 1) as nat);
        let before = reached(mode, dsize_bits, s, out, (n - 1) as nat)->Some_0;
        let after = reached(mode, dsize_bits, longer, out, (n - 1) as nat)->Some_0;
        lemma_explode_step_rest(mode, dsize_bits, before.0, before.1);
        lemma_step_extends(mode, dsize_bits, after.0, before.0, before.1);
    }
}

/// The bits of a byte sequence without its first `d` bytes are its bits
/// without the first `8 * d`.
pub proof fn lemma_skip_bytes(bytes: Seq<u8>, d: int, c: nat)
    requires
        0 <= d <= bytes.len(),
    ensures
        bits_of_bytes(bytes.skip(d)).skip(c) == bits_of_bytes(bytes).skip((8 * d + c) as nat),
{
    lemma_le_value_split(bytes, d);
    crate::bits::lemma_le_value_bound(bytes.take(d));
    crate::bits::lemma_bits_join(
        le_value(bytes.take(d)),
        le_value(bytes.skip(d)),
        (8 * d) as nat,
    );
    lemma_bits_split(le_value(bytes), (8 * d) as nat, c);
}

/// The stream behind a token that is accepted is the stream without the
/// bits of the token.
pub proof fn lemma_step_skips(mode: CompressionMode, dsize_bits: int, s: Bits, out: Seq<u8>)
    requires
        s.len >= 8,
        4 <= dsize_bits <= 6,
        explode_step(mode, dsize_bits, s, out) is Next,
    ensures
        ({
            let rest = explode_step(mode, dsize_bits, s, out)->rest;
            rest.len <= s.len && rest == s.skip((s.len - rest.len) as nat)
        }),
{
    lemma_literal_skips(mode, s);
    crate::explode::model::lemma_decode_literal_rest(mode, s);
    let lit = decode_literal(mode, s);
    if lit.value >= 0x100 {
        lemma_distance_skips(dsize_bits, lit.value - 0xFE, lit.rest);
        let rest = decode_distance(dsize_bits, lit.value - 0xFE, lit.rest).rest;
        crate::bits::lemma_skip_skip(
            s,
            (s.len - lit.rest.len) as nat,
            (lit.rest.len - rest.len) as nat,
        );
    }
}

/// The stream behind a literal or a length value is the stream without
/// the bits of its code.
pub proof fn lemma_literal_skips(mode: CompressionMode, s: Bits)
    requires
        s.len >= 8,
        decode_literal(mode, s).value != LITERAL_ERROR,
        decode_literal(mode, s).value != LITERAL_END_OF_STREAM,
    ensures
        ({
            let rest = decode_literal(mode, s).rest;
            rest.len <= s.len && rest == s.skip((s.len - rest.len) as nat)
        }),
{
    lemma2_to64();
    lemma_length_table_ranges();
    lemma_ascii_table_ranges();
    let s0 = s.skip(1);
    if s.low(1) == 1 {
        lemma_inverse_slot_range(LEN_CODE@, LEN_BITS@, 16, s0.low(8) as int, 0);
        let bucket = length_slot(s0.low(8) as int) as int;
        let bits = LEN_BITS[bucket] as nat;
        let extra_bits = EX_LEN_BITS[bucket] as nat;
        crate::bits::lemma_skip_skip(s, 1, bits);
        if extra_bits > 0 {
            crate::bits::lemma_skip_skip(s, 1 + bits, extra_bits);
        }
    } else if mode == CompressionMode::Binary {
        crate::bits::lemma_skip_skip(s, 1, 8);
    } else {
        let rest = decode_ascii(s0).rest;
        lemma_ascii_skips(s0);
        crate::bits::lemma_skip_skip(s, 1, (s0.len - rest.len) as nat);
    }
}

/// The stream behind an ASCII literal is the stream without the bits of
/// its code.
pub proof fn lemma_ascii_skips(s: Bits)
    requires
        s.len >= 8,
        decode_ascii(s).value != LITERAL_ERROR,
    ensures
        ({
            let rest = decode_ascii(s).rest;
            rest.len <= s.len && rest == s.skip((s.len - rest.len) as nat)
        }),
{
    lemma2_to64();
    lemma_ascii_table_ranges();
    let v = decode_ascii(s).value;
    let tail = ascii_tail_bits(v) as nat;
    if s.low(8) != 0 {
        if crate::explode::model::ascii_first_slot(0, s.low(8) as int) != 0xFF {
            assert(s.skip(0) == s) by {
                assert(pow2(0) == 1);
            }
        } else if s.low(6) != 0 {
            crate::bits::lemma_skip_skip(s, 4, tail);
        } else {
            crate::bits::lemma_skip_skip(s, 6, tail);
        }
    } else {
        crate::bits::lemma_skip_skip(s, 8, tail);
    }
}

/// The stream behind a distance is the stream without the bits of its
/// code.
pub proof fn lemma_distance_skips(dsize_bits: int, length: int, s: Bits)
    requires
        s.len >= 8,
        4 <= dsize_bits <= 6,
        decode_distance(dsize_bits, length, s).value != 0,
    ensures
        ({
            let rest = decode_distance(dsize_bits, length, s).rest;
            rest.len <= s.len && rest == s.skip((s.len - rest.len) as nat)
        }),
{
    lemma2_to64();
    lemma_inverse_slot_range(DIST_CODE@, DIST_BITS@, 64, s.low(8) as int, 0);
    let high = crate::explode::model::distance_slot(s.low(8) as int) as int;
    assert(DIST_BITS[high] <= 8) by {
        assert(forall|i: int| 0 <= i < 64 ==> #[trigger] DIST_BITS[i] <= 8);
    }
    let low_bits: nat = if length == 2 {
        2
    } else {
        dsize_bits as nat
    };
    crate::bits::lemma_skip_skip(s, DIST_BITS[high] as nat, low_bits);
}

/// A place that was reached is the stream without the bits of the tokens
/// before it.
pub proof fn lemma_reached_skips(
    mode: CompressionMode,
    dsize_bits: int,
    s: Bits,
    out: Seq<u8>,
    n: nat,
)
    requires
        s.len >= 8,
        4 <= dsize_bits <= 6,
        reached(mode, dsize_bits, s, out, n) is Some,
    ensures
        ({
            let rest = reached(mode, dsize_bits, s, out, n)->Some_0.0;
            8 <= rest.len <= s.len && rest == s.skip((s.len - rest.len) as nat)
        }),
    decreases n,
{
    if n > 0 {
        lemma_reached_skips(mode, dsize_bits, s, out, (n - 1) as nat);
        let before = reached(mode, dsize_bits, s, out, (n - 1) as nat)->Some_0;
        lemma_explode_step_rest(mode, dsize_bits, before.0, before.1);
        lemma_step_skips(mode, dsize_bits, before.0, before.1);
        let rest = reached(mode, dsize_bits, s, out, n)->Some_0.0;
        crate::bits::lemma_skip_skip(
            s,
            (s.len - before.0.len) as nat,
            (before.0.len - rest.len) as nat,
        );
    } else {
        assert(s.skip(0) == s) by {
            lemma2_to64();
        }
    }
}

} // verus!
