//! What a compressed stream means.
//!
//! The functions here define, on bit strings and byte sequences, the tables
//! that the decompressor derives from the fixed code tables, the value of
//! each token, and the output that a whole stream stands for.

use crate::bits::{bits_of_bytes, Bits};
use crate::common::{CompressionMode, PkLibError};
use crate::tables::{
    CH_BITS_ASC, CH_CODE_ASC, DIST_BITS, DIST_CODE, EX_LEN_BITS, LEN_BASE, LEN_BITS, LEN_CODE,
};
use vstd::arithmetic::power2::pow2;
use vstd::prelude::*;

verus! {

/// The value that ends a stream.
pub const LITERAL_END_OF_STREAM: u32 = 0x305;

/// The value that reports a token cut short by the end of the input.
pub const LITERAL_ERROR: u32 = 0x306;

/// A slot of an inverse table after the first `n` codes were entered: each
/// code of `bits[i]` bits enters its index `i` into every slot whose low
/// `bits[i]` bits equal `codes[i]`, and a later code overwrites an earlier
/// one. A slot that no code reaches keeps `init`.
pub open spec fn inverse_slot(codes: Seq<u8>, bits: Seq<u8>, n: int, x: int, init: u8) -> u8
    decreases n,
{
    if n <= 0 {
        init
    } else if x % (pow2(bits[n - 1] as nat) as int) == codes[n - 1] {
        (n - 1) as u8
    } else {
        inverse_slot(codes, bits, n - 1, x, init)
    }
}

/// The length bucket whose code starts the eight bits `x`.
pub open spec fn length_slot(x: int) -> u8 {
    inverse_slot(LEN_CODE@, LEN_BITS@, 16, x, 0)
}

/// The high part of a distance whose code starts the eight bits `x`.
pub open spec fn distance_slot(x: int) -> u8 {
    inverse_slot(DIST_CODE@, DIST_BITS@, 64, x, 0)
}

/// How the ASCII code of byte value `s` is looked up: 0 when the code has
/// at most eight bits and the first table decides; 1 and 2 when the first
/// table only marks the code as long and the second or third table decides
/// after four or six bits; 3 when the code starts with eight zero bits and
/// the fourth table decides.
pub open spec fn ascii_route(s: int) -> int {
    let code = CH_CODE_ASC[s] as int;
    if CH_BITS_ASC[s] <= 8 {
        0
    } else if code % 256 != 0 {
        if code % 64 != 0 {
            1
        } else {
            2
        }
    } else {
        3
    }
}

/// Number of leading bits of the code of `s` that the lookup consumes
/// before it reads the deciding table.
pub open spec fn ascii_lead_bits(s: int) -> int {
    let route = ascii_route(s);
    if route == 0 {
        0
    } else if route == 1 {
        4
    } else if route == 2 {
        6
    } else {
        8
    }
}

/// Number of bits of the code of `s` that remain once the deciding table
/// was read.
pub open spec fn ascii_tail_bits(s: int) -> int {
    CH_BITS_ASC[s] - ascii_lead_bits(s)
}

/// The part of the code of `s` that the deciding table is indexed by.
pub open spec fn ascii_tail_code(s: int) -> int {
    (CH_CODE_ASC[s] as int) / (pow2(ascii_lead_bits(s) as nat) as int)
}

/// Byte value `s` enters itself into slot `x` of the table of `route`.
pub open spec fn ascii_enters(s: int, route: int, x: int) -> bool {
    ascii_route(s) == route && x % (pow2(ascii_tail_bits(s) as nat) as int) == ascii_tail_code(s)
}

/// Byte value `s` marks slot `x` of the first table as the start of a long
/// code.
pub open spec fn ascii_marks(s: int, x: int) -> bool {
    (ascii_route(s) == 1 || ascii_route(s) == 2) && x == CH_CODE_ASC[s] % 256
}

/// Slot `x` of the first ASCII table once the byte values from 255 down to
/// `from` were entered: the lowest byte value decides, since it is entered
/// last. A slot that none reaches holds 0.
pub open spec fn ascii_first_slot(from: int, x: int) -> u8
    decreases 256 - from,
{
    if from >= 256 || from < 0 {
        0
    } else if ascii_enters(from, 0, x) {
        from as u8
    } else if ascii_marks(from, x) {
        0xFF
    } else {
        ascii_first_slot(from + 1, x)
    }
}

/// Slot `x` of the second, third or fourth ASCII table (`route` 1, 2, 3)
/// once the byte values from 255 down to `from` were entered.
pub open spec fn ascii_long_slot(route: int, from: int, x: int) -> u8
    decreases 256 - from,
{
    if from >= 256 || from < 0 {
        0
    } else if ascii_enters(from, route, x) {
        from as u8
    } else {
        ascii_long_slot(route, from + 1, x)
    }
}

/// A decoded value together with the rest of the stream.
pub struct Decoded {
    /// The value: a byte below 0x100, a length value from 0x100, the end of
    /// the stream at 0x305, and 0x306 when the input was exhausted. For a
    /// distance, 0 when the input was exhausted.
    pub value: int,
    /// The stream behind the value.
    pub rest: Bits,
}

/// Whether `n` bits can be dropped from the stream: the reader always keeps
/// eight bits in hand, so eight bits must remain behind them.
pub open spec fn can_waste(s: Bits, n: int) -> bool {
    s.len >= n + 8
}

/// Reads the rest of an ASCII literal whose byte value `v` a table gave.
pub open spec fn decode_ascii_tail(s: Bits, v: int) -> Decoded {
    if can_waste(s, ascii_tail_bits(v)) {
        Decoded { value: v, rest: s.skip(ascii_tail_bits(v) as nat) }
    } else {
        Decoded { value: LITERAL_ERROR as int, rest: s }
    }
}

/// Reads an ASCII literal behind its flag bit.
pub open spec fn decode_ascii(s: Bits) -> Decoded {
    let failed = Decoded { value: LITERAL_ERROR as int, rest: s };
    if s.low(8) != 0 {
        let v = ascii_first_slot(0, s.low(8) as int);
        if v != 0xFF {
            decode_ascii_tail(s, v as int)
        } else if s.low(6) != 0 {
            if can_waste(s, 4) {
                decode_ascii_tail(s.skip(4), ascii_long_slot(1, 0, s.skip(4).low(8) as int) as int)
            } else {
                failed
            }
        } else {
            if can_waste(s, 6) {
                decode_ascii_tail(s.skip(6), ascii_long_slot(2, 0, s.skip(6).low(7) as int) as int)
            } else {
                failed
            }
        }
    } else {
        if can_waste(s, 8) {
            decode_ascii_tail(s.skip(8), ascii_long_slot(3, 0, s.skip(8).low(8) as int) as int)
        } else {
            failed
        }
    }
}

/// Reads a length value behind its flag bit.
pub open spec fn decode_length(s: Bits) -> Decoded {
    let failed = Decoded { value: LITERAL_ERROR as int, rest: s };
    let bucket = length_slot(s.low(8) as int) as int;
    if !can_waste(s, LEN_BITS[bucket] as int) {
        failed
    } else {
        let s1 = s.skip(LEN_BITS[bucket] as nat);
        let extra_bits = EX_LEN_BITS[bucket] as nat;
        if extra_bits == 0 {
            Decoded { value: 0x100 + bucket, rest: s1 }
        } else {
            let extra = s1.low(extra_bits) as int;
            if can_waste(s1, extra_bits as int) {
                Decoded { value: 0x100 + LEN_BASE[bucket] + extra, rest: s1.skip(extra_bits) }
            } else if bucket + extra == 0x10E {
                Decoded { value: 0x100 + LEN_BASE[bucket] + extra, rest: s1 }
            } else {
                failed
            }
        }
    }
}

/// Reads the next literal, length value or end marker from the stream.
pub open spec fn decode_literal(mode: CompressionMode, s: Bits) -> Decoded {
    let failed = Decoded { value: LITERAL_ERROR as int, rest: s };
    if !can_waste(s, 1) {
        failed
    } else if s.low(1) == 1 {
        decode_length(s.skip(1))
    } else if mode == CompressionMode::Binary {
        if can_waste(s.skip(1), 8) {
            Decoded { value: s.skip(1).low(8) as int, rest: s.skip(1).skip(8) }
        } else {
            failed
        }
    } else {
        decode_ascii(s.skip(1))
    }
}

/// Reads the distance of a repetition of `length` bytes: the code of the
/// high part, then two low bits for a repetition of two bytes and
/// `dsize_bits` low bits for a longer one. The value is the distance, at
/// least one, or 0 when the input was exhausted.
pub open spec fn decode_distance(dsize_bits: int, length: int, s: Bits) -> Decoded {
    let failed = Decoded { value: 0, rest: s };
    let high = distance_slot(s.low(8) as int) as int;
    let low_bits: int = if length == 2 {
        2
    } else {
        dsize_bits
    };
    if !can_waste(s, DIST_BITS[high] as int) {
        failed
    } else {
        let s1 = s.skip(DIST_BITS[high] as nat);
        if !can_waste(s1, low_bits) {
            failed
        } else {
            Decoded {
                value: high * pow2(low_bits as nat) + s1.low(low_bits as nat) + 1,
                rest: s1.skip(low_bits as nat),
            }
        }
    }
}

/// `out` followed by `length` bytes, each a copy of the byte `distance`
/// places before it, so that a repetition may run into its own output.
pub open spec fn copy_back(out: Seq<u8>, distance: int, length: int) -> Seq<u8>
    recommends
        1 <= distance <= out.len(),
    decreases length,
{
    if length <= 0 {
        out
    } else {
        let before = copy_back(out, distance, length - 1);
        before.push(before[before.len() - distance])
    }
}

/// Size of the decompressor's output window.
pub const OUT_BUFF_SIZE: usize = 0x2204;

/// What one token does to the output.
pub enum Step {
    /// The end marker: the output is complete.
    End,
    /// The token is rejected.
    Fail(PkLibError),
    /// The token was a literal or a repetition.
    Next {
        /// The stream behind the token.
        rest: Bits,
        /// The output with the token's bytes.
        out: Seq<u8>,
    },
}

/// The effect of the first token of the stream `s` on the output `out` of
/// the tokens before it.
///
/// A token that the end of the input cuts short is `InvalidFormat`. A
/// repetition that starts before the first byte of output is
/// `InvalidDistance`. The window holds 0x1000 bytes of history and 0x1204
/// bytes more, and is emptied whenever 0x1000 bytes are ready, so a
/// repetition that would end beyond it is `BufferTooSmall`.
pub open spec fn explode_step(mode: CompressionMode, dsize_bits: int, s: Bits, out: Seq<u8>) -> Step {
    let lit = decode_literal(mode, s);
    if lit.value == LITERAL_END_OF_STREAM {
        Step::End
    } else if lit.value == LITERAL_ERROR {
        Step::Fail(PkLibError::InvalidFormat)
    } else if lit.value < 0x100 {
        Step::Next { rest: lit.rest, out: out.push(lit.value as u8) }
    } else {
        let length = lit.value - 0xFE;
        let dist = decode_distance(dsize_bits, length, lit.rest);
        if dist.value == 0 {
            Step::Fail(PkLibError::InvalidFormat)
        } else if dist.value > out.len() {
            Step::Fail(PkLibError::InvalidDistance(dist.value as u32))
        } else if out.len() % 0x1000 + length > 0x1204 {
            Step::Fail(PkLibError::BufferTooSmall)
        } else {
            Step::Next { rest: dist.rest, out: copy_back(out, dist.value, length) }
        }
    }
}

/// Where decompression stops: the output up to there, and the error if it
/// stops for one.
pub struct Outcome {
    /// The output of the tokens that were accepted.
    pub output: Seq<u8>,
    /// Why the next token was rejected, or `None` at the end marker.
    pub error: Option<PkLibError>,
}

/// Decompression of the token stream `s`, given the output `out` of the
/// tokens before it: tokens are taken until the end marker or the first
/// token that is rejected.
pub open spec fn explode_run(mode: CompressionMode, dsize_bits: int, s: Bits, out: Seq<u8>) -> Outcome
    decreases s.len,
    when s.len >= 8 && 4 <= dsize_bits <= 6
    via explode_run_decreases
{
    match explode_step(mode, dsize_bits, s, out) {
        Step::End => Outcome { output: out, error: None },
        Step::Fail(e) => Outcome { output: out, error: Some(e) },
        Step::Next { rest, out } => explode_run(mode, dsize_bits, rest, out),
    }
}

#[via_fn]
proof fn explode_run_decreases(mode: CompressionMode, dsize_bits: int, s: Bits, out: Seq<u8>) {
    lemma_explode_step_rest(mode, dsize_bits, s, out);
}

/// A token that is accepted leaves a shorter stream, of which eight bits
/// are in hand.
pub proof fn lemma_explode_step_rest(mode: CompressionMode, dsize_bits: int, s: Bits, out: Seq<u8>)
    requires
        s.len >= 8,
        4 <= dsize_bits <= 6,
    ensures
        explode_step(mode, dsize_bits, s, out) is Next ==> 8 <= explode_step(
            mode,
            dsize_bits,
            s,
            out,
        )->rest.len < s.len,
{
    lemma_decode_literal_rest(mode, s);
    let lit = decode_literal(mode, s);
    if lit.value != LITERAL_END_OF_STREAM && lit.value != LITERAL_ERROR && lit.value >= 0x100 {
        lemma_decode_distance_rest(dsize_bits, lit.value - 0xFE, lit.rest);
    }
}

/// An inverse table holds indices of codes, or what it held before.
pub proof fn lemma_inverse_slot_range(codes: Seq<u8>, bits: Seq<u8>, n: int, x: int, init: u8)
    requires
        0 <= n <= 256,
    ensures
        inverse_slot(codes, bits, n, x, init) < n || inverse_slot(codes, bits, n, x, init) == init,
    decreases n,
{
    if n > 0 {
        lemma_inverse_slot_range(codes, bits, n - 1, x, init);
    }
}

/// Ranges of the entries of the length tables: a code has two to seven
/// bits, and the buckets tile the length values below 0x206.
pub proof fn lemma_length_table_ranges()
    ensures
        forall|i: int|
            0 <= i < 16 ==> 2 <= #[trigger] LEN_BITS[i] <= 7 && EX_LEN_BITS[i] <= 8 && LEN_BASE[i]
                + pow2(EX_LEN_BITS[i] as nat) <= 0x206 && (EX_LEN_BITS[i] == 0 ==> LEN_BASE[i]
                == i),
{
    vstd::arithmetic::power2::lemma2_to64();
    assert forall|i: int| 0 <= i < 16 implies 2 <= #[trigger] LEN_BITS[i] <= 7 && EX_LEN_BITS[i]
        <= 8 && LEN_BASE[i] + pow2(EX_LEN_BITS[i] as nat) <= 0x206 && (EX_LEN_BITS[i] == 0
        ==> LEN_BASE[i] == i) by {
        if i < 4 {
            assert(i == 0 || i == 1 || i == 2 || i == 3);
        } else if i < 8 {
            assert(i == 4 || i == 5 || i == 6 || i == 7);
        } else if i < 12 {
            assert(i == 8 || i == 9 || i == 10 || i == 11);
        } else {
            assert(i == 12 || i == 13 || i == 14 || i == 15);
        }
    }
}

/// A literal that is neither the end marker nor an error leaves a shorter
/// stream, of which eight bits are in hand.
pub proof fn lemma_decode_literal_rest(mode: CompressionMode, s: Bits)
    requires
        s.len >= 8,
    ensures
        0 <= decode_literal(mode, s).value <= 0x306,
        decode_literal(mode, s).value != LITERAL_ERROR && decode_literal(mode, s).value
            != LITERAL_END_OF_STREAM ==> 8 <= decode_literal(mode, s).rest.len < s.len,
{
    vstd::arithmetic::power2::lemma2_to64();
    if can_waste(s, 1) {
        let s0 = s.skip(1);
        if s.low(1) == 1 {
            lemma_length_table_ranges();
            lemma_inverse_slot_range(LEN_CODE@, LEN_BITS@, 16, s0.low(8) as int, 0);
            let bucket = length_slot(s0.low(8) as int) as int;
            assert(0 <= bucket < 16);
            let s1 = s0.skip(LEN_BITS[bucket] as nat);
            let extra_bits = EX_LEN_BITS[bucket] as nat;
            vstd::arithmetic::power2::lemma_pow2_pos(extra_bits);
            vstd::arithmetic::div_mod::lemma_mod_bound(
                s1.value as int,
                pow2(extra_bits) as int,
            );
        } else if mode == CompressionMode::Binary {
            vstd::arithmetic::div_mod::lemma_mod_bound(s0.value as int, 256);
        } else {
        }
    }
}

/// A distance that was read leaves a stream that is no longer, of which
/// eight bits are in hand.
pub proof fn lemma_decode_distance_rest(dsize_bits: int, length: int, s: Bits)
    requires
        s.len >= 8,
        4 <= dsize_bits <= 6,
    ensures
        decode_distance(dsize_bits, length, s).value != 0 ==> 8 <= decode_distance(
            dsize_bits,
            length,
            s,
        ).rest.len <= s.len,
        0 <= decode_distance(dsize_bits, length, s).value <= 0x1000,
{
    vstd::arithmetic::power2::lemma2_to64();
    lemma_inverse_slot_range(DIST_CODE@, DIST_BITS@, 64, s.low(8) as int, 0);
    let high = distance_slot(s.low(8) as int) as int;
    let low_bits: int = if length == 2 {
        2
    } else {
        dsize_bits
    };
    let s1 = s.skip(DIST_BITS[high] as nat);
    vstd::arithmetic::div_mod::lemma_mod_bound(s1.value as int, pow2(low_bits as nat) as int);
    assert(high * pow2(low_bits as nat) <= 63 * pow2(low_bits as nat)) by (nonlinear_arith)
        requires
            0 <= high <= 63,
    ;
}

/// The mode that a valid first header byte stands for.
pub open spec fn mode_of_byte(b: u8) -> CompressionMode {
    if b == 0 {
        CompressionMode::Binary
    } else {
        CompressionMode::ASCII
    }
}

/// Where decompression of `data` stops. A header that is rejected stops
/// it before any output.
pub open spec fn explode_outcome(data: Seq<u8>) -> Outcome {
    if data.len() >= 1 && data[0] > 1 {
        Outcome {
            output: Seq::<u8>::empty(),
            error: Some(PkLibError::InvalidCompressionMode(data[0])),
        }
    } else if data.len() >= 2 && !(4 <= data[1] <= 6) {
        Outcome {
            output: Seq::<u8>::empty(),
            error: Some(PkLibError::InvalidDictionaryBits(data[1])),
        }
    } else if data.len() < 3 {
        Outcome { output: Seq::<u8>::empty(), error: Some(PkLibError::UnexpectedEof) }
    } else {
        explode_run(
            mode_of_byte(data[0]),
            data[1] as int,
            bits_of_bytes(data.skip(2)),
            Seq::<u8>::empty(),
        )
    }
}

/// The result of decompressing `data`.
///
/// The header is checked byte by byte as far as it is there: a first byte
/// other than 0 and 1 is `InvalidCompressionMode`, then a second byte other
/// than 4, 5 and 6 is `InvalidDictionaryBits`, then a header of less than
/// three bytes is `UnexpectedEof`. The third byte starts the token stream,
/// whose tokens give the output up to the end marker; the first token that
/// is rejected gives the error.
pub open spec fn explode_spec(data: Seq<u8>) -> Result<Seq<u8>, PkLibError> {
    match explode_outcome(data).error {
        None => Ok(explode_outcome(data).output),
        Some(e) => Err(e),
    }
}

/// The output that a reader hands out before decompression of `data`
/// stops.
pub open spec fn explode_partial(data: Seq<u8>) -> Seq<u8> {
    explode_outcome(data).output
}

/// A repetition adds `length` bytes behind the output.
pub proof fn lemma_copy_back_extends(out: Seq<u8>, distance: int, length: int)
    requires
        0 <= length,
    ensures
        copy_back(out, distance, length).len() == out.len() + length,
        copy_back(out, distance, length).take(out.len() as int) == out,
    decreases length,
{
    if length > 0 {
        lemma_copy_back_extends(out, distance, length - 1);
        let before = copy_back(out, distance, length - 1);
        assert(before.push(before[before.len() - distance]).take(out.len() as int) =~= before.take(
            out.len() as int,
        ));
    } else {
        assert(out.take(out.len() as int) =~= out);
    }
}

/// The output of the tokens before a token stays in front of what
/// decompression gives.
pub proof fn lemma_explode_run_extends(
    mode: CompressionMode,
    dsize_bits: int,
    s: Bits,
    out: Seq<u8>,
)
    requires
        s.len >= 8,
        4 <= dsize_bits <= 6,
    ensures
        out.len() <= explode_run(mode, dsize_bits, s, out).output.len(),
        explode_run(mode, dsize_bits, s, out).output.take(out.len() as int) == out,
    decreases s.len,
{
    lemma_explode_step_rest(mode, dsize_bits, s, out);
    match explode_step(mode, dsize_bits, s, out) {
        Step::Next { rest, out: next } => {
            lemma_explode_run_extends(mode, dsize_bits, rest, next);
            lemma_decode_literal_rest(mode, s);
            let lit = decode_literal(mode, s);
            if lit.value >= 0x100 {
                let dist = decode_distance(dsize_bits, lit.value - 0xFE, lit.rest);
                lemma_copy_back_extends(out, dist.value, lit.value - 0xFE);
            } else {
                assert(next.take(out.len() as int) =~= out);
            }
            let total = explode_run(mode, dsize_bits, rest, next).output;
            assert(total.take(out.len() as int) =~= total.take(next.len() as int).take(
                out.len() as int,
            ));
        },
        _ => {
            assert(out.take(out.len() as int) =~= out);
        },
    }
}

/// Ranges of the entries of the ASCII tables.
pub proof fn lemma_ascii_table_ranges()
    ensures
        forall|s: int|
            0 <= s < 256 ==> 4 <= #[trigger] CH_BITS_ASC[s] <= 13 && CH_CODE_ASC[s] < pow2(
                CH_BITS_ASC[s] as nat,
            ) && 1 <= ascii_tail_bits(s) <= 8,
{
    vstd::arithmetic::power2::lemma2_to64();
}

} // verus!
