//! What compression produces.
//!
//! The functions here define, on byte sequences, the repetition that the
//! compressor finds at each position, the tokens it emits, their codes, and
//! the compressed stream.

use crate::bits::{bytes_of_bits, Bits};
use crate::common::{CompressionMode, DictionarySize};
use crate::tables::{
    CH_BITS_ASC, CH_CODE_ASC, DIST_BITS, DIST_CODE, EX_LEN_BITS, LEN_BASE, LEN_BITS, LEN_CODE,
};
use vstd::arithmetic::power2::pow2;
use vstd::prelude::*;

verus! {

/// Longest repetition that the compressor emits.
pub const MAX_REP_LENGTH: usize = 0x204;

/// Number of values that have a code: 0x100 bytes, 0x205 lengths and the
/// end marker.
pub const LITERALS_COUNT: usize = 0x306;

/// One unit of the compressed stream.
pub enum Token {
    /// A byte that stands for itself.
    Literal(u8),
    /// A copy of `length` bytes that start `distance` bytes back.
    Repeat {
        /// Number of bytes to copy.
        length: int,
        /// How far back the copy starts; 1 is the previous byte.
        distance: int,
    },
}

/// Number of bytes of input that a token stands for.
pub open spec fn token_len(t: Token) -> int {
    match t {
        Token::Literal(_) => 1,
        Token::Repeat { length, distance } => length,
    }
}

/// The number of leading bytes, at most `cap`, on which the data from `q`
/// agrees with the data from `pos`.
pub open spec fn common_len(data: Seq<u8>, q: int, pos: int, cap: int) -> int
    decreases cap,
{
    if cap <= 0 || data[q] != data[pos] {
        0
    } else {
        1 + common_len(data, q + 1, pos + 1, cap - 1)
    }
}

/// The longest repetition that may start at `pos`: it stays inside the data
/// and has at most 516 bytes.
pub open spec fn match_cap(data: Seq<u8>, pos: int) -> int {
    if data.len() - pos < 516 {
        data.len() - pos
    } else {
        516
    }
}

/// A repetition found for a position: its length and where it starts.
/// Length 0 stands for none.
pub struct Found {
    /// Number of bytes that agree; at least 2, or 0 for none.
    pub length: int,
    /// Position of the earlier occurrence.
    pub start: int,
}

/// The best repetition for `pos` that starts in `lo..hi`: the longest of
/// at least two bytes, and of those of equal length the one that starts
/// last, which is the nearest.
pub open spec fn best_match_below(data: Seq<u8>, pos: int, lo: int, hi: int) -> Found
    decreases hi - lo,
{
    if hi <= lo {
        Found { length: 0, start: pos }
    } else {
        let before = best_match_below(data, pos, lo, hi - 1);
        let here = common_len(data, hi - 1, pos, match_cap(data, pos));
        if here >= 2 && here >= before.length {
            Found { length: here, start: hi - 1 }
        } else {
            before
        }
    }
}

/// First position that a repetition for `pos` may start at with a
/// dictionary of `dict` bytes.
pub open spec fn window_low(pos: int, dict: int) -> int {
    if pos < dict {
        0
    } else {
        pos - dict
    }
}

/// The token that the compressor emits at `pos`: the best repetition that
/// starts at most `dict` bytes back, if it has three bytes or more, or two
/// bytes and a distance below 0x100; else the byte itself.
pub open spec fn next_token(data: Seq<u8>, pos: int, dict: int) -> Token {
    let best = best_match_below(data, pos, window_low(pos, dict), pos);
    let distance = pos - best.start;
    if best.length >= 3 || (best.length == 2 && distance < 0x100) {
        Token::Repeat { length: best.length, distance }
    } else {
        Token::Literal(data[pos])
    }
}

/// The tokens of the data from `pos` on: at each position the token that
/// the compressor emits there, then on behind the bytes it stands for.
pub open spec fn parse(data: Seq<u8>, pos: int, dict: int) -> Seq<Token>
    decreases data.len() - pos,
{
    if pos < 0 || pos >= data.len() {
        Seq::empty()
    } else {
        let t = next_token(data, pos, dict);
        if 1 <= token_len(t) <= data.len() - pos {
            seq![t] + parse(data, pos + token_len(t), dict)
        } else {
            seq![t]
        }
    }
}

/// Walking token by token from `from`, the walk arrives at `to`, and at
/// each token on the way a repetition of the greatest length still lies
/// inside the data, so that data added at the end changes none of them.
pub open spec fn settled(data: Seq<u8>, from: int, to: int, dict: int) -> bool
    decreases to - from,
{
    if from >= to {
        from == to
    } else {
        let n = token_len(next_token(data, from, dict));
        if from + 516 <= data.len() && 1 <= n <= to - from {
            settled(data, from + n, to, dict)
        } else {
            false
        }
    }
}

/// Walking token by token from `from`, the walk arrives at `to`.
pub open spec fn reaches(data: Seq<u8>, from: int, to: int, dict: int) -> bool
    decreases to - from,
{
    if from >= to {
        from == to
    } else {
        let n = token_len(next_token(data, from, dict));
        if 1 <= n <= to - from {
            reaches(data, from + n, to, dict)
        } else {
            false
        }
    }
}

/// The first place at or behind `limit`, or the end of the data, at
/// which a token ends when walking token by token from `from`.
pub open spec fn walk_to(data: Seq<u8>, from: int, limit: int, dict: int) -> int
    decreases data.len() - from,
{
    if from >= limit || from < 0 || from >= data.len() {
        from
    } else {
        let n = token_len(next_token(data, from, dict));
        if 1 <= n <= data.len() - from {
            walk_to(data, from + n, limit, dict)
        } else {
            from
        }
    }
}

/// How far the data is compressed once every block of 0x1000 places was
/// taken behind which 0x204 more bytes are there: from `from` on, block by
/// block, each from the place where the last token of the block before it
/// ended.
pub open spec fn compressed_to(data: Seq<u8>, from: int, dict: int) -> int
    decreases data.len() - from,
{
    if from < 0 || data.len() - from < 0x1204 {
        from
    } else {
        let next = walk_to(data, from, from + 0x1000, dict);
        if from < next <= data.len() {
            compressed_to(data, next, dict)
        } else {
            from
        }
    }
}

/// The bucket of the length value `w`: the last of the first `n` buckets
/// whose smallest value is at most `w`.
pub open spec fn length_bucket_below(w: int, n: int) -> int
    decreases n,
{
    if n <= 1 {
        0
    } else if LEN_BASE[n - 1] <= w {
        n - 1
    } else {
        length_bucket_below(w, n - 1)
    }
}

/// The bucket of the length value `w`.
pub open spec fn length_bucket(w: int) -> int {
    length_bucket_below(w, 16)
}

/// The code of the value `v`: a byte below 0x100, a length value from
/// 0x100 on, the end marker at 0x305.
///
/// A byte has a 0 bit and then its eight bits in binary mode, its ASCII
/// code in ASCII mode. A length value has a 1 bit, the code of its bucket
/// and the extra bits that tell it from the smallest value of the bucket.
pub open spec fn literal_code(mode: CompressionMode, v: int) -> Bits {
    if v < 0x100 {
        match mode {
            CompressionMode::Binary => Bits { value: (2 * v) as nat, len: 9 },
            CompressionMode::ASCII => Bits {
                value: (2 * CH_CODE_ASC[v]) as nat,
                len: (CH_BITS_ASC[v] + 1) as nat,
            },
        }
    } else {
        let w = v - 0x100;
        let i = length_bucket(w);
        Bits {
            value: (1 + 2 * LEN_CODE[i] + pow2((LEN_BITS[i] + 1) as nat) * (w - LEN_BASE[i])) as nat,
            len: (1 + LEN_BITS[i] + EX_LEN_BITS[i]) as nat,
        }
    }
}

/// Number of raw low bits of the distance of a repetition of `length`
/// bytes.
pub open spec fn distance_low_bits(dsize_bits: int, length: int) -> int {
    if length == 2 {
        2
    } else {
        dsize_bits
    }
}

/// The code of the distance of a repetition of `length` bytes: the code of
/// its high part, then its low bits.
pub open spec fn distance_code(dsize_bits: int, length: int, distance: int) -> Bits {
    let k = distance_low_bits(dsize_bits, length) as nat;
    let high = (distance - 1) / (pow2(k) as int);
    let low = (distance - 1) % (pow2(k) as int);
    Bits {
        value: (DIST_CODE[high] + pow2(DIST_BITS[high] as nat) * low) as nat,
        len: (DIST_BITS[high] + k) as nat,
    }
}

/// The bits of a token.
pub open spec fn token_bits(mode: CompressionMode, dsize_bits: int, t: Token) -> Bits {
    match t {
        Token::Literal(b) => literal_code(mode, b as int),
        Token::Repeat { length, distance } => literal_code(mode, length + 0xFE).append(
            distance_code(dsize_bits, length, distance),
        ),
    }
}

/// The bits of a token sequence, closed by the end marker.
pub open spec fn stream_bits(mode: CompressionMode, dsize_bits: int, tokens: Seq<Token>) -> Bits
    decreases tokens.len(),
{
    if tokens.len() == 0 {
        literal_code(mode, 0x305)
    } else {
        token_bits(mode, dsize_bits, tokens[0]).append(
            stream_bits(mode, dsize_bits, tokens.drop_first()),
        )
    }
}

/// The bits of the tokens of the data from `from` up to `to`, without an
/// end marker.
pub open spec fn prefix_bits(
    mode: CompressionMode,
    dsize_bits: int,
    data: Seq<u8>,
    from: int,
    to: int,
    dict: int,
) -> Bits
    decreases to - from,
{
    if from >= to {
        Bits { value: 0, len: 0 }
    } else {
        let t = next_token(data, from, dict);
        if 1 <= token_len(t) <= to - from {
            token_bits(mode, dsize_bits, t).append(
                prefix_bits(mode, dsize_bits, data, from + token_len(t), to, dict),
            )
        } else {
            Bits { value: 0, len: 0 }
        }
    }
}

/// The compressed stream of a token sequence: mode byte, dictionary byte,
/// and the bits of the tokens and the end marker, the last byte padded with
/// zero bits.
pub open spec fn stream_bytes(mode: CompressionMode, dsize_bits: int, tokens: Seq<Token>) -> Seq<
    u8,
> {
    seq![mode.spec_to_u8(), dsize_bits as u8] + bytes_of_bits(
        stream_bits(mode, dsize_bits, tokens),
    )
}

/// The compressed stream of `data`.
pub open spec fn implode_spec(data: Seq<u8>, mode: CompressionMode, dict: DictionarySize) -> Seq<
    u8,
> {
    stream_bytes(mode, dict.spec_bits() as int, parse(data, 0, dict.spec_bytes() as int))
}

} // verus!
