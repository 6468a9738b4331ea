//! The laws of the library: what is compressed can be restored, and what
//! cannot be a stream is rejected for its first fault.

use crate::common::{CompressionMode, DictionarySize, PkLibError};
use crate::explode::model::{copy_back, explode_spec};
use crate::implode::model::{
    best_match_below, common_len, implode_spec, match_cap, next_token, parse, stream_bytes,
    token_len, window_low, Token,
};
use crate::implode::pattern::{lemma_best_match_bounds, lemma_best_match_is_candidate};
use crate::laws::stream::{expand, expand_token, lemma_stream_explodes, token_fits, tokens_fit};
use vstd::arithmetic::power2::{lemma2_to64, lemma_pow2_pos, pow2};
use vstd::prelude::*;

verus! {

/// The bytes that two places have in common agree.
pub proof fn lemma_common_bytes(data: Seq<u8>, q: int, pos: int, cap: int, i: int)
    requires
        0 <= i < common_len(data, q, pos, cap),
    ensures
        data[q + i] == data[pos + i],
    decreases cap,
{
    if cap > 0 && data[q] == data[pos] && i > 0 {
        lemma_common_bytes(data, q + 1, pos + 1, cap - 1, i - 1);
    }
}

/// Copying bytes that repeat what stands `distance` places before them
/// gives the data itself.
pub proof fn lemma_copy_back_rebuilds(data: Seq<u8>, pos: int, distance: int, length: int)
    requires
        1 <= distance <= pos,
        0 <= length,
        pos + length <= data.len(),
        forall|i: int| 0 <= i < length ==> #[trigger] data[pos + i] == data[pos - distance + i],
    ensures
        copy_back(data.take(pos), distance, length) == data.take(pos + length),
    decreases length,
{
    if length > 0 {
        lemma_copy_back_rebuilds(data, pos, distance, length - 1);
        let before = data.take(pos + length - 1);
        assert(data[pos + (length - 1)] == data[pos - distance + (length - 1)]);
        assert(before.push(before[before.len() - distance]) =~= data.take(pos + length));
    } else {
        assert(data.take(pos) =~= data.take(pos + 0));
    }
}

/// The token that the compressor emits at a position fits behind the data
/// before it, and stands for the data that follows.
pub proof fn lemma_next_token_rebuilds(data: Seq<u8>, pos: int, dict: int, dsize_bits: int)
    requires
        0 <= pos < data.len(),
        4 <= dsize_bits <= 6,
        dict == 64 * pow2(dsize_bits as nat),
    ensures
        ({
            let t = next_token(data, pos, dict);
            &&& token_fits(t, pos, dsize_bits)
            &&& 1 <= token_len(t) <= data.len() - pos
            &&& expand_token(t, data.take(pos)) == data.take(pos + token_len(t))
        }),
{
    lemma2_to64();
    let low = window_low(pos, dict);
    let best = best_match_below(data, pos, low, pos);
    lemma_best_match_is_candidate(data, pos, low, pos);
    lemma_best_match_bounds(data, pos, low, pos);
    let t = next_token(data, pos, dict);
    let distance = pos - best.start;
    if best.length >= 3 || (best.length == 2 && distance < 0x100) {
        let length = best.length;
        assert(t == Token::Repeat { length, distance });
        let cap = match_cap(data, pos);
        assert forall|i: int| 0 <= i < length implies #[trigger] data[pos + i] == data[pos
            - distance + i] by {
            lemma_common_bytes(data, best.start, pos, cap, i);
        }
        lemma_copy_back_rebuilds(data, pos, distance, length);
        let k = if length == 2 {
            2nat
        } else {
            dsize_bits as nat
        };
        lemma_pow2_pos(k);
        if length != 2 {
            assert(distance - 1 < pow2(k) * 64);
            vstd::arithmetic::div_mod::lemma_multiply_divide_lt(distance - 1, pow2(k) as int, 64);
        } else {
            assert((distance - 1) / 4 < 64);
        }
        assert(pos % 0x1000 + length <= 0x1204);
        assert(token_fits(t, pos, dsize_bits));
        assert(expand_token(t, data.take(pos)) == copy_back(data.take(pos), distance, length));
    } else {
        assert(t == Token::Literal(data[pos]));
        assert(data.take(pos).push(data[pos]) =~= data.take(pos + 1));
    }
}

/// The tokens of the data from a position on fit behind the data before
/// it, and stand for the data that follows.
pub proof fn lemma_parse_rebuilds(data: Seq<u8>, pos: int, dict: int, dsize_bits: int)
    requires
        0 <= pos <= data.len(),
        4 <= dsize_bits <= 6,
        dict == 64 * pow2(dsize_bits as nat),
    ensures
        tokens_fit(parse(data, pos, dict), pos, dsize_bits),
        expand(parse(data, pos, dict), data.take(pos)) == data,
    decreases data.len() - pos,
{
    if pos < data.len() {
        let t = next_token(data, pos, dict);
        lemma_next_token_rebuilds(data, pos, dict, dsize_bits);
        let rest = parse(data, pos + token_len(t), dict);
        lemma_parse_rebuilds(data, pos + token_len(t), dict, dsize_bits);
        let tokens = parse(data, pos, dict);
        assert(tokens == seq![t] + rest);
        assert(tokens[0] == t);
        assert(tokens.drop_first() =~= rest);
    } else {
        assert(data.take(pos) =~= data);
    }
}

/// Round trip: decompressing what compression makes of any data, in
/// either mode and with any dictionary size, gives the data back.
pub proof fn law_round_trip(data: Seq<u8>, mode: CompressionMode, dict_size: DictionarySize)
    ensures
        explode_spec(implode_spec(data, mode, dict_size)) == Ok::<Seq<u8>, PkLibError>(data),
{
    lemma2_to64();
    let dict = dict_size.spec_bytes() as int;
    let dsize_bits = dict_size.spec_bits() as int;
    lemma_parse_rebuilds(data, 0, dict, dsize_bits);
    lemma_stream_explodes(mode, dsize_bits, parse(data, 0, dict));
    assert(data.take(0) =~= Seq::<u8>::empty());
}

/// Determinism: any two results of compressing the same data with the same
/// mode and dictionary size are the same bytes.
pub proof fn law_compression_deterministic(
    data: Seq<u8>,
    mode: CompressionMode,
    dict_size: DictionarySize,
    first: Seq<u8>,
    second: Seq<u8>,
)
    requires
        first == implode_spec(data, mode, dict_size),
        second == implode_spec(data, mode, dict_size),
    ensures
        first == second,
{
}

/// `count` copies of one byte.
pub open spec fn run_of(byte: u8, count: int) -> Seq<u8> {
    Seq::new(count as nat, |i: int| byte)
}

/// A repetition at distance one repeats the last byte.
pub proof fn lemma_copy_back_run(byte: u8, length: int)
    requires
        0 <= length,
    ensures
        copy_back(seq![byte], 1, length) == run_of(byte, length + 1),
    decreases length,
{
    if length > 0 {
        lemma_copy_back_run(byte, length - 1);
        let before = run_of(byte, length);
        assert(before.push(before[before.len() - 1]) =~= run_of(byte, length + 1));
    } else {
        assert(seq![byte] =~= run_of(byte, 1));
    }
}

/// Self-overlapping run: a stream of a literal and a repetition of `count`
/// bytes at distance one decompresses to `count + 1` copies of the
/// literal.
pub proof fn law_self_overlapping_run(
    mode: CompressionMode,
    dict_size: DictionarySize,
    byte: u8,
    count: int,
)
    requires
        2 <= count <= 518,
    ensures
        explode_spec(
            stream_bytes(
                mode,
                dict_size.spec_bits() as int,
                seq![Token::Literal(byte), Token::Repeat { length: count, distance: 1 }],
            ),
        ) == Ok::<Seq<u8>, PkLibError>(run_of(byte, count + 1)),
{
    lemma2_to64();
    let dsize_bits = dict_size.spec_bits() as int;
    let tokens = seq![Token::Literal(byte), Token::Repeat { length: count, distance: 1 }];
    let nothing = Seq::<u8>::empty();
    let tail = tokens.drop_first();
    assert(tail =~= seq![Token::Repeat { length: count, distance: 1 }]);
    assert(tail.drop_first() =~= Seq::<Token>::empty());
    assert(tokens_fit(tail.drop_first(), 1 + count, dsize_bits));
    assert(0int / (pow2(if count == 2 {
        2nat
    } else {
        dsize_bits as nat
    }) as int) == 0) by {
        lemma_pow2_pos(2);
        lemma_pow2_pos(dsize_bits as nat);
    }
    assert(token_fits(tail[0], 1, dsize_bits));
    assert(tokens_fit(tail, 1, dsize_bits));
    assert(tokens_fit(tokens, 0, dsize_bits));
    lemma_stream_explodes(mode, dsize_bits, tokens);
    assert(nothing.push(byte) =~= seq![byte]);
    lemma_copy_back_run(byte, count);
    assert(expand(tail.drop_first(), run_of(byte, count + 1)) == run_of(byte, count + 1));
    assert(expand(tail, seq![byte]) == run_of(byte, count + 1));
    assert(expand(tokens, nothing) == run_of(byte, count + 1));
}

/// Header rejection: a first byte other than 0 and 1 is rejected as an
/// invalid mode, whatever follows.
pub proof fn law_invalid_mode_rejected(data: Seq<u8>)
    requires
        data.len() >= 1,
        data[0] > 1,
    ensures
        explode_spec(data) == Err::<Seq<u8>, PkLibError>(
            PkLibError::InvalidCompressionMode(data[0]),
        ),
{
}

/// Header rejection: behind a valid first byte, a second byte other than
/// 4, 5 and 6 is rejected as an invalid dictionary size, whatever follows.
pub proof fn law_invalid_dictionary_rejected(data: Seq<u8>)
    requires
        data.len() >= 2,
        data[0] <= 1,
        data[1] < 4 || data[1] > 6,
    ensures
        explode_spec(data) == Err::<Seq<u8>, PkLibError>(
            PkLibError::InvalidDictionaryBits(data[1]),
        ),
{
}

} // verus!
