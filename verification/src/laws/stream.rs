//! Decompressing the stream of a token sequence gives the bytes that the
//! tokens stand for.

use crate::bits::{
    bits_of_bytes, bytes_of_bits, le_value, lemma_append_assoc, lemma_append_wf,
    lemma_bits_split, Bits,
};
use crate::common::{CompressionMode, PkLibError};
use crate::explode::model::{
    copy_back, decode_literal, explode_outcome, explode_run, explode_spec, explode_step,
    lemma_copy_back_extends, mode_of_byte, Outcome,
};
use crate::implode::model::{
    distance_code, distance_low_bits, literal_code, stream_bits, stream_bytes, token_bits,
    token_len, Token,
};
use crate::implode::output::lemma_literal_code_wf;
use crate::laws::fields::{carries, lemma_distance_fields};
use crate::laws::tokens::{
    lemma_decode_ascii, lemma_decode_binary, lemma_decode_distance, lemma_decode_end,
    lemma_decode_length,
};
use crate::tables::{DIST_BITS, DIST_CODE};
use vstd::arithmetic::power2::{lemma2_to64, lemma_pow2_pos, pow2};
use vstd::prelude::*;

verus! {

/// The output `out` with the bytes of one token behind it.
pub open spec fn expand_token(t: Token, out: Seq<u8>) -> Seq<u8> {
    match t {
        Token::Literal(b) => out.push(b),
        Token::Repeat { length, distance } => copy_back(out, distance, length),
    }
}

/// The output `out` with the bytes of a token sequence behind it.
pub open spec fn expand(tokens: Seq<Token>, out: Seq<u8>) -> Seq<u8>
    decreases tokens.len(),
{
    if tokens.len() == 0 {
        out
    } else {
        expand(tokens.drop_first(), expand_token(tokens[0], out))
    }
}

/// A token can be written and read back behind `out_len` bytes of output:
/// a repetition has 2 to 518 bytes, starts inside the output, at a
/// distance whose high part has a code, and ends inside the window of the
/// decompressor.
pub open spec fn token_fits(t: Token, out_len: int, dsize_bits: int) -> bool {
    match t {
        Token::Literal(_) => true,
        Token::Repeat { length, distance } => {
            &&& 2 <= length <= 518
            &&& 1 <= distance <= out_len
            &&& (distance - 1) / (pow2(distance_low_bits(dsize_bits, length) as nat) as int) < 64
            &&& out_len % 0x1000 + length <= 0x1204
        },
    }
}

/// Every token of the sequence fits behind the output of those before it.
pub open spec fn tokens_fit(tokens: Seq<Token>, out_len: int, dsize_bits: int) -> bool
    decreases tokens.len(),
{
    if tokens.len() == 0 {
        true
    } else {
        token_fits(tokens[0], out_len, dsize_bits) && tokens_fit(
            tokens.drop_first(),
            out_len + token_len(tokens[0]),
            dsize_bits,
        )
    }
}

/// The code of a distance fits its bit length.
pub proof fn lemma_distance_code_wf(dsize_bits: int, length: int, distance: int)
    requires
        4 <= dsize_bits <= 6,
        1 <= distance,
        (distance - 1) / (pow2(distance_low_bits(dsize_bits, length) as nat) as int) < 64,
    ensures
        distance_code(dsize_bits, length, distance).wf(),
{
    lemma2_to64();
    lemma_distance_fields(dsize_bits, length, distance);
    let k = distance_low_bits(dsize_bits, length) as nat;
    lemma_pow2_pos(k);
    let high = (distance - 1) / (pow2(k) as int);
    let low = (distance - 1) % (pow2(k) as int);
    vstd::arithmetic::div_mod::lemma_mod_bound(distance - 1, pow2(k) as int);
    assert(0 <= high < 64);
    assert(DIST_CODE[high] < pow2(DIST_BITS[high] as nat)) by {
        assert(forall|i: int|
            0 <= i < 64 ==> #[trigger] DIST_CODE[i] < pow2(DIST_BITS[i] as nat));
    }
    lemma_append_wf(
        Bits { value: DIST_CODE[high] as nat, len: DIST_BITS[high] as nat },
        Bits { value: low as nat, len: k },
    );
}

/// The bits of a token sequence and its end marker fit their length,
/// which is at least the 16 bits of the end marker.
pub proof fn lemma_stream_bits_wf(mode: CompressionMode, dsize_bits: int, tokens: Seq<Token>, out_len: int)
    requires
        4 <= dsize_bits <= 6,
        tokens_fit(tokens, out_len, dsize_bits),
    ensures
        stream_bits(mode, dsize_bits, tokens).wf(),
        stream_bits(mode, dsize_bits, tokens).len >= 16,
    decreases tokens.len(),
{
    lemma2_to64();
    if tokens.len() == 0 {
        lemma_literal_code_wf(mode, 0x305);
        crate::implode::output::lemma_length_bucket_range(0x205);
    } else {
        let t = tokens[0];
        lemma_stream_bits_wf(mode, dsize_bits, tokens.drop_first(), out_len + token_len(t));
        lemma_token_bits_wf(mode, dsize_bits, t, out_len);
        lemma_append_wf(
            token_bits(mode, dsize_bits, t),
            stream_bits(mode, dsize_bits, tokens.drop_first()),
        );
    }
}

/// The bits of a token fit their length.
pub proof fn lemma_token_bits_wf(mode: CompressionMode, dsize_bits: int, t: Token, out_len: int)
    requires
        4 <= dsize_bits <= 6,
        token_fits(t, out_len, dsize_bits),
    ensures
        token_bits(mode, dsize_bits, t).wf(),
{
    match t {
        Token::Literal(b) => {
            lemma_literal_code_wf(mode, b as int);
        },
        Token::Repeat { length, distance } => {
            lemma_literal_code_wf(mode, length + 0xFE);
            lemma_distance_code_wf(dsize_bits, length, distance);
            lemma_append_wf(
                literal_code(mode, length + 0xFE),
                distance_code(dsize_bits, length, distance),
            );
        },
    }
}

/// A stream that starts with the bits of a token that fits is decoded as
/// that token.
pub proof fn lemma_step_reads_token(
    mode: CompressionMode,
    dsize_bits: int,
    t: Token,
    s: Bits,
    r: Bits,
    out: Seq<u8>,
)
    requires
        4 <= dsize_bits <= 6,
        token_fits(t, out.len() as int, dsize_bits),
        carries(s, token_bits(mode, dsize_bits, t).append(r)),
        r.len >= 8,
    ensures
        explode_step(mode, dsize_bits, s, out) is Next,
        explode_step(mode, dsize_bits, s, out)->out == expand_token(t, out),
        carries(explode_step(mode, dsize_bits, s, out)->rest, r),
        explode_step(mode, dsize_bits, s, out)->rest.len >= 8,
{
    match t {
        Token::Literal(b) => {
            match mode {
                CompressionMode::Binary => {
                    lemma_decode_binary(s, b as int, r);
                },
                CompressionMode::ASCII => {
                    lemma_decode_ascii(s, b as int, r);
                },
            }
        },
        Token::Repeat { length, distance } => {
            let length_bits = literal_code(mode, length + 0xFE);
            let distance_bits = distance_code(dsize_bits, length, distance);
            lemma_append_assoc(length_bits, distance_bits, r);
            lemma_decode_length(mode, s, length - 2, distance_bits.append(r));
            let lit = decode_literal(mode, s);
            lemma_decode_distance(dsize_bits, length, distance, lit.rest, r);
        },
    }
}

/// Decompression of a stream that holds the bits of a token sequence that
/// fits gives the bytes of the tokens.
pub proof fn lemma_run_reads_tokens(
    mode: CompressionMode,
    dsize_bits: int,
    tokens: Seq<Token>,
    s: Bits,
    out: Seq<u8>,
)
    requires
        4 <= dsize_bits <= 6,
        tokens_fit(tokens, out.len() as int, dsize_bits),
        carries(s, stream_bits(mode, dsize_bits, tokens)),
    ensures
        explode_run(mode, dsize_bits, s, out) == (Outcome {
            output: expand(tokens, out),
            error: None,
        }),
    decreases tokens.len(),
{
    lemma_stream_bits_wf(mode, dsize_bits, tokens, out.len() as int);
    if tokens.len() == 0 {
        lemma_decode_end(mode, s);
    } else {
        let t = tokens[0];
        let rest = tokens.drop_first();
        let r = stream_bits(mode, dsize_bits, rest);
        lemma_stream_bits_wf(mode, dsize_bits, rest, out.len() + token_len(t));
        lemma_step_reads_token(mode, dsize_bits, t, s, r, out);
        let step = explode_step(mode, dsize_bits, s, out);
        if t is Repeat {
            lemma_copy_back_extends(out, t->distance, t->length);
        }
        lemma_run_reads_tokens(mode, dsize_bits, rest, step->rest, step->out);
    }
}

/// The bytes that hold a bit string give the bit string back, with zero
/// bits behind it up to the end of the last byte.
pub proof fn lemma_bytes_carry_bits(bits: Bits)
    requires
        bits.wf(),
    ensures
        carries(bits_of_bytes(bytes_of_bits(bits)), bits),
        bytes_of_bits(bits).len() == (bits.len + 7) / 8,
{
    let n = (bits.len + 7) / 8;
    lemma_bytes_value(bits.value, n);
    if bits.len < 8 * n {
        vstd::arithmetic::power2::lemma_pow2_strictly_increases(bits.len, 8 * n);
    }
    vstd::arithmetic::div_mod::lemma_small_mod(bits.value, pow2(8 * n));
    assert(bytes_of_bits(bits) =~= Seq::new(n, |i: int| byte_of(bits.value, i)));
}

/// Byte `i` of the number `v`.
pub open spec fn byte_of(v: nat, i: int) -> u8 {
    ((v / pow2((8 * i) as nat)) % 256) as u8
}

/// The first `n` bytes of a number hold its low `8 * n` bits.
pub proof fn lemma_bytes_value(v: nat, n: nat)
    ensures
        le_value(Seq::new(n, |i: int| byte_of(v, i))) == v % pow2(8 * n),
    decreases n,
{
    lemma2_to64();
    let bytes = Seq::new(n, |i: int| byte_of(v, i));
    if n == 0 {
        assert(v % 1 == 0);
    } else {
        let m = (n - 1) as nat;
        lemma_bytes_value(v, m);
        assert(bytes.drop_last() =~= Seq::new(m, |i: int| byte_of(v, i)));
        assert(bytes.last() == byte_of(v, m as int));
        lemma_bits_split(v, 8 * m, 8);
        assert(8 * m + 8 == 8 * n);
        vstd::arithmetic::div_mod::lemma_mod_bound((v / pow2(8 * m)) as int, 256);
        assert(bytes.last() as nat == (v / pow2(8 * m)) % 256);
        assert(pow2(8 * m) * ((v / pow2(8 * m)) % 256) == ((v / pow2(8 * m)) % 256) * pow2(8 * m))
            by (nonlinear_arith);
    }
}

/// Decompressing the stream of a token sequence that fits gives the bytes
/// that the tokens stand for.
pub proof fn lemma_stream_explodes(mode: CompressionMode, dsize_bits: int, tokens: Seq<Token>)
    requires
        4 <= dsize_bits <= 6,
        tokens_fit(tokens, 0, dsize_bits),
    ensures
        explode_spec(stream_bytes(mode, dsize_bits, tokens)) == Ok::<Seq<u8>, PkLibError>(
            expand(tokens, Seq::<u8>::empty()),
        ),
{
    let bits = stream_bits(mode, dsize_bits, tokens);
    let nothing = Seq::<u8>::empty();
    lemma_stream_bits_wf(mode, dsize_bits, tokens, 0);
    lemma_bytes_carry_bits(bits);
    let body = bytes_of_bits(bits);
    let data = stream_bytes(mode, dsize_bits, tokens);
    assert(data.skip(2) =~= body);
    assert(data[0] == mode.spec_to_u8());
    assert(data[1] == dsize_bits as u8);
    assert(mode_of_byte(data[0]) == mode);
    lemma_run_reads_tokens(mode, dsize_bits, tokens, bits_of_bytes(body), nothing);
    assert(explode_outcome(data) == explode_run(mode, dsize_bits, bits_of_bytes(body), nothing));
}

} // verus!
