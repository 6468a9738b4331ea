//! How the tokens of the data relate to the tokens of a part of it: what
//! was compressed stays as it is when data is added, and the tokens up to a
//! place and from it on make up the tokens of the whole.

use crate::bits::{lemma_append_assoc, Bits};
use crate::common::CompressionMode;
use crate::implode::model::{
    best_match_below, next_token, parse, prefix_bits, reaches, settled, stream_bits, token_bits,
    token_len, window_low,
};
use crate::implode::pattern::{agree_at, lemma_common_len_agrees};
use vstd::arithmetic::power2::{lemma2_to64, pow2};
use vstd::prelude::*;

verus! {

/// The empty bit string changes nothing in front of or behind another.
pub proof fn lemma_append_empty(bits: Bits)
    ensures
        (Bits { value: 0, len: 0 }).append(bits) == bits,
        bits.append(Bits { value: 0, len: 0 }) == bits,
{
    lemma2_to64();
    assert(bits.value * pow2(0) == bits.value) by (nonlinear_arith)
        requires
            pow2(0) == 1,
    ;
    assert(0 * pow2(bits.len) == 0) by (nonlinear_arith);
}

/// A walk that is settled arrives.
pub proof fn lemma_settled_reaches(data: Seq<u8>, from: int, to: int, dict: int)
    requires
        settled(data, from, to, dict),
    ensures
        reaches(data, from, to, dict),
        from <= to,
    decreases to - from,
{
    if from < to {
        lemma_settled_reaches(data, from + token_len(next_token(data, from, dict)), to, dict);
    }
}

/// A walk goes on by the token at the place where it arrived, and the bits
/// of that token come behind the bits of the walk.
pub proof fn lemma_walk_extends(
    mode: CompressionMode,
    dsize_bits: int,
    data: Seq<u8>,
    from: int,
    to: int,
    dict: int,
)
    requires
        reaches(data, from, to, dict),
        token_len(next_token(data, to, dict)) >= 1,
    ensures
        ({
            let t = next_token(data, to, dict);
            &&& reaches(data, from, to + token_len(t), dict)
            &&& prefix_bits(mode, dsize_bits, data, from, to + token_len(t), dict) == prefix_bits(
                mode,
                dsize_bits,
                data,
                from,
                to,
                dict,
            ).append(token_bits(mode, dsize_bits, t))
            &&& settled(data, from, to, dict) && to + 516 <= data.len() ==> settled(
                data,
                from,
                to + token_len(t),
                dict,
            )
        }),
    decreases to - from,
{
    let t = next_token(data, to, dict);
    let next = to + token_len(t);
    if from < to {
        let first = next_token(data, from, dict);
        let second = from + token_len(first);
        lemma_walk_extends(mode, dsize_bits, data, second, to, dict);
        lemma_append_assoc(
            token_bits(mode, dsize_bits, first),
            prefix_bits(mode, dsize_bits, data, second, to, dict),
            token_bits(mode, dsize_bits, t),
        );
    } else {
        lemma_append_empty(token_bits(mode, dsize_bits, t));
        assert(reaches(data, next, next, dict));
        assert(settled(data, next, next, dict));
        assert(prefix_bits(mode, dsize_bits, data, next, next, dict) == (Bits {
            value: 0,
            len: 0,
        }));
    }
}

/// A walk arrives at or behind the place where it starts.
pub proof fn lemma_reaches_ordered(data: Seq<u8>, from: int, to: int, dict: int)
    requires
        reaches(data, from, to, dict),
    ensures
        from <= to,
    decreases to - from,
{
    if from < to {
        lemma_reaches_ordered(data, from + token_len(next_token(data, from, dict)), to, dict);
    }
}

/// The bits of the tokens of the data are the bits of the tokens up to a
/// place where a walk arrives, and behind them the bits of the tokens from
/// there on with the end marker.
pub proof fn lemma_stream_splits(
    mode: CompressionMode,
    dsize_bits: int,
    data: Seq<u8>,
    from: int,
    to: int,
    dict: int,
)
    requires
        0 <= from,
        to <= data.len(),
        reaches(data, from, to, dict),
    ensures
        stream_bits(mode, dsize_bits, parse(data, from, dict)) == prefix_bits(
            mode,
            dsize_bits,
            data,
            from,
            to,
            dict,
        ).append(stream_bits(mode, dsize_bits, parse(data, to, dict))),
    decreases to - from,
{
    if from < to {
        let t = next_token(data, from, dict);
        let next = from + token_len(t);
        lemma_reaches_ordered(data, next, to, dict);
        lemma_stream_splits(mode, dsize_bits, data, next, to, dict);
        let rest = parse(data, next, dict);
        assert(parse(data, from, dict) == seq![t] + rest);
        assert((seq![t] + rest)[0] == t);
        assert((seq![t] + rest).drop_first() =~= rest);
        lemma_append_assoc(
            token_bits(mode, dsize_bits, t),
            prefix_bits(mode, dsize_bits, data, next, to, dict),
            stream_bits(mode, dsize_bits, parse(data, to, dict)),
        );
    } else {
        lemma_append_empty(stream_bits(mode, dsize_bits, parse(data, to, dict)));
    }
}

/// Data added at the end changes no search at a place from which a
/// repetition of the greatest length lies inside the data.
pub proof fn lemma_best_match_stable(
    data: Seq<u8>,
    longer: Seq<u8>,
    pos: int,
    lo: int,
    hi: int,
)
    requires
        0 <= lo,
        hi <= pos,
        pos + 516 <= data.len() <= longer.len(),
        longer.take(data.len() as int) == data,
    ensures
        best_match_below(longer, pos, lo, hi) == best_match_below(data, pos, lo, hi),
    decreases hi - lo,
{
    if hi > lo {
        lemma_best_match_stable(data, longer, pos, lo, hi - 1);
        assert forall|i: int| 0 <= i < 516 implies #[trigger] agree_at(
            data,
            hi - 1,
            pos,
            longer,
            hi - 1,
            pos,
            i,
        ) by {
            assert(longer.take(data.len() as int)[hi - 1 + i] == longer[hi - 1 + i]);
            assert(longer.take(data.len() as int)[pos + i] == longer[pos + i]);
        }
        lemma_common_len_agrees(data, hi - 1, pos, longer, hi - 1, pos, 516);
    }
}

/// Data added at the end changes no token at a place from which a
/// repetition of the greatest length lies inside the data.
pub proof fn lemma_next_token_stable(data: Seq<u8>, longer: Seq<u8>, pos: int, dict: int)
    requires
        0 <= pos,
        pos + 516 <= data.len() <= longer.len(),
        longer.take(data.len() as int) == data,
    ensures
        next_token(longer, pos, dict) == next_token(data, pos, dict),
{
    lemma_best_match_stable(data, longer, pos, window_low(pos, dict), pos);
    assert(longer.take(data.len() as int)[pos] == longer[pos]);
}

/// Data added at the end changes nothing of a walk that is settled.
pub proof fn lemma_settled_stable(
    mode: CompressionMode,
    dsize_bits: int,
    data: Seq<u8>,
    longer: Seq<u8>,
    from: int,
    to: int,
    dict: int,
)
    requires
        0 <= from,
        data.len() <= longer.len(),
        longer.take(data.len() as int) == data,
        settled(data, from, to, dict),
    ensures
        settled(longer, from, to, dict),
        prefix_bits(mode, dsize_bits, longer, from, to, dict) == prefix_bits(
            mode,
            dsize_bits,
            data,
            from,
            to,
            dict,
        ),
    decreases to - from,
{
    if from < to {
        lemma_next_token_stable(data, longer, from, dict);
        let t = next_token(data, from, dict);
        lemma_settled_stable(mode, dsize_bits, data, longer, from + token_len(t), to, dict);
    }
}

} // verus!
