//! What was decompressed from a part of the input stays when more input
//! comes.

use crate::bits::{bits_of_bytes, Bits};
use crate::common::{CompressionMode, PkLibError};
use crate::explode::extend::{
    lemma_more_bytes_extend, lemma_reached_extends, lemma_reached_run, lemma_step_extends,
    reached,
};
use crate::explode::model::{
    explode_outcome, explode_run, explode_step, lemma_explode_run_extends,
    lemma_explode_step_rest, mode_of_byte, Step,
};
use crate::explode::reader::may_change;
use vstd::prelude::*;

verus! {

/// Number of tokens that decompression accepts before it stops.
pub open spec fn tokens_taken(mode: CompressionMode, dsize_bits: int, s: Bits, out: Seq<u8>) -> nat
    decreases s.len,
    when s.len >= 8 && 4 <= dsize_bits <= 6
    via tokens_taken_decreases
{
    match explode_step(mode, dsize_bits, s, out) {
        Step::Next { rest, out } => 1 + tokens_taken(mode, dsize_bits, rest, out),
        _ => 0,
    }
}

#[via_fn]
proof fn tokens_taken_decreases(mode: CompressionMode, dsize_bits: int, s: Bits, out: Seq<u8>) {
    lemma_explode_step_rest(mode, dsize_bits, s, out);
}

/// The place reached after one more token is the place reached from
/// behind the first token.
pub proof fn lemma_reached_from_second(
    mode: CompressionMode,
    dsize_bits: int,
    s: Bits,
    out: Seq<u8>,
    n: nat,
)
    requires
        explode_step(mode, dsize_bits, s, out) is Next,
    ensures
        reached(mode, dsize_bits, s, out, n + 1) == reached(
            mode,
            dsize_bits,
            explode_step(mode, dsize_bits, s, out)->rest,
            explode_step(mode, dsize_bits, s, out)->out,
            n,
        ),
    decreases n,
{
    if n > 0 {
        lemma_reached_from_second(mode, dsize_bits, s, out, (n - 1) as nat);
    } else {
        assert(reached(mode, dsize_bits, s, out, 0) == Some((s, out)));
    }
}

/// Decompression stops at the place that it reaches with the tokens it
/// accepts, with the output of those tokens, at the end marker or at the
/// token that it rejects.
pub proof fn lemma_run_stops(mode: CompressionMode, dsize_bits: int, s: Bits, out: Seq<u8>)
    requires
        s.len >= 8,
        4 <= dsize_bits <= 6,
    ensures
        ({
            let n = tokens_taken(mode, dsize_bits, s, out);
            let run = explode_run(mode, dsize_bits, s, out);
            &&& reached(mode, dsize_bits, s, out, n) is Some
            &&& reached(mode, dsize_bits, s, out, n)->Some_0.1 == run.output
            &&& explode_step(
                mode,
                dsize_bits,
                reached(mode, dsize_bits, s, out, n)->Some_0.0,
                run.output,
            ) == match run.error {
                None => Step::End,
                Some(e) => Step::Fail(e),
            }
        }),
    decreases s.len,
{
    lemma_explode_step_rest(mode, dsize_bits, s, out);
    match explode_step(mode, dsize_bits, s, out) {
        Step::Next { rest, out: next } => {
            lemma_run_stops(mode, dsize_bits, rest, next);
            lemma_reached_from_second(
                mode,
                dsize_bits,
                s,
                out,
                tokens_taken(mode, dsize_bits, rest, next),
            );
        },
        _ => {},
    }
}

/// What decompression of a token stream gives stays in front of what
/// decompression of a longer stream gives, if it stopped for a token that
/// the end of the input cut short; else the longer stream gives the same.
pub proof fn lemma_run_of_longer(
    mode: CompressionMode,
    dsize_bits: int,
    longer: Bits,
    s: Bits,
)
    requires
        crate::explode::extend::extends(longer, s),
        s.len >= 8,
        4 <= dsize_bits <= 6,
    ensures
        ({
            let first = explode_run(mode, dsize_bits, s, Seq::<u8>::empty());
            let second = explode_run(mode, dsize_bits, longer, Seq::<u8>::empty());
            if first.error == Some(PkLibError::InvalidFormat) {
                first.output.len() <= second.output.len() && second.output.take(
                    first.output.len() as int,
                ) == first.output
            } else {
                second == first
            }
        }),
{
    let nothing = Seq::<u8>::empty();
    let n = tokens_taken(mode, dsize_bits, s, nothing);
    lemma_run_stops(mode, dsize_bits, s, nothing);
    lemma_reached_extends(mode, dsize_bits, longer, s, nothing, n);
    lemma_reached_run(mode, dsize_bits, longer, nothing, n);
    let place = reached(mode, dsize_bits, s, nothing, n)->Some_0;
    let further = reached(mode, dsize_bits, longer, nothing, n)->Some_0;
    let first = explode_run(mode, dsize_bits, s, nothing);
    if first.error == Some(PkLibError::InvalidFormat) {
        lemma_explode_run_extends(mode, dsize_bits, further.0, further.1);
    } else {
        lemma_step_extends(mode, dsize_bits, further.0, place.0, place.1);
    }
}

/// More input keeps the output: where decompression of some input stops
/// because the input ends too early, decompression of that input with
/// more behind it gives an output that starts with the output so far; and
/// where it stops at the end marker or at any other error, more input
/// behind it changes nothing.
pub proof fn law_more_input_keeps_output(data: Seq<u8>, more: Seq<u8>)
    ensures
        ({
            let first = explode_outcome(data);
            let second = explode_outcome(data + more);
            if first.error is Some && may_change(first.error->Some_0) {
                first.output.len() <= second.output.len() && second.output.take(
                    first.output.len() as int,
                ) == first.output
            } else {
                second == first
            }
        }),
{
    let all = data + more;
    let first = explode_outcome(data);
    if data.len() >= 1 {
        assert(all[0] == data[0]);
    }
    if data.len() >= 2 {
        assert(all[1] == data[1]);
    }
    if data.len() >= 3 && data[0] <= 1 && 4 <= data[1] <= 6 {
        assert(all.skip(2) =~= data.skip(2) + more);
        lemma_more_bytes_extend(data.skip(2), more);
        lemma_run_of_longer(
            mode_of_byte(data[0]),
            data[1] as int,
            bits_of_bytes(all.skip(2)),
            bits_of_bytes(data.skip(2)),
        );
    } else {
        assert(first.output =~= explode_outcome(all).output.take(0));
    }
}

} // verus!
