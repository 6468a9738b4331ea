//! The output window: applying tokens and handing out finished blocks.

use crate::common::PkLibError;
use crate::explode::model::{
    copy_back, decode_distance, decode_literal, explode_step, lemma_copy_back_extends,
    lemma_decode_distance_rest, lemma_decode_literal_rest, Step, LITERAL_END_OF_STREAM,
    LITERAL_ERROR,
};
use crate::explode::state::ExplodeState;
use vstd::prelude::*;

verus! {

impl ExplodeState {
    /// The window holds the end of `history` below `output_pos`, back to
    /// `window_start`.
    pub open spec fn window_holds(&self, history: Seq<u8>) -> bool {
        &&& self.window_start == 0x1000 || self.window_start == 0
        &&& self.window_start <= 0x1000 <= self.output_pos <= 0x2204
        &&& self.window_start == 0x1000 ==> history.len() == self.output_pos - 0x1000
        &&& self.window_start == 0 ==> history.len() >= self.output_pos
        &&& forall|j: int|
            self.window_start <= j < self.output_pos ==> #[trigger] self.out_buff[j]
                == history[history.len() - (self.output_pos - j)]
    }

    /// The window holds the end of `history`, and every finished block of
    /// 0x1000 bytes was handed out.
    pub open spec fn window_wf(&self, history: Seq<u8>) -> bool {
        &&& self.window_holds(history)
        &&& self.output_pos - 0x1000 == history.len() % 0x1000
    }

    /// Reads one token and applies it to the window: a literal adds its
    /// byte, a repetition copies its bytes one by one from `distance`
    /// places back. Returns `true` at the end marker.
    pub fn expand_token(&mut self, input: &[u8], Ghost(history): Ghost<Seq<u8>>) -> (result: Result<
        bool,
        PkLibError,
    >)
        requires
            old(self).reader_wf(input@),
            old(self).tables_wf(),
            old(self).window_wf(history),
        ensures
            match explode_step(
                old(self).ctype,
                old(self).dsize_bits as int,
                old(self).rest(input@),
                history,
            ) {
                Step::End => result == Ok::<bool, PkLibError>(true) && final(self).out_buff == old(self).out_buff && final(self).output_pos == old(self).output_pos,
                Step::Fail(e) => result == Err::<bool, PkLibError>(e) && final(self).out_buff
                    == old(self).out_buff && final(self).output_pos == old(self).output_pos,
                Step::Next { rest, out } => {
                    &&& result == Ok::<bool, PkLibError>(false)
                    &&& final(self).reader_wf(input@)
                    &&& final(self).rest(input@) == rest
                    &&& final(self).window_holds(out)
                    &&& history.len() < out.len() <= history.len() + 518
                    &&& final(self).output_pos == old(self).output_pos + out.len() - history.len()
                    &&& out.take(history.len() as int) == history
                },
            },
            *final(self) == (ExplodeState {
                bit_buff: final(self).bit_buff,
                extra_bits: final(self).extra_bits,
                in_pos: final(self).in_pos,
                out_buff: final(self).out_buff,
                output_pos: final(self).output_pos,
                ..*old(self)
            }),
    {
        let ghost s = self.rest(input@);
        proof {
            lemma_decode_literal_rest(self.ctype, s);
        }
        let next_literal = self.decode_lit(input);
        if next_literal == LITERAL_END_OF_STREAM {
            return Ok(true);
        }
        if next_literal == LITERAL_ERROR {
            return Err(PkLibError::InvalidFormat);
        }
        if next_literal < 0x100 {
            self.out_buff[self.output_pos] = next_literal as u8;
            self.output_pos = self.output_pos + 1;
            proof {
                let out = history.push(next_literal as u8);
                assert(out.take(history.len() as int) =~= history);
            }
            return Ok(false);
        }
        let rep_length = next_literal - 0xFE;
        let ghost lit = decode_literal(old(self).ctype, s);
        proof {
            lemma_decode_distance_rest(self.dsize_bits as int, rep_length as int, lit.rest);
        }
        let minus_dist = self.decode_dist(input, rep_length);
        if minus_dist == 0 {
            return Err(PkLibError::InvalidFormat);
        }
        let target_pos = self.output_pos;
        if minus_dist as usize > target_pos - self.window_start {
            return Err(PkLibError::InvalidDistance(minus_dist));
        }
        if target_pos + rep_length as usize > 0x2204 {
            return Err(PkLibError::BufferTooSmall);
        }
        let source_pos = target_pos - minus_dist as usize;
        let mut i: usize = 0;
        while i < rep_length as usize
            invariant
                i <= rep_length,
                rep_length <= 518,
                1 <= minus_dist <= history.len(),
                minus_dist <= target_pos - self.window_start,
                source_pos == target_pos - minus_dist,
                target_pos + rep_length <= 0x2204,
                self.output_pos == target_pos,
                old(self).window_holds(history),
                old(self).output_pos == target_pos,
                self.window_start == old(self).window_start,
                forall|j: int|
                    self.window_start <= j < target_pos + i ==> #[trigger] self.out_buff[j]
                        == copy_back(history, minus_dist as int, i as int)[history.len() + i - (
                    target_pos + i - j)],
                *self == (ExplodeState {
                    bit_buff: self.bit_buff,
                    extra_bits: self.extra_bits,
                    in_pos: self.in_pos,
                    out_buff: self.out_buff,
                    ..*old(self)
                }),
                self.reader_wf(input@),
                self.rest(input@) == decode_distance(
                    old(self).dsize_bits as int,
                    rep_length as int,
                    lit.rest,
                ).rest,
            decreases rep_length - i,
        {
            proof {
                lemma_copy_back_extends(history, minus_dist as int, i as int);
                lemma_copy_back_extends(history, minus_dist as int, i as int + 1);
                let before = copy_back(history, minus_dist as int, i as int);
                let after = copy_back(history, minus_dist as int, i as int + 1);
                assert(after == before.push(before[before.len() - minus_dist]));
                assert(forall|k: int| 0 <= k < before.len() ==> after[k] == before[k]);
            }
            self.out_buff[target_pos + i] = self.out_buff[source_pos + i];
            i = i + 1;
        }
        self.output_pos = self.output_pos + rep_length as usize;
        proof {
            lemma_copy_back_extends(history, minus_dist as int, rep_length as int);
        }
        Ok(false)
    }

    /// Hands the finished block of 0x1000 bytes to `output` and moves the
    /// bytes behind it down to the start of the window, where they stay
    /// as history.
    pub fn flush_window(&mut self, output: &mut Vec<u8>, Ghost(history): Ghost<Seq<u8>>)
        requires
            old(self).window_holds(history),
            old(self).output_pos >= 0x2000,
            (history.len() - (old(self).output_pos - 0x1000)) % 0x1000 == 0,
        ensures
            final(self).window_wf(history),
            final(output)@ == old(output)@ + history.subrange(
                history.len() - (old(self).output_pos - 0x1000),
                history.len() - (old(self).output_pos - 0x2000),
            ),
            final(self).output_pos == old(self).output_pos - 0x1000,
            *final(self) == (ExplodeState {
                out_buff: final(self).out_buff,
                output_pos: final(self).output_pos,
                window_start: final(self).window_start,
                ..*old(self)
            }),
    {
        let end = self.output_pos;
        let ghost base = history.len() - (end - 0x1000);
        let mut k: usize = 0x1000;
        while k < 0x2000
            invariant
                0x1000 <= k <= 0x2000,
                *self == *old(self),
                self.window_holds(history),
                end == self.output_pos,
                end >= 0x2000,
                base == history.len() - (end - 0x1000),
                output@ == old(output)@ + history.subrange(base, base + k - 0x1000),
            decreases 0x2000 - k,
        {
            output.push(self.out_buff[k]);
            proof {
                assert(history.subrange(base, base + k - 0x1000).push(history[base + k - 0x1000])
                    =~= history.subrange(base, base + k + 1 - 0x1000));
            }
            k = k + 1;
        }
        let mut j: usize = 0;
        while j < end - 0x1000
            invariant
                j <= end - 0x1000,
                0x2000 <= end <= 0x2204,
                old(self).window_holds(history),
                old(self).output_pos == end,
                forall|m: int| 0 <= m < j ==> #[trigger] self.out_buff[m] == old(self).out_buff[m
                    + 0x1000],
                forall|m: int| j <= m < 0x2204 ==> #[trigger] self.out_buff[m] == old(self).out_buff[m],
                *self == (ExplodeState { out_buff: self.out_buff, ..*old(self) }),
            decreases end - 0x1000 - j,
        {
            self.out_buff[j] = self.out_buff[j + 0x1000];
            j = j + 1;
        }
        self.output_pos = end - 0x1000;
        self.window_start = 0;
        proof {
            assert forall|m: int| 0 <= m < self.output_pos implies #[trigger] self.out_buff[m]
                == history[history.len() - (self.output_pos - m)] by {
                assert(self.out_buff[m] == old(self).out_buff[m + 0x1000]);
            }
            assert(history.len() == base + (end - 0x1000));
            vstd::arithmetic::div_mod::lemma_mod_multiples_vanish(
                base / 0x1000,
                (end - 0x2000) as int,
                0x1000,
            );
        }
    }

    /// Hands the output that has not filled a block to `output`, at the
    /// end of the stream.
    pub fn flush_rest(&self, output: &mut Vec<u8>, Ghost(history): Ghost<Seq<u8>>)
        requires
            self.window_wf(history),
            self.output_pos < 0x2000,
        ensures
            final(output)@ == old(output)@ + history.skip(
                history.len() - (self.output_pos - 0x1000),
            ),
    {
        let pending = self.output_pos - 0x1000;
        let ghost base = history.len() - pending;
        let mut k: usize = 0;
        while k < pending
            invariant
                k <= pending,
                pending == self.output_pos - 0x1000,
                base == history.len() - pending,
                self.window_wf(history),
                output@ == old(output)@ + history.subrange(base, base + k),
            decreases pending - k,
        {
            output.push(self.out_buff[0x1000 + k]);
            proof {
                assert(history.subrange(base, base + k).push(history[base + k])
                    =~= history.subrange(base, base + k + 1));
            }
            k = k + 1;
        }
        proof {
            assert(history.subrange(base, base + pending) =~= history.skip(base));
        }
    }
}

} // verus!
