//! Compressing the collected input block by block.

use crate::implode::model::{settled, walk_to};
use crate::implode::output::lemma_buffer_steps;
use crate::implode::progress::lemma_walk_extends;
use crate::common::PkLibError;
use crate::implode::model::{distance_low_bits, match_cap, next_token, token_len, window_low};
use crate::implode::model::Token;
use crate::implode::pattern::{
    lemma_best_match_bounds, lemma_best_match_is_candidate, lemma_best_match_local,
};
use crate::implode::state::ImplodeState;
use crate::implode::writer::ImplodeWriter;
use vstd::arithmetic::power2::{lemma2_to64, lemma_pow2_pos, pow2};
use vstd::prelude::*;

verus! {

/// Once a block is loaded, the repetition that the search in the work
/// buffer reports at `pos` is the token of the data at that place.
pub proof fn lemma_window_token(state: ImplodeState, data: Seq<u8>, shift: int, pos: int)
    requires
        state.index_wf(),
        state.tables_wf(),
        state.index_begin == 0,
        state.index_len == state.work_bytes - 1,
        state.work_bytes <= 0x2204,
        0 <= shift,
        0 <= pos < state.work_bytes,
        shift + state.work_bytes <= data.len(),
        state.window() == data.subrange(shift, shift + state.work_bytes),
        window_low(shift + pos, state.dsize_bytes as int) == shift + window_low(
            pos,
            state.dsize_bytes as int,
        ),
        match_cap(state.window(), pos) == match_cap(data, shift + pos),
    ensures
        match state.spec_repetition(pos) {
            Some(best) => {
                &&& next_token(data, shift + pos, state.dsize_bytes as int) == (Token::Repeat {
                    length: best.length,
                    distance: pos - best.start,
                })
                &&& 2 <= best.length <= 516
                &&& best.length <= data.len() - (shift + pos)
                &&& 1 <= pos - best.start <= state.dsize_bytes
                &&& best.length == 2 ==> pos - best.start < 0x100
            },
            None => next_token(data, shift + pos, state.dsize_bytes as int) == Token::Literal(
                state.work_buff[pos],
            ),
        },
{
    let part = state.window();
    let dict = state.dsize_bytes as int;
    let low = window_low(pos, dict);
    let place = shift + pos;
    lemma2_to64();
    assert(forall|i: int| 0 <= i < part.len() ==> #[trigger] part[i] == data[shift + i]);
    assert(part[pos] == state.work_buff[pos]);
    lemma_best_match_local(data, part, shift, pos, low, pos);
    lemma_best_match_bounds(data, place, shift + low, place);
    lemma_best_match_bounds(part, pos, low, pos);
    lemma_best_match_is_candidate(part, pos, low, pos);
    if pos + 1 < state.work_bytes {
        assert(state.search_low(pos) == low);
        assert(state.search_high(pos) == pos);
    } else {
        assert(match_cap(part, pos) == 1);
    }
}

impl ImplodeWriter {
    /// Copies the part of the input that the next block needs into the
    /// work buffer and builds its hash index: the dictionary before the
    /// next byte to compress, a block of 0x1000 bytes, and the 516 bytes
    /// behind it that a repetition may reach.
    pub fn load_window(&mut self)
        requires
            old(self).input_wf(),
            old(self).state.input_pos < old(self).input@.len(),
            old(self).state.tables_wf(),
        ensures
            ({
                let begin = final(self).state.input_pos - final(self).state.work_pos;
                let room = final(self).input@.len() - final(self).state.input_pos;
                &&& final(self).state.work_pos == vstd::math::min(
                    final(self).state.input_pos as int,
                    final(self).state.dsize_bytes as int,
                )
                &&& final(self).state.work_bytes == final(self).state.work_pos + vstd::math::min(
                    room,
                    0x1204,
                )
                &&& final(self).state.window() == final(self).input@.subrange(
                    begin,
                    begin + final(self).state.work_bytes,
                )
            }),
            final(self).state.index_wf(),
            final(self).state.index_begin == 0,
            final(self).state.index_len == final(self).state.work_bytes - 1,
            *final(self) == (ImplodeWriter { state: final(self).state, ..*old(self) }),
            final(self).state == (ImplodeState {
                work_buff: final(self).state.work_buff,
                work_bytes: final(self).state.work_bytes,
                work_pos: final(self).state.work_pos,
                phash_to_index: final(self).state.phash_to_index,
                phash_offs: final(self).state.phash_offs,
                index_begin: final(self).state.index_begin,
                index_len: final(self).state.index_len,
                ..old(self).state
            }),
    {
        proof {
            lemma2_to64();
        }
        let input_pos = self.state.input_pos;
        let dict = self.state.dsize_bytes as usize;
        let back = if input_pos < dict {
            input_pos
        } else {
            dict
        };
        let room = self.input_base + self.input_buffer.len() - input_pos;
        let ahead = if room < 0x1204 {
            room
        } else {
            0x1204
        };
        let begin = input_pos - back;
        let offset = begin - self.input_base;
        let count = back + ahead;
        self.state.index_begin = 0;
        self.state.index_len = 0;
        self.state.phash_to_index = [0u16; 0x900];
        let mut i: usize = 0;
        while i < count
            invariant
                i <= count,
                count <= 0x2204,
                offset + count <= self.input_buffer.len(),
                offset == begin - self.input_base,
                old(self).input_wf(),
                forall|j: int| 0 <= j < i ==> #[trigger] self.state.work_buff[j] == self.input@[begin
                    + j],
                self.state.index_len == 0,
                self.state.index_begin == 0,
                forall|h: int| 0 <= h < 0x900 ==> #[trigger] self.state.phash_to_index[h] == 0,
                *self == (ImplodeWriter { state: self.state, ..*old(self) }),
                self.state == (ImplodeState {
                    work_buff: self.state.work_buff,
                    phash_to_index: self.state.phash_to_index,
                    index_begin: 0,
                    index_len: 0,
                    ..old(self).state
                }),
            decreases count - i,
        {
            proof {
                assert(self.input_buffer@[offset + i] == self.input@[self.input_base + (offset
                    + i)]);
            }
            self.state.work_buff[i] = self.input_buffer[offset + i];
            i = i + 1;
        }
        self.state.work_bytes = count;
        self.state.work_pos = back;
        proof {
            assert(self.state.window() =~= self.input@.subrange(begin as int, begin + count));
        }
        self.state.sort_buffer(0, count);
    }

    /// Compresses one block: from `work_pos` on, at most 0x1000 positions,
    /// each with the repetition found there or with its byte.
    pub fn compress_buffer(&mut self) -> (result: Result<(), PkLibError>)
        requires
            old(self).output_wf(),
            old(self).initialized,
            old(self).state.out_bytes < 0x800,
            old(self).state.index_wf(),
            old(self).state.index_begin == 0,
            old(self).state.index_len == old(self).state.work_bytes - 1,
            old(self).input_wf(),
            old(self).state.input_pos < old(self).input@.len(),
            old(self).state.work_pos == vstd::math::min(
                old(self).state.input_pos as int,
                old(self).state.dsize_bytes as int,
            ),
            old(self).state.work_bytes == old(self).state.work_pos + vstd::math::min(
                old(self).input@.len() - old(self).state.input_pos,
                0x1204,
            ),
            old(self).state.window() == old(self).input@.subrange(
                old(self).state.input_pos - old(self).state.work_pos,
                old(self).state.input_pos - old(self).state.work_pos + old(self).state.work_bytes,
            ),
            old(self).progress_wf(old(self).state.input_pos as int),
        ensures
            result is Ok,
            final(self).output_wf(),
            final(self).state.out_bytes < 0x800,
            final(self).state.index_wf(),
            final(self).state.work_bytes <= 0x2204,
            Self::buffer_step(*old(self), *final(self)),
            old(self).input@.len() - old(self).state.input_pos >= 0x1204 && settled(
                old(self).input@,
                0,
                old(self).state.input_pos as int,
                old(self).state.dsize_bytes as int,
            ) ==> settled(
                final(self).input@,
                0,
                final(self).state.input_pos as int,
                final(self).state.dsize_bytes as int,
            ),
            final(self).taken == old(self).taken,
            old(self).state.input_pos < final(self).state.input_pos <= final(self).input@.len(),
            final(self).state.input_pos == final(self).input@.len() || final(self).state.input_pos >= old(self).state.input_pos + 0x1000,
            final(self).state.input_pos < old(self).state.input_pos + 0x1000 + 516,
            final(self).state.input_pos == walk_to(
                old(self).input@,
                old(self).state.input_pos as int,
                old(self).state.input_pos + 0x1000,
                old(self).state.dsize_bytes as int,
            ),
            final(self).progress_wf(final(self).state.input_pos as int),
            final(self).input == old(self).input,
            final(self).input_wf(),
            final(self).prefix == old(self).prefix,
            final(self).initialized == old(self).initialized,
            final(self).finished == old(self).finished,
            final(self).state.ctype == old(self).state.ctype,
            final(self).state.dsize_bits == old(self).state.dsize_bits,
            final(self).state.dsize_bytes == old(self).state.dsize_bytes,
    {
        let start = self.state.work_pos;
        let shift = self.state.input_pos - start;
        let limit = if self.state.work_bytes - start < 0x1000 {
            self.state.work_bytes
        } else {
            start + 0x1000
        };
        let ghost data = self.input@;
        let ghost part = self.state.window();
        let ghost dict = self.state.dsize_bytes as int;
        let mut pos = start;
        proof {
            lemma2_to64();
            assert(self.waiting() % 0x800 == self.waiting());
        }
        while pos < limit
            invariant
                start <= pos <= self.state.work_bytes <= 0x2204,
                start < limit <= self.state.work_bytes,
                limit <= start + 0x1000,
                shift + self.state.work_bytes <= data.len(),
                shift + start == self.state.input_pos,
                start == vstd::math::min(self.state.input_pos as int, dict),
                self.state.work_bytes == start + vstd::math::min(
                    data.len() - self.state.input_pos,
                    0x1204,
                ),
                data == self.input@,
                self.input_wf(),
                part == self.state.window(),
                part == data.subrange(shift as int, shift + self.state.work_bytes),
                dict == self.state.dsize_bytes,
                self.output_wf(),
                self.initialized,
                self.state.out_bytes < 0x800,
                self.state.index_wf(),
                self.state.index_begin == 0,
                self.state.index_len == self.state.work_bytes - 1,
                self.progress_wf(shift + pos),
                data.len() - self.state.input_pos >= 0x1204 && settled(
                    data,
                    0,
                    self.state.input_pos as int,
                    dict,
                ) ==> settled(data, 0, shift + pos, dict),
                self.taken == old(self).taken,
                self.input == old(self).input,
                self.input_wf(),
                self.prefix == old(self).prefix,
                self.initialized == old(self).initialized,
                self.finished == old(self).finished,
                self.state.ctype == old(self).state.ctype,
                self.state.dsize_bits == old(self).state.dsize_bits,
                self.state.dsize_bytes == old(self).state.dsize_bytes,
                self.state.input_pos == old(self).state.input_pos,
                self.state.work_pos == old(self).state.work_pos,
                pos < limit + 516,
                Self::buffer_step(*old(self), *self),
                walk_to(data, shift + pos, self.state.input_pos + 0x1000, dict) == walk_to(
                    data,
                    self.state.input_pos as int,
                    self.state.input_pos + 0x1000,
                    dict,
                ),
            decreases self.state.work_bytes - pos,
        {
            let ghost place = shift + pos;
            proof {
                lemma_window_token(self.state, data, shift as int, pos as int);
                let t = next_token(data, place, dict);
                assert(1 <= token_len(t) <= data.len() - place);
                lemma_walk_extends(
                    self.state.ctype,
                    self.state.dsize_bits as int,
                    data,
                    0,
                    place,
                    dict,
                );
            }
            let ghost entered = *self;
            let ghost before = self.state;
            let found = self.state.find_repetition(pos);
            proof {
                before.lemma_index_frame(self.state);
            }
            let ghost searched = self.state;
            if found.is_match() {
                proof {
                    let k = distance_low_bits(self.state.dsize_bits as int, found.length as int);
                    lemma_pow2_pos(k as nat);
                    lemma2_to64();
                    if found.length == 2 {
                        assert(pow2(2) == 4);
                        assert((found.distance - 1) / 4 < 64);
                    } else {
                        assert(found.distance - 1 < pow2(k as nat) * 64);
                        vstd::arithmetic::div_mod::lemma_multiply_divide_lt(
                            found.distance - 1,
                            pow2(k as nat) as int,
                            64,
                        );
                    }
                    assert(self.encodable(found.length as int, found.distance as int));
                }
                let _ = self.encode_match(found);
                pos = pos + found.length;
            } else {
                let byte = self.state.work_buff[pos];
                let _ = self.encode_literal(byte);
                pos = pos + 1;
            }
            proof {
                searched.lemma_index_frame(self.state);
                assert(self.state.window() == part);
                lemma_buffer_steps(
                    old(self).waiting(),
                    entered.emitted@.len / 8 - old(self).emitted@.len / 8,
                    self.emitted@.len / 8 - entered.emitted@.len / 8,
                );
            }
        }
        let ghost compressed = self.state;
        self.state.input_pos = shift + pos;
        proof {
            compressed.lemma_index_frame(self.state);
        }
        Ok(())
    }

    /// Compresses all input that was collected and not yet compressed,
    /// block by block.
    pub fn process_input(&mut self) -> (result: Result<(), PkLibError>)
        requires
            old(self).output_wf(),
            old(self).state.out_bytes < 0x800 || !old(self).initialized,
            old(self).input_wf(),
            old(self).progress_wf(old(self).state.input_pos as int),
        ensures
            result is Ok,
            final(self).output_wf(),
            final(self).initialized,
            final(self).state.out_bytes < 0x800,
            Self::buffer_step(*old(self), *final(self)),
            final(self).state.input_pos == final(self).input@.len(),
            final(self).progress_wf(final(self).input@.len() as int),
            final(self).input == old(self).input,
            final(self).input_wf(),
            final(self).prefix == old(self).prefix,
            final(self).taken == old(self).taken,
            final(self).finished == old(self).finished,
            final(self).state.ctype == old(self).state.ctype,
            final(self).state.dsize_bits == old(self).state.dsize_bits,
            final(self).state.dsize_bytes == old(self).state.dsize_bytes,
    {
        let _ = self.initialize();
        proof {
            assert(self.waiting() % 0x800 == self.waiting());
        }
        while self.state.input_pos < self.input_base + self.input_buffer.len()
            invariant
                self.output_wf(),
                self.initialized,
                self.state.out_bytes < 0x800,
                self.state.input_pos <= self.input@.len(),
                Self::buffer_step(*old(self), *self),
                self.progress_wf(self.state.input_pos as int),
                self.input == old(self).input,
                self.input_wf(),
                self.prefix == old(self).prefix,
                self.taken == old(self).taken,
                self.finished == old(self).finished,
                self.state.ctype == old(self).state.ctype,
                self.state.dsize_bits == old(self).state.dsize_bits,
                self.state.dsize_bytes == old(self).state.dsize_bytes,
            decreases self.input@.len() - self.state.input_pos,
        {
            let ghost entered = *self;
            self.load_window();
            let ghost loaded = *self;
            let _ = self.compress_buffer();
            proof {
                lemma_buffer_steps(
                    old(self).waiting(),
                    entered.emitted@.len / 8 - old(self).emitted@.len / 8,
                    self.emitted@.len / 8 - loaded.emitted@.len / 8,
                );
            }
        }
        Ok(())
    }

    /// Compresses the input that is still waiting, if there is any.
    pub fn flush_remaining_data(&mut self) -> (result: Result<(), PkLibError>)
        requires
            old(self).output_wf(),
            old(self).initialized,
            old(self).state.out_bytes < 0x800,
            old(self).input_wf(),
            old(self).progress_wf(old(self).state.input_pos as int),
        ensures
            result is Ok,
            final(self).output_wf(),
            final(self).initialized,
            final(self).state.out_bytes < 0x800,
            Self::buffer_step(*old(self), *final(self)),
            final(self).state.input_pos == final(self).input@.len(),
            final(self).progress_wf(final(self).input@.len() as int),
            final(self).input == old(self).input,
            final(self).input_wf(),
            final(self).prefix == old(self).prefix,
            final(self).taken == old(self).taken,
            final(self).finished == old(self).finished,
            final(self).state.ctype == old(self).state.ctype,
            final(self).state.dsize_bits == old(self).state.dsize_bits,
            final(self).state.dsize_bytes == old(self).state.dsize_bytes,
    {
        if self.state.input_pos < self.input_base + self.input_buffer.len() {
            self.process_input()
        } else {
            proof {
                assert(self.waiting() % 0x800 == self.waiting());
            }
            Ok(())
        }
    }
}

} // verus!
