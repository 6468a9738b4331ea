//! Finding the repetition to emit at a position of the work buffer.

use crate::implode::hash::pair_hash;
use crate::implode::model::{best_match_below, common_len, match_cap, window_low, Found};
use crate::implode::state::ImplodeState;
use vstd::prelude::*;

verus! {

/// A repetition: its length and how far back it starts.
#[derive(Debug, Clone, Copy)]
pub struct MatchResult {
    /// Number of bytes that repeat; 0 for none.
    pub length: usize,
    /// How far back the earlier occurrence starts; 0 for none.
    pub distance: usize,
}

impl MatchResult {
    /// A repetition of `length` bytes that starts `distance` bytes back.
    pub fn new(length: usize, distance: usize) -> (result: MatchResult)
        ensures
            result.length == length,
            result.distance == distance,
    {
        MatchResult { length, distance }
    }

    /// The result that stands for no repetition.
    pub fn no_match() -> (result: MatchResult)
        ensures
            result.length == 0,
            result.distance == 0,
    {
        MatchResult { length: 0, distance: 0 }
    }

    /// Whether this is a repetition of at least two bytes.
    pub open spec fn spec_is_match(&self) -> bool {
        self.length >= 2
    }

    /// Whether this is a repetition of at least two bytes.
    #[verifier::when_used_as_spec(spec_is_match)]
    pub fn is_match(&self) -> (result: bool)
        ensures
            result == self.spec_is_match(),
    {
        self.length >= 2
    }
}

/// The two pairs of places hold the same bytes `i` places on.
pub open spec fn agree_at(
    left: Seq<u8>,
    left_from: int,
    left_at: int,
    right: Seq<u8>,
    right_from: int,
    right_at: int,
    i: int,
) -> bool {
    left[left_from + i] == right[right_from + i] && left[left_at + i] == right[right_at + i]
}

/// The common length of two places depends only on the bytes that it
/// compares.
pub proof fn lemma_common_len_agrees(
    left: Seq<u8>,
    left_from: int,
    left_at: int,
    right: Seq<u8>,
    right_from: int,
    right_at: int,
    cap: int,
)
    requires
        forall|i: int| 0 <= i < cap ==> #[trigger] agree_at(left, left_from, left_at, right, right_from, right_at, i),
    ensures
        common_len(left, left_from, left_at, cap) == common_len(right, right_from, right_at, cap),
        0 <= common_len(left, left_from, left_at, cap),
        cap >= 0 ==> common_len(left, left_from, left_at, cap) <= cap,
    decreases cap,
{
    if cap > 0 {
        assert(agree_at(left, left_from, left_at, right, right_from, right_at, 0));
        assert forall|i: int| 0 <= i < cap - 1 implies #[trigger] agree_at(
            left,
            left_from + 1,
            left_at + 1,
            right,
            right_from + 1,
            right_at + 1,
            i,
        ) by {
            assert(agree_at(left, left_from, left_at, right, right_from, right_at, i + 1));
        }
        lemma_common_len_agrees(left, left_from + 1, left_at + 1, right, right_from + 1, right_at + 1, cap - 1);
    }
}

/// The best repetition is none, or one of the candidates with its common
/// length.
pub proof fn lemma_best_match_is_candidate(data: Seq<u8>, pos: int, lo: int, hi: int)
    ensures
        ({
            let best = best_match_below(data, pos, lo, hi);
            best.length == 0 && best.start == pos || best.length >= 2 && lo <= best.start < hi
                && best.length == common_len(data, best.start, pos, match_cap(data, pos))
        }),
    decreases hi - lo,
{
    if hi > lo {
        lemma_best_match_is_candidate(data, pos, lo, hi - 1);
    }
}

/// A candidate that is at least as long as every other, and nearer than
/// every other of its length, is the best repetition.
pub proof fn lemma_best_match_unique(
    data: Seq<u8>,
    pos: int,
    lo: int,
    hi: int,
    length: int,
    start: int,
)
    requires
        length == 0 || length >= 2,
        length == 0 ==> start == pos,
        length >= 2 ==> lo <= start < hi && common_len(data, start, pos, match_cap(data, pos))
            == length,
        forall|q: int|
            lo <= q < hi ==> {
                let here = #[trigger] common_len(data, q, pos, match_cap(data, pos));
                here < 2 || here < length || (here == length && q <= start)
            },
    ensures
        best_match_below(data, pos, lo, hi) == (Found { length, start }),
    decreases hi - lo,
{
    if hi > lo {
        let here = common_len(data, hi - 1, pos, match_cap(data, pos));
        lemma_best_match_is_candidate(data, pos, lo, hi - 1);
        let before = best_match_below(data, pos, lo, hi - 1);
        if length >= 2 && start == hi - 1 {
            if before.length >= 2 {
                assert(common_len(data, before.start, pos, match_cap(data, pos)) == before.length);
            }
        } else {
            lemma_best_match_unique(data, pos, lo, hi - 1, length, start);
        }
    }
}

/// A search in a copy of a part of the data finds what a search in the
/// data finds, moved by the start of the part.
pub proof fn lemma_best_match_local(
    data: Seq<u8>,
    part: Seq<u8>,
    shift: int,
    pos: int,
    lo: int,
    hi: int,
)
    requires
        0 <= shift,
        0 <= lo,
        hi <= pos < part.len(),
        shift + part.len() <= data.len(),
        forall|i: int| 0 <= i < part.len() ==> #[trigger] part[i] == data[shift + i],
        match_cap(part, pos) == match_cap(data, shift + pos),
    ensures
        best_match_below(data, shift + pos, shift + lo, shift + hi) == (Found {
            length: best_match_below(part, pos, lo, hi).length,
            start: shift + best_match_below(part, pos, lo, hi).start,
        }),
    decreases hi - lo,
{
    if hi > lo {
        lemma_best_match_local(data, part, shift, pos, lo, hi - 1);
        let cap = match_cap(part, pos);
        assert forall|i: int| 0 <= i < cap implies #[trigger] agree_at(
            part,
            hi - 1,
            pos,
            data,
            shift + hi - 1,
            shift + pos,
            i,
        ) by {
            assert(part[hi - 1 + i] == data[shift + (hi - 1 + i)]);
            assert(part[pos + i] == data[shift + (pos + i)]);
        }
        lemma_common_len_agrees(part, hi - 1, pos, data, shift + hi - 1, shift + pos, cap);
    }
}

/// No repetition of two bytes starts where less than two bytes are left,
/// and none is longer than what is left.
pub proof fn lemma_best_match_bounds(data: Seq<u8>, pos: int, lo: int, hi: int)
    requires
        0 <= lo,
        hi <= pos < data.len(),
    ensures
        best_match_below(data, pos, lo, hi).length <= match_cap(data, pos),
        match_cap(data, pos) < 2 ==> best_match_below(data, pos, lo, hi).length == 0,
    decreases hi - lo,
{
    if hi > lo {
        lemma_best_match_bounds(data, pos, lo, hi - 1);
        let cap = match_cap(data, pos);
        assert forall|i: int| 0 <= i < cap implies #[trigger] agree_at(
            data,
            hi - 1,
            pos,
            data,
            hi - 1,
            pos,
            i,
        ) by {}
        lemma_common_len_agrees(data, hi - 1, pos, data, hi - 1, pos, cap);
    }
}

impl ImplodeState {
    /// The bytes of the work buffer that hold data.
    pub open spec fn window(&self) -> Seq<u8> {
        self.work_buff@.take(self.work_bytes as int)
    }

    /// What `compare_sequences` returns.
    pub open spec fn spec_compare(&self, pos1: int, pos2: int, max_length: int) -> int {
        let buf = self.work_buff@;
        if pos1 + 1 >= 0x2204 || pos2 + 1 >= 0x2204 || buf[pos1] != buf[pos2] || buf[pos1 + 1]
            != buf[pos2 + 1] {
            0
        } else {
            let later = if pos1 < pos2 {
                pos2
            } else {
                pos1
            };
            let wanted = if max_length < 2 {
                2
            } else {
                max_length
            };
            let cap = if wanted < 0x2204 - later {
                wanted
            } else {
                0x2204 - later
            };
            common_len(buf, pos2, pos1, cap)
        }
    }

    /// The number of bytes on which the work buffer from `pos1` agrees with
    /// the work buffer from `pos2`: 0 unless the first two bytes agree,
    /// else at least 2 and at most `max_length`, and no further than the
    /// end of the work buffer.
    pub fn compare_sequences(&self, pos1: usize, pos2: usize, max_length: usize) -> (length: usize)
        ensures
            length == self.spec_compare(pos1 as int, pos2 as int, max_length as int),
    {
        if pos1 >= 0x2203 || pos2 >= 0x2203 {
            return 0;
        }
        if self.work_buff[pos1] != self.work_buff[pos2] || self.work_buff[pos1 + 1]
            != self.work_buff[pos2 + 1] {
            return 0;
        }
        let ghost buf = self.work_buff@;
        let ghost later: int = if pos1 < pos2 {
            pos2 as int
        } else {
            pos1 as int
        };
        let ghost wanted: int = if max_length < 2 {
            2
        } else {
            max_length as int
        };
        let ghost cap: int = if wanted < 0x2204 - later {
            wanted
        } else {
            0x2204 - later
        };
        let mut length: usize = 2;
        proof {
            assert(common_len(buf, pos2 as int, pos1 as int, cap) == 1 + common_len(
                buf,
                pos2 + 1,
                pos1 + 1,
                cap - 1,
            ));
            assert(common_len(buf, pos2 + 1, pos1 + 1, cap - 1) == 1 + common_len(
                buf,
                pos2 + 2,
                pos1 + 2,
                cap - 2,
            ));
        }
        let mut stopped = false;
        while !stopped && length < max_length
            invariant
                2 <= length <= cap,
                stopped ==> common_len(buf, pos2 + length, pos1 + length, cap - length) == 0,
                pos1 < 0x2203,
                pos2 < 0x2203,
                buf == self.work_buff@,
                later == if pos1 < pos2 {
                    pos2 as int
                } else {
                    pos1 as int
                },
                wanted == if max_length < 2 {
                    2
                } else {
                    max_length as int
                },
                cap == if wanted < 0x2204 - later {
                    wanted
                } else {
                    0x2204 - later
                },
                common_len(buf, pos2 as int, pos1 as int, cap) == length + common_len(
                    buf,
                    pos2 + length,
                    pos1 + length,
                    cap - length,
                ),
            decreases max_length - length + if stopped { 0int } else { 1int },
        {
            if pos1 + length >= 0x2204 || pos2 + length >= 0x2204 {
                stopped = true;
            } else if self.work_buff[pos1 + length] != self.work_buff[pos2 + length] {
                stopped = true;
            } else {
                length = length + 1;
            }
        }
        length
    }

    /// What `find_run_length_match` returns.
    pub open spec fn spec_run_length(&self, pos: int, max_length: int) -> int {
        if pos >= 0x2204 {
            0
        } else {
            let cap = if max_length < 0x2204 - pos {
                max_length
            } else {
                0x2204 - pos
            };
            1 + common_len(self.work_buff@, pos, pos + 1, cap - 1)
        }
    }

    /// The number of bytes from `pos` on that equal the byte at `pos`: at
    /// least 1, at most `max_length` beyond that, and no further than the
    /// end of the work buffer. It is 0 for a position behind the work
    /// buffer.
    pub fn find_run_length_match(&self, pos: usize, max_length: usize) -> (length: usize)
        ensures
            length == self.spec_run_length(pos as int, max_length as int),
    {
        if pos >= 0x2204 {
            return 0;
        }
        let byte_value = self.work_buff[pos];
        let ghost buf = self.work_buff@;
        let ghost cap: int = if max_length < 0x2204 - pos {
            max_length as int
        } else {
            0x2204 - pos
        };
        let mut length: usize = 1;
        let mut stopped = false;
        while !stopped && length < max_length && pos + length < 0x2204
            invariant
                1 <= length <= 0x2204 - pos,
                stopped ==> common_len(buf, pos + length - 1, pos + length, cap - length) == 0,
                length <= cap || cap < 1,
                pos < 0x2204,
                buf == self.work_buff@,
                byte_value == buf[pos as int],
                cap == if max_length < 0x2204 - pos {
                    max_length as int
                } else {
                    0x2204 - pos
                },
                buf[pos + length - 1] == byte_value,
                1 + common_len(buf, pos as int, pos + 1, cap - 1) == length + common_len(
                    buf,
                    pos + length - 1,
                    pos + length,
                    cap - length,
                ),
            decreases 0x2204 - length + if stopped { 0int } else { 1int },
        {
            if self.work_buff[pos + length] != byte_value {
                stopped = true;
            } else {
                length = length + 1;
            }
        }
        length
    }

    /// Whether the bytes at `pos1` and `pos2` agree, and the bytes
    /// `min_length - 1` behind them agree too. It is `false` when either
    /// range of `min_length` bytes leaves the work buffer.
    pub fn quick_match_check(&self, pos1: usize, pos2: usize, min_length: usize) -> (result: bool)
        requires
            min_length >= 1,
        ensures
            result == (pos1 + min_length <= 0x2204 && pos2 + min_length <= 0x2204
                && self.work_buff[pos1 as int] == self.work_buff[pos2 as int]
                && self.work_buff[pos1 + min_length - 1] == self.work_buff[pos2 + min_length
                - 1]),
    {
        if min_length > 0x2204 || pos1 > 0x2204 - min_length || pos2 > 0x2204 - min_length {
            return false;
        }
        self.work_buff[pos1] == self.work_buff[pos2] && self.work_buff[pos1 + min_length - 1]
            == self.work_buff[pos2 + min_length - 1]
    }

    /// First position that a search from `pos` looks at: the start of the
    /// dictionary or of the indexed range, whichever is later.
    pub open spec fn search_low(&self, pos: int) -> int {
        let low = window_low(pos, self.dsize_bytes as int);
        if low < self.index_begin {
            self.index_begin as int
        } else {
            low
        }
    }

    /// Position behind the last that a search from `pos` looks at: `pos`
    /// or the end of the indexed range, whichever is earlier.
    pub open spec fn search_high(&self, pos: int) -> int {
        if pos < self.index_last() {
            pos
        } else {
            self.index_last()
        }
    }

    /// The repetition that `find_repetition` reports for `pos`: the best
    /// one among the positions it looks at, if it has three bytes or more,
    /// or two bytes and a distance below 0x100.
    pub open spec fn spec_repetition(&self, pos: int) -> Option<Found> {
        let best = best_match_below(
            self.window(),
            pos,
            self.search_low(pos),
            self.search_high(pos),
        );
        if pos + 1 < self.work_bytes && (best.length >= 3 || (best.length == 2 && pos - best.start
            < 0x100)) {
            Some(best)
        } else {
            None
        }
    }

    /// Finds the repetition to emit at `input_pos`: the longest of the
    /// earlier occurrences in the dictionary, and of those of equal length
    /// the nearest. A repetition of two bytes that lies 0x100 bytes or more
    /// back is not worth its code and is not reported. The distance of a
    /// reported repetition, less one, is kept in `distance`.
    pub fn find_repetition(&mut self, input_pos: usize) -> (result: MatchResult)
        requires
            old(self).index_wf(),
            old(self).work_bytes <= 0x2204,
        ensures
            match old(self).spec_repetition(input_pos as int) {
                Some(best) => result.length == best.length && result.distance == input_pos
                    - best.start && final(self).distance == result.distance - 1,
                None => result.length == 0 && result.distance == 0 && final(self).distance == old(self).distance,
            },
            *final(self) == (ImplodeState { distance: final(self).distance, ..*old(self) }),
    {
        if input_pos >= self.work_bytes || self.work_bytes - input_pos < 2 {
            return MatchResult::no_match();
        }
        let hash = (self.work_buff[input_pos] as usize) * 4 + (self.work_buff[input_pos + 1] as usize)
            * 5;
        let positions = self.find_hash_positions(hash, input_pos);
        let remaining = self.work_bytes - input_pos;
        let max_length: usize = if remaining < 516 {
            remaining
        } else {
            516
        };
        let ghost buf = self.work_buff@;
        let ghost data = self.window();
        let ghost pos = input_pos as int;
        let ghost lo = self.search_low(pos);
        let ghost hi = self.search_high(pos);
        let mut best_length: usize = 0;
        let mut best_distance: usize = 0;
        let mut i: usize = 0;
        while i < positions.len()
            invariant
                i <= positions.len(),
                *self == *old(self),
                self.index_wf(),
                self.work_bytes <= 0x2204,
                input_pos + 2 <= self.work_bytes,
                buf == self.work_buff@,
                data == self.window(),
                pos == input_pos,
                lo == self.search_low(pos),
                hi == self.search_high(pos),
                max_length == match_cap(data, pos),
                2 <= max_length <= 516,
                hash == pair_hash(buf, pos),
                forall|j: int|
                    0 <= j < positions.len() ==> self.is_candidate(
                        hash as int,
                        pos,
                        #[trigger] positions[j] as int,
                    ),
                best_length == 0 || best_length >= 2,
                best_length == 0 ==> best_distance == 0,
                best_length >= 2 ==> lo <= pos - best_distance < hi && common_len(
                    data,
                    pos - best_distance,
                    pos,
                    max_length as int,
                ) == best_length,
                forall|j: int|
                    0 <= j < i ==> {
                        let here = #[trigger] common_len(
                            data,
                            positions[j] as int,
                            pos,
                            max_length as int,
                        );
                        here < 2 || here < best_length || (here == best_length && positions[j]
                            <= pos - best_distance)
                    },
            decreases positions.len() - i,
        {
            let match_pos = positions[i];
            let distance = input_pos - match_pos;
            proof {
                assert(self.is_candidate(hash as int, pos, match_pos as int));
                lemma_common_len_agrees(
                    data,
                    match_pos as int,
                    pos,
                    buf,
                    match_pos as int,
                    pos,
                    max_length as int,
                );
                let cap = max_length as int;
                assert(common_len(buf, match_pos as int, pos, cap) == if buf[match_pos as int]
                    != buf[pos] {
                    0
                } else {
                    1 + common_len(buf, match_pos + 1, pos + 1, cap - 1)
                });
                assert(common_len(buf, match_pos + 1, pos + 1, cap - 1) == if buf[match_pos + 1]
                    != buf[pos + 1] {
                    0
                } else {
                    1 + common_len(buf, match_pos + 2, pos + 2, cap - 2)
                });
                lemma_common_len_agrees(
                    buf,
                    match_pos + 2,
                    pos + 2,
                    buf,
                    match_pos + 2,
                    pos + 2,
                    cap - 2,
                );
            }
            let match_length = if distance == 1 {
                if self.work_buff[match_pos] == self.work_buff[input_pos] {
                    self.find_run_length_match(input_pos, max_length)
                } else {
                    0
                }
            } else {
                self.compare_sequences(input_pos, match_pos, max_length)
            };
            if match_length >= 2 && (match_length > best_length || (match_length == best_length
                && distance < best_distance)) {
                best_length = match_length;
                best_distance = distance;
            }
            i = i + 1;
        }
        proof {
            assert forall|q: int| lo <= q < hi implies {
                let here = #[trigger] common_len(data, q, pos, match_cap(data, pos));
                here < 2 || here < best_length || (here == best_length && q <= pos - best_distance)
            } by {
                let cap = max_length as int;
                lemma_common_len_agrees(data, q, pos, buf, q, pos, cap);
                assert(common_len(buf, q, pos, cap) == if buf[q] != buf[pos] {
                    0
                } else {
                    1 + common_len(buf, q + 1, pos + 1, cap - 1)
                });
                assert(common_len(buf, q + 1, pos + 1, cap - 1) == if buf[q + 1] != buf[pos + 1] {
                    0
                } else {
                    1 + common_len(buf, q + 2, pos + 2, cap - 2)
                });
                if common_len(data, q, pos, cap) >= 2 {
                    assert(self.is_candidate(hash as int, pos, q));
                    let j = choose|j: int| 0 <= j < positions.len() && #[trigger] positions[j] == q;
                    assert(common_len(data, positions[j] as int, pos, cap) == common_len(
                        data,
                        q,
                        pos,
                        cap,
                    ));
                }
            }
            lemma_best_match_unique(
                data,
                pos,
                lo,
                hi,
                best_length as int,
                pos - best_distance,
            );
        }
        if best_length == 2 && best_distance >= 0x100 {
            return MatchResult::no_match();
        }
        if best_length >= 2 {
            self.distance = (best_distance - 1) as u32;
        }
        MatchResult::new(best_length, best_distance)
    }
}

} // verus!
