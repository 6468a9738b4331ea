//! A second search that may replace a repetition by a longer one.

use crate::implode::hash::pair_hash;

use crate::implode::pattern::MatchResult;
use crate::implode::state::ImplodeState;
use vstd::prelude::*;

verus! {

/// A repetition in a search: its length and its distance.
pub struct Candidate {
    /// Number of bytes that repeat.
    pub length: int,
    /// How far back the earlier occurrence starts.
    pub distance: int,
}

impl ImplodeState {
    /// The longest repetition that may start at `pos`: it stays inside the
    /// data and has at most 516 bytes.
    pub open spec fn search_cap(&self, pos: int) -> int {
        if self.work_bytes - pos < 516 {
            self.work_bytes - pos
        } else {
            516
        }
    }

    /// The repetition that `find_optimized_match` holds once it looked at
    /// the positions `lo..hi` in ascending order: a position replaces what
    /// is held if it lies at another distance and agrees with `pos` on
    /// more bytes.
    pub open spec fn optimized_below(&self, pos: int, lo: int, hi: int, start: Candidate) -> Candidate
        decreases hi - lo,
    {
        if hi <= lo {
            start
        } else {
            let before = self.optimized_below(pos, lo, hi - 1, start);
            let here = self.spec_compare(pos, hi - 1, self.search_cap(pos));
            if pos - (hi - 1) != before.distance && here > before.length {
                Candidate { length: here, distance: pos - (hi - 1) }
            } else {
                before
            }
        }
    }

    /// Positions whose pair has another hash than the pair at `pos` change
    /// nothing: they agree with `pos` on less than two bytes.
    pub proof fn lemma_optimized_skips(&self, pos: int, lo: int, mid: int, hi: int, start: Candidate)
        requires
            lo <= mid <= hi,
            0 <= mid,
            hi <= pos,
            pos + 1 < 0x2204,
            start.length >= 0,
            forall|q: int|
                mid <= q < hi ==> #[trigger] pair_hash(self.work_buff@, q) != pair_hash(
                    self.work_buff@,
                    pos,
                ),
        ensures
            self.optimized_below(pos, lo, hi, start) == self.optimized_below(pos, lo, mid, start),
            self.optimized_below(pos, lo, mid, start).length >= 0,
        decreases hi - mid,
    {
        if mid < hi {
            self.lemma_optimized_skips(pos, lo, mid, hi - 1, start);
            assert(pair_hash(self.work_buff@, hi - 1) != pair_hash(self.work_buff@, pos));
        } else {
            self.lemma_optimized_length(pos, lo, mid, start);
        }
    }

    /// What the search holds is never shorter than what it started with.
    pub proof fn lemma_optimized_length(&self, pos: int, lo: int, hi: int, start: Candidate)
        requires
            start.length >= 0,
        ensures
            self.optimized_below(pos, lo, hi, start).length >= start.length,
        decreases hi - lo,
    {
        if hi > lo {
            self.lemma_optimized_length(pos, lo, hi - 1, start);
        }
    }

    /// Looks for a repetition at `input_pos` that is longer than
    /// `current_best`, among the earlier occurrences in the dictionary in
    /// ascending order, leaving out the distance of what it holds. A
    /// repetition of less than ten bytes is returned as it is, and so is
    /// any at a position with less than two bytes of data. When a longer
    /// one is found, its distance, less one, is kept in `distance`.
    pub fn find_optimized_match(&mut self, input_pos: usize, current_best: MatchResult) -> (result:
        MatchResult)
        requires
            old(self).index_wf(),
            old(self).work_bytes <= 0x2204,
        ensures
            ({
                let start = Candidate {
                    length: current_best.length as int,
                    distance: current_best.distance as int,
                };
                let held = if current_best.length < 10 || input_pos + 1 >= old(self).work_bytes {
                    start
                } else {
                    old(self).optimized_below(
                        input_pos as int,
                        old(self).search_low(input_pos as int),
                        old(self).search_high(input_pos as int),
                        start,
                    )
                };
                &&& result.length == held.length
                &&& result.distance == held.distance
                &&& final(self).distance == if held == start {
                    old(self).distance as int
                } else {
                    held.distance - 1
                }
            }),
            *final(self) == (ImplodeState { distance: final(self).distance, ..*old(self) }),
    {
        if current_best.length < 10 || input_pos >= self.work_bytes || self.work_bytes - input_pos
            < 2 {
            return current_best;
        }
        let hash = (self.work_buff[input_pos] as usize) * 4 + (self.work_buff[input_pos + 1] as usize)
            * 5;
        let positions = self.find_hash_positions(hash, input_pos);
        let remaining = self.work_bytes - input_pos;
        let max_length: usize = if remaining < 516 {
            remaining
        } else {
            516
        };
        let ghost pos = input_pos as int;
        let ghost lo = self.search_low(pos);
        let ghost hi = self.search_high(pos);
        let ghost start = Candidate {
            length: current_best.length as int,
            distance: current_best.distance as int,
        };
        let ghost state = *self;
        let mut best = current_best;
        let mut new_distance = self.distance;
        let mut i: usize = 0;
        let ghost mut done: int = lo;
        while i < positions.len()
            invariant
                i <= positions.len(),
                *self == state,
                state == *old(self),
                self.index_wf(),
                self.work_bytes <= 0x2204,
                input_pos + 2 <= self.work_bytes,
                pos == input_pos,
                lo == self.search_low(pos),
                hi == self.search_high(pos),
                max_length == self.search_cap(pos),
                hash == pair_hash(self.work_buff@, pos),
                start.length == current_best.length,
                start.distance == current_best.distance,
                lo <= done,
                done <= hi || (hi < lo && done == lo),
                forall|j: int|
                    0 <= j < positions.len() ==> self.is_candidate(
                        hash as int,
                        pos,
                        #[trigger] positions[j] as int,
                    ),
                forall|q: int|
                    self.is_candidate(hash as int, pos, q) ==> exists|j: int|
                        0 <= j < positions.len() && #[trigger] positions[j] == q,
                forall|j: int, k: int|
                    0 <= j < k < positions.len() ==> #[trigger] positions[j]
                        < #[trigger] positions[k],
                forall|j: int| 0 <= j < i ==> #[trigger] positions[j] < done,
                forall|j: int| i <= j < positions.len() ==> done <= #[trigger] positions[j],
                best.length == state.optimized_below(pos, lo, done, start).length,
                best.distance == state.optimized_below(pos, lo, done, start).distance,
                new_distance == if state.optimized_below(pos, lo, done, start) == start {
                    state.distance as int
                } else {
                    best.distance - 1
                },
                best.length >= 10,
            decreases positions.len() - i,
        {
            let match_pos = positions[i];
            let distance = input_pos - match_pos;
            proof {
                assert(self.is_candidate(hash as int, pos, match_pos as int));
                assert forall|q: int| done <= q < match_pos implies #[trigger] pair_hash(
                    self.work_buff@,
                    q,
                ) != pair_hash(self.work_buff@, pos) by {
                    if self.is_candidate(hash as int, pos, q) {
                        let j = choose|j: int|
                            0 <= j < positions.len() && #[trigger] positions[j] == q;
                        assert(positions[j] < done || done <= positions[j]);
                    }
                }
                state.lemma_optimized_skips(pos, lo, done, match_pos as int, start);
                state.lemma_optimized_length(pos, lo, match_pos as int, start);
                let before = state.optimized_below(pos, lo, match_pos as int, start);
                let here = state.spec_compare(pos, match_pos as int, state.search_cap(pos));
                assert(state.optimized_below(pos, lo, match_pos + 1, start) == if pos - match_pos
                    != before.distance && here > before.length {
                    Candidate { length: here, distance: pos - match_pos }
                } else {
                    before
                });
                assert(before.length == best.length && before.distance == best.distance);
                if before == start {
                    assert(new_distance == state.distance);
                }
            }
            if distance != best.distance {
                let match_length = self.compare_sequences(input_pos, match_pos, max_length);
                if match_length > best.length {
                    best = MatchResult::new(match_length, distance);
                    new_distance = (distance - 1) as u32;
                }
            }
            proof {
                done = match_pos + 1;
            }
            i = i + 1;
        }
        proof {
            if lo <= hi {
                assert forall|q: int| done <= q < hi implies #[trigger] pair_hash(
                    self.work_buff@,
                    q,
                ) != pair_hash(self.work_buff@, pos) by {
                    if self.is_candidate(hash as int, pos, q) {
                        let j = choose|j: int|
                            0 <= j < positions.len() && #[trigger] positions[j] == q;
                    }
                }
                state.lemma_optimized_skips(pos, lo, done, hi, start);
            }
        }
        proof {
            if hi < lo {
                assert(done == lo);
                assert(positions.len() == 0) by {
                    if positions.len() > 0 {
                        assert(self.is_candidate(hash as int, pos, positions[0] as int));
                    }
                }
            }
        }
        self.distance = new_distance;
        best
    }
}

} // verus!
