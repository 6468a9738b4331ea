//! The hash index of the work buffer.
//!
//! Every pair of neighbouring bytes has a hash. The index lists the
//! positions of a range of the work buffer ordered by the hash of the pair
//! that starts there, and within one hash by position, so that all earlier
//! occurrences of a pair stand next to each other.

use crate::implode::state::ImplodeState;
use vstd::prelude::*;

verus! {

/// Number of distinct hashes of a byte pair.
pub const HASH_TABLE_SIZE: usize = 0x900;

/// Size of the work buffer.
pub const WORK_BUFF_SIZE: usize = 0x2204;

/// Size of the compressor's output buffer.
pub const OUT_BUFF_SIZE: usize = 0x802;

/// Size of the scratch space of one repetition.
pub const OFFSS_SIZE2: usize = 0x204;

/// The hash of the byte pair at the start of `buffer`: four times the
/// first byte plus five times the second.
pub fn byte_pair_hash(buffer: &[u8]) -> (hash: usize)
    requires
        buffer.len() >= 2,
    ensures
        hash == 4 * buffer[0] + 5 * buffer[1],
        hash < HASH_TABLE_SIZE,
{
    (buffer[0] as usize) * 4 + (buffer[1] as usize) * 5
}

/// The hash of the byte pair at position `p`.
pub open spec fn pair_hash(buf: Seq<u8>, p: int) -> int {
    4 * buf[p] + 5 * buf[p + 1]
}

/// Number of positions in `begin..end` whose pair has the hash `h`.
pub open spec fn count_hash(buf: Seq<u8>, begin: int, end: int, h: int) -> int
    decreases end - begin,
{
    if end <= begin {
        0
    } else if pair_hash(buf, end - 1) == h {
        count_hash(buf, begin, end - 1, h) + 1
    } else {
        count_hash(buf, begin, end - 1, h)
    }
}

/// Number of positions in `begin..end` whose pair has a hash below `h`.
pub open spec fn count_less(buf: Seq<u8>, begin: int, end: int, h: int) -> int
    decreases end - begin,
{
    if end <= begin {
        0
    } else if pair_hash(buf, end - 1) < h {
        count_less(buf, begin, end - 1, h) + 1
    } else {
        count_less(buf, begin, end - 1, h)
    }
}

/// The place in the index of position `p` of the range `begin..last`:
/// behind all positions with a smaller hash and all earlier positions with
/// the same hash.
pub open spec fn slot_of(buf: Seq<u8>, begin: int, last: int, p: int) -> int {
    count_less(buf, begin, last, pair_hash(buf, p)) + count_hash(
        buf,
        begin,
        p,
        pair_hash(buf, p),
    )
}

/// Entry `k` of the index holds a position from `from` on with the hash
/// `h`, at its place.
pub open spec fn entry_ok(
    buf: Seq<u8>,
    offs: Seq<u16>,
    begin: int,
    last: int,
    from: int,
    h: int,
    k: int,
) -> bool {
    let p = begin + offs[k];
    from <= p < last && pair_hash(buf, p) == h && k == slot_of(buf, begin, last, p)
}

/// The counts of a range lie between zero and its size; the positions
/// with a hash below `h + 1` are those below `h` and those with `h`.
pub proof fn lemma_count_basics(buf: Seq<u8>, begin: int, end: int, h: int)
    ensures
        0 <= count_hash(buf, begin, end, h),
        0 <= count_less(buf, begin, end, h),
        begin <= end ==> count_hash(buf, begin, end, h) + count_less(buf, begin, end, h) <= end
            - begin,
        count_less(buf, begin, end, h + 1) == count_less(buf, begin, end, h) + count_hash(
            buf,
            begin,
            end,
            h,
        ),
        h <= 0 ==> count_less(buf, begin, end, h) == 0,
        h >= 0x900 && begin <= end ==> count_less(buf, begin, end, h) == end - begin,
    decreases end - begin,
{
    if end > begin {
        lemma_count_basics(buf, begin, end - 1, h);
    }
}

/// A greater hash has no fewer positions below it.
pub proof fn lemma_count_less_increases(buf: Seq<u8>, begin: int, end: int, a: int, b: int)
    requires
        a <= b,
    ensures
        count_less(buf, begin, end, a) <= count_less(buf, begin, end, b),
    decreases end - begin,
{
    if end > begin {
        lemma_count_less_increases(buf, begin, end - 1, a, b);
    }
}

/// A longer range has no fewer positions with a hash, and one more if it
/// reaches beyond a position with that hash.
pub proof fn lemma_count_hash_increases(buf: Seq<u8>, begin: int, p: int, q: int, h: int)
    requires
        begin <= p <= q,
    ensures
        count_hash(buf, begin, p, h) <= count_hash(buf, begin, q, h),
        p < q && pair_hash(buf, p) == h ==> count_hash(buf, begin, p, h) < count_hash(
            buf,
            begin,
            q,
            h,
        ),
    decreases q - p,
{
    if p < q {
        lemma_count_hash_increases(buf, begin, p, q - 1, h);
    }
}

impl ImplodeState {
    /// Position behind the last one that the hash index covers.
    pub open spec fn index_last(&self) -> int {
        self.index_begin + self.index_len
    }

    /// The hash index lists every position that it covers: the entries of
    /// each hash start where `phash_to_index` says, and each of them holds
    /// a position with that hash at its place.
    pub open spec fn index_wf(&self) -> bool {
        &&& self.index_len > 0 ==> self.index_begin + self.index_len < 0x2204
        &&& forall|h: int|
            0 <= h < 0x900 ==> #[trigger] self.phash_to_index[h] == count_less(
                self.work_buff@,
                self.index_begin as int,
                self.index_last(),
                h,
            )
        &&& forall|h: int, k: int|
            0 <= h < 0x900 && count_less(
                self.work_buff@,
                self.index_begin as int,
                self.index_last(),
                h,
            ) <= k < count_less(self.work_buff@, self.index_begin as int, self.index_last(), h + 1)
                ==> #[trigger] entry_ok(
                self.work_buff@,
                self.phash_offs@,
                self.index_begin as int,
                self.index_last(),
                self.index_begin as int,
                h,
                k,
            )
    }

    /// The hash index depends on the work buffer and on its own fields
    /// only.
    pub proof fn lemma_index_frame(&self, other: ImplodeState)
        requires
            self.index_wf(),
            other.work_buff == self.work_buff,
            other.phash_to_index == self.phash_to_index,
            other.phash_offs == self.phash_offs,
            other.index_begin == self.index_begin,
            other.index_len == self.index_len,
        ensures
            other.index_wf(),
    {
        assert forall|h: int, k: int|
            0 <= h < 0x900 && count_less(
                other.work_buff@,
                other.index_begin as int,
                other.index_last(),
                h,
            ) <= k < count_less(
                other.work_buff@,
                other.index_begin as int,
                other.index_last(),
                h + 1,
            ) implies #[trigger] entry_ok(
            other.work_buff@,
            other.phash_offs@,
            other.index_begin as int,
            other.index_last(),
            other.index_begin as int,
            h,
            k,
        ) by {
            assert(entry_ok(
                self.work_buff@,
                self.phash_offs@,
                self.index_begin as int,
                self.index_last(),
                self.index_begin as int,
                h,
                k,
            ));
        }
    }

    /// Every covered position stands in the index, among the entries of
    /// its hash.
    pub proof fn lemma_index_complete(&self, q: int)
        requires
            self.index_wf(),
            self.index_begin <= q < self.index_last(),
        ensures
            ({
                let buf = self.work_buff@;
                let h = pair_hash(buf, q);
                let k = slot_of(buf, self.index_begin as int, self.index_last(), q);
                &&& 0 <= h < 0x900
                &&& count_less(buf, self.index_begin as int, self.index_last(), h) <= k
                    < count_less(buf, self.index_begin as int, self.index_last(), h + 1)
                &&& 0 <= k < self.index_len
                &&& self.index_begin + self.phash_offs[k] == q
            }),
    {
        let buf = self.work_buff@;
        let begin = self.index_begin as int;
        let last = self.index_last();
        let h = pair_hash(buf, q);
        let k = slot_of(buf, begin, last, q);
        lemma_count_basics(buf, begin, last, h);
        lemma_count_basics(buf, begin, q, h);
        lemma_count_hash_increases(buf, begin, q, last, h);
        assert(entry_ok(buf, self.phash_offs@, begin, last, begin, h, k));
        let p = begin + self.phash_offs[k];
        if p < q {
            lemma_count_hash_increases(buf, begin, p, q, h);
        } else if q < p {
            lemma_count_hash_increases(buf, begin, q, p, h);
        }
    }

    /// Builds the hash index of the positions `buffer_begin..buffer_end -
    /// 1` of the work buffer, by counting: count each hash, add the counts
    /// up to the end of each hash's entries, then walk the positions
    /// backwards and put each before the entries of its hash that are
    /// already there. A range that ends behind the work buffer is cut off
    /// there; a range without a byte pair leaves the index as it was.
    pub fn sort_buffer(&mut self, buffer_begin: usize, buffer_end: usize)
        requires
            old(self).index_wf(),
        ensures
            final(self).index_wf(),
            ({
                let end = if buffer_end < 0x2204 {
                    buffer_end as int
                } else {
                    0x2204
                };
                if end <= buffer_begin + 1 {
                    *final(self) == *old(self)
                } else {
                    &&& final(self).index_begin == buffer_begin
                    &&& final(self).index_len == end - 1 - buffer_begin
                    &&& *final(self) == (ImplodeState {
                        phash_to_index: final(self).phash_to_index,
                        phash_offs: final(self).phash_offs,
                        index_begin: final(self).index_begin,
                        index_len: final(self).index_len,
                        ..*old(self)
                    })
                }
            }),
    {
        let end = if buffer_end < 0x2204 {
            buffer_end
        } else {
            0x2204
        };
        if buffer_begin >= 0x2204 || end <= buffer_begin + 1 {
            return ;
        }
        let last = end - 1;
        let ghost buf = self.work_buff@;
        let ghost begin = buffer_begin as int;
        self.phash_to_index = [0u16; 0x900];
        let mut pos = buffer_begin;
        while pos < last
            invariant
                buffer_begin <= pos <= last < 0x2204,
                begin == buffer_begin,
                buf == self.work_buff@,
                forall|h: int|
                    0 <= h < 0x900 ==> #[trigger] self.phash_to_index[h] == count_hash(
                        buf,
                        begin,
                        pos as int,
                        h,
                    ),
                *self == (ImplodeState { phash_to_index: self.phash_to_index, ..*old(self) }),
            decreases last - pos,
        {
            let hash = (self.work_buff[pos] as usize) * 4 + (self.work_buff[pos + 1] as usize) * 5;
            proof {
                lemma_count_basics(buf, begin, pos as int, hash as int);
            }
            self.phash_to_index[hash] = self.phash_to_index[hash] + 1;
            pos = pos + 1;
        }
        let mut total_sum: u16 = 0;
        let mut hash: usize = 0;
        proof {
            lemma_count_basics(buf, begin, last as int, 0);
        }
        while hash < 0x900
            invariant
                hash <= 0x900,
                buffer_begin < last < 0x2204,
                begin == buffer_begin,
                buf == self.work_buff@,
                total_sum == count_less(buf, begin, last as int, hash as int),
                forall|h: int|
                    0 <= h < hash ==> #[trigger] self.phash_to_index[h] == count_less(
                        buf,
                        begin,
                        last as int,
                        h + 1,
                    ),
                forall|h: int|
                    hash <= h < 0x900 ==> #[trigger] self.phash_to_index[h] == count_hash(
                        buf,
                        begin,
                        last as int,
                        h,
                    ),
                *self == (ImplodeState { phash_to_index: self.phash_to_index, ..*old(self) }),
            decreases 0x900 - hash,
        {
            proof {
                lemma_count_basics(buf, begin, last as int, hash as int);
                lemma_count_basics(buf, begin, last as int, hash as int + 1);
            }
            total_sum = total_sum + self.phash_to_index[hash];
            self.phash_to_index[hash] = total_sum;
            hash = hash + 1;
        }
        let mut pos = last;
        proof {
            assert forall|h: int| 0 <= h < 0x900 implies #[trigger] self.phash_to_index[h]
                == count_less(buf, begin, last as int, h) + count_hash(
                buf,
                begin,
                pos as int,
                h,
            ) by {
                lemma_count_basics(buf, begin, last as int, h);
            }
        }
        while pos > buffer_begin
            invariant
                buffer_begin <= pos <= last < 0x2204,
                begin == buffer_begin,
                buf == self.work_buff@,
                forall|h: int|
                    0 <= h < 0x900 ==> #[trigger] self.phash_to_index[h] == count_less(
                        buf,
                        begin,
                        last as int,
                        h,
                    ) + count_hash(buf, begin, pos as int, h),
                forall|h: int, k: int|
                    0 <= h < 0x900 && self.phash_to_index[h] <= k < count_less(
                        buf,
                        begin,
                        last as int,
                        h + 1,
                    ) ==> #[trigger] entry_ok(
                        buf,
                        self.phash_offs@,
                        begin,
                        last as int,
                        pos as int,
                        h,
                        k,
                    ),
                *self == (ImplodeState {
                    phash_to_index: self.phash_to_index,
                    phash_offs: self.phash_offs,
                    ..*old(self)
                }),
            decreases pos,
        {
            pos = pos - 1;
            let hash = (self.work_buff[pos] as usize) * 4 + (self.work_buff[pos + 1] as usize) * 5;
            let ghost before = *self;
            proof {
                lemma_count_basics(buf, begin, last as int, hash as int);
                lemma_count_basics(buf, begin, pos as int, hash as int);
                lemma_count_hash_increases(buf, begin, pos as int, last as int, hash as int);
                assert(count_hash(buf, begin, pos + 1, hash as int) == count_hash(
                    buf,
                    begin,
                    pos as int,
                    hash as int,
                ) + 1);
            }
            let slot = self.phash_to_index[hash] - 1;
            self.phash_to_index[hash] = slot;
            self.phash_offs[slot as usize] = (pos - buffer_begin) as u16;
            proof {
                assert forall|h: int, k: int|
                    0 <= h < 0x900 && self.phash_to_index[h] <= k < count_less(
                        buf,
                        begin,
                        last as int,
                        h + 1,
                    ) implies #[trigger] entry_ok(
                    buf,
                    self.phash_offs@,
                    begin,
                    last as int,
                    pos as int,
                    h,
                    k,
                ) by {
                    lemma_count_basics(buf, begin, last as int, h);
                    lemma_count_basics(buf, begin, pos as int, h);
                    lemma_count_basics(buf, begin, pos + 1, h);
                    assert(before.phash_to_index[h] == count_less(buf, begin, last as int, h)
                        + count_hash(buf, begin, pos + 1, h));
                    if h == hash {
                        if k != slot {
                            assert(self.phash_offs@[k] == before.phash_offs@[k]);
                            assert(entry_ok(
                                buf,
                                before.phash_offs@,
                                begin,
                                last as int,
                                pos + 1,
                                h,
                                k,
                            ));
                        }
                    } else {
                        if h < hash {
                            lemma_count_less_increases(buf, begin, last as int, h + 1, hash as int);
                        } else {
                            lemma_count_less_increases(buf, begin, last as int, hash + 1, h);
                        }
                        assert(k != slot);
                        assert(self.phash_offs@[k] == before.phash_offs@[k]);
                        assert(self.phash_to_index[h] == before.phash_to_index[h]);
                        assert(entry_ok(
                            buf,
                            before.phash_offs@,
                            begin,
                            last as int,
                            pos + 1,
                            h,
                            k,
                        ));
                    }
                }
            }
        }
        self.index_begin = buffer_begin;
        self.index_len = last - buffer_begin;
        proof {
            assert forall|h: int| 0 <= h < 0x900 implies #[trigger] self.phash_to_index[h]
                == count_less(buf, begin, last as int, h) by {
                lemma_count_basics(buf, begin, begin, h);
            }
        }
    }

    /// The entries of one hash stand in the order of their positions.
    pub proof fn lemma_index_sorted(&self, h: int, k1: int, k2: int)
        requires
            self.index_wf(),
            0 <= h < 0x900,
            count_less(self.work_buff@, self.index_begin as int, self.index_last(), h) <= k1 < k2
                < count_less(self.work_buff@, self.index_begin as int, self.index_last(), h + 1),
        ensures
            self.phash_offs[k1] < self.phash_offs[k2],
    {
        let buf = self.work_buff@;
        let begin = self.index_begin as int;
        let last = self.index_last();
        assert(entry_ok(buf, self.phash_offs@, begin, last, begin, h, k1));
        assert(entry_ok(buf, self.phash_offs@, begin, last, begin, h, k2));
        let earlier = begin + self.phash_offs[k1];
        let later = begin + self.phash_offs[k2];
        if earlier >= later {
            lemma_count_hash_increases(buf, begin, later, earlier, h);
        }
    }

    /// Position `q` is one that a search from `current_pos` for the hash
    /// `hash` is to look at: the index covers it, its pair has that hash,
    /// and it lies before `current_pos`, at most a dictionary back.
    pub open spec fn is_candidate(&self, hash: int, current_pos: int, q: int) -> bool {
        &&& self.index_begin <= q < self.index_last()
        &&& pair_hash(self.work_buff@, q) == hash
        &&& q < current_pos
        &&& current_pos - q <= self.dsize_bytes
    }

    /// Index in `phash_offs` behind the entries of `hash`.
    fn bucket_end(&self, hash: usize) -> (end: usize)
        requires
            self.index_wf(),
            hash < 0x900,
        ensures
            end == count_less(
                self.work_buff@,
                self.index_begin as int,
                self.index_last(),
                hash + 1,
            ),
            self.phash_to_index[hash as int] <= end <= self.index_len,
    {
        proof {
            lemma_count_basics(
                self.work_buff@,
                self.index_begin as int,
                self.index_last(),
                hash as int,
            );
            lemma_count_basics(
                self.work_buff@,
                self.index_begin as int,
                self.index_last(),
                hash as int + 1,
            );
        }
        if hash + 1 < 0x900 {
            self.phash_to_index[hash + 1] as usize
        } else {
            self.index_len
        }
    }

    /// The index in `phash_offs` of the first entry of `hash`, if the index
    /// holds a position with that hash.
    pub fn get_hash_index(&self, hash: usize) -> (result: Option<usize>)
        requires
            self.index_wf(),
        ensures
            result == if hash < 0x900 && count_hash(
                self.work_buff@,
                self.index_begin as int,
                self.index_last(),
                hash as int,
            ) > 0 {
                Some(
                    count_less(
                        self.work_buff@,
                        self.index_begin as int,
                        self.index_last(),
                        hash as int,
                    ) as usize,
                )
            } else {
                None::<usize>
            },
    {
        if hash < 0x900 {
            proof {
                lemma_count_basics(
                    self.work_buff@,
                    self.index_begin as int,
                    self.index_last(),
                    hash as int,
                );
            }
            let index = self.phash_to_index[hash] as usize;
            if index < self.bucket_end(hash) {
                Some(index)
            } else {
                None
            }
        } else {
            None
        }
    }

    /// The position, relative to the start of the indexed range, that
    /// entry `index` of the hash index holds.
    pub fn get_hash_offset(&self, index: usize) -> (result: Option<usize>)
        requires
            self.index_len <= 0x2204,
        ensures
            result == if index < self.index_len {
                Some(self.phash_offs[index as int] as usize)
            } else {
                None::<usize>
            },
    {
        if index < self.index_len {
            Some(self.phash_offs[index] as usize)
        } else {
            None
        }
    }

    /// The positions before `current_pos`, at most a dictionary back, whose
    /// pair has the hash `hash`, in ascending order.
    pub fn find_hash_positions(&self, hash: usize, current_pos: usize) -> (positions: Vec<usize>)
        requires
            self.index_wf(),
        ensures
            forall|i: int|
                0 <= i < positions.len() ==> self.is_candidate(
                    hash as int,
                    current_pos as int,
                    #[trigger] positions[i] as int,
                ),
            forall|q: int|
                self.is_candidate(hash as int, current_pos as int, q) ==> exists|i: int|
                    0 <= i < positions.len() && #[trigger] positions[i] == q,
            forall|i: int, j: int|
                0 <= i < j < positions.len() ==> #[trigger] positions[i] < #[trigger] positions[j],
    {
        let mut positions: Vec<usize> = Vec::new();
        if hash >= 0x900 {
            proof {
                assert forall|q: int|
                    self.is_candidate(hash as int, current_pos as int, q) implies false by {
                    self.lemma_index_complete(q);
                }
            }
            return positions;
        }
        let start = self.phash_to_index[hash] as usize;
        let end = self.bucket_end(hash);
        let ghost buf = self.work_buff@;
        let ghost begin = self.index_begin as int;
        let ghost last = self.index_last();
        let mut k = start;
        while k < end
            invariant
                self.index_wf(),
                hash < 0x900,
                buf == self.work_buff@,
                begin == self.index_begin,
                last == self.index_last(),
                start == count_less(buf, begin, last, hash as int),
                end == count_less(buf, begin, last, hash + 1),
                start <= k <= end <= self.index_len,
                forall|i: int|
                    0 <= i < positions.len() ==> self.is_candidate(
                        hash as int,
                        current_pos as int,
                        #[trigger] positions[i] as int,
                    ),
                forall|i: int|
                    0 <= i < positions.len() ==> exists|m: int|
                        start <= m < k && #[trigger] positions[i] == begin + #[trigger] self.phash_offs[m],
                forall|m: int|
                    start <= m < k && self.is_candidate(
                        hash as int,
                        current_pos as int,
                        begin + #[trigger] self.phash_offs[m],
                    ) ==> exists|i: int|
                        0 <= i < positions.len() && #[trigger] positions[i] == begin
                            + self.phash_offs[m],
                forall|i: int, j: int|
                    0 <= i < j < positions.len() ==> #[trigger] positions[i] < #[trigger] positions[j],
            decreases end - k,
        {
            proof {
                assert(entry_ok(buf, self.phash_offs@, begin, last, begin, hash as int, k as int));
            }
            let q = self.index_begin + self.phash_offs[k] as usize;
            if q < current_pos && current_pos - q <= self.dsize_bytes as usize {
                let ghost before = positions@;
                proof {
                    assert forall|i: int| 0 <= i < before.len() implies #[trigger] before[i]
                        < q by {
                        let m = choose|m: int|
                            start <= m < k && before[i] == begin + #[trigger] self.phash_offs[m];
                        self.lemma_index_sorted(hash as int, m, k as int);
                    }
                }
                positions.push(q);
                proof {
                    assert(positions[before.len() as int] == begin + self.phash_offs[k as int]);
                    assert forall|i: int| 0 <= i < positions.len() implies exists|m: int|
                        start <= m < k + 1 && #[trigger] positions[i] == begin
                            + #[trigger] self.phash_offs[m] by {
                        if i < before.len() {
                            let m = choose|m: int|
                                start <= m < k && before[i] == begin
                                    + #[trigger] self.phash_offs[m];
                            assert(positions[i] == begin + self.phash_offs[m]);
                        }
                    }
                    assert forall|m: int|
                        start <= m < k + 1 && self.is_candidate(
                            hash as int,
                            current_pos as int,
                            begin + #[trigger] self.phash_offs[m],
                        ) implies exists|i: int|
                        0 <= i < positions.len() && #[trigger] positions[i] == begin
                            + self.phash_offs[m] by {
                        if m < k {
                            let i = choose|i: int|
                                0 <= i < before.len() && #[trigger] before[i] == begin
                                    + self.phash_offs[m];
                            assert(positions[i] == before[i]);
                        }
                    }
                }
            }
            k = k + 1;
        }
        proof {
            assert forall|q: int|
                self.is_candidate(hash as int, current_pos as int, q) implies exists|i: int|
                0 <= i < positions.len() && #[trigger] positions[i] == q by {
                self.lemma_index_complete(q);
                let m = slot_of(buf, begin, last, q);
                assert(begin + self.phash_offs[m] == q);
            }
        }
        positions
    }

    /// Whether every start in `phash_to_index` lies inside `phash_offs`,
    /// and every entry of `phash_offs` other than 0 lies in
    /// `buffer_start..buffer_end`.
    pub fn validate_hash_table(&self, buffer_start: usize, buffer_end: usize) -> (valid: bool)
        ensures
            valid <==> (forall|h: int| 0 <= h < 0x900 ==> #[trigger] self.phash_to_index[h] < 0x2204)
                && (forall|k: int|
                0 <= k < 0x2204 && #[trigger] self.phash_offs[k] != 0 ==> buffer_start
                    <= self.phash_offs[k] < buffer_end),
    {
        let mut h: usize = 0;
        while h < 0x900
            invariant
                h <= 0x900,
                forall|i: int| 0 <= i < h ==> #[trigger] self.phash_to_index[i] < 0x2204,
            decreases 0x900 - h,
        {
            if self.phash_to_index[h] as usize >= 0x2204 {
                return false;
            }
            h = h + 1;
        }
        let mut k: usize = 0;
        while k < 0x2204
            invariant
                k <= 0x2204,
                forall|i: int|
                    0 <= i < k && #[trigger] self.phash_offs[i] != 0 ==> buffer_start
                        <= self.phash_offs[i] < buffer_end,
            decreases 0x2204 - k,
        {
            let offset = self.phash_offs[k] as usize;
            if offset != 0 && (offset < buffer_start || offset >= buffer_end) {
                return false;
            }
            k = k + 1;
        }
        true
    }
}

} // verus!
