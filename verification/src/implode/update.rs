//! Extending the hash index by the position behind it.

use crate::implode::hash::{
    count_hash, count_less, entry_ok, lemma_count_basics, lemma_count_less_increases, pair_hash,
};
use crate::implode::state::ImplodeState;
use vstd::prelude::*;

verus! {

/// The counts of a range that is one position longer: the position counts
/// for its own hash, and as one below for every greater hash.
pub proof fn lemma_count_one_more(buf: Seq<u8>, begin: int, last: int, h: int)
    requires
        begin <= last,
    ensures
        count_less(buf, begin, last + 1, h) == count_less(buf, begin, last, h) + if pair_hash(
            buf,
            last,
        ) < h {
            1int
        } else {
            0int
        },
        count_hash(buf, begin, last + 1, h) == count_hash(buf, begin, last, h) + if pair_hash(
            buf,
            last,
        ) == h {
            1int
        } else {
            0int
        },
{
}

impl ImplodeState {
    /// Whether `update_hash_incremental` takes `pos` into the index: it is
    /// the position behind those that the index covers, and a byte pair
    /// starts there.
    pub open spec fn extends_index(&self, pos: int) -> bool {
        pos == self.index_begin + self.index_len && pos + 1 < 0x2204
    }

    /// Takes the position `pos` into the hash index, if it is the position
    /// behind those that the index covers and a byte pair starts there: it
    /// becomes the last entry of its hash, and the entries of the greater
    /// hashes move up by one. For any other position the index stays as it
    /// is.
    #[verifier::loop_isolation(false)]
    pub fn update_hash_incremental(&mut self, pos: usize)
        requires
            old(self).index_wf(),
        ensures
            final(self).index_wf(),
            old(self).extends_index(pos as int) ==> {
                &&& final(self).index_begin == old(self).index_begin
                &&& final(self).index_len == old(self).index_len + 1
                &&& *final(self) == (ImplodeState {
                    phash_to_index: final(self).phash_to_index,
                    phash_offs: final(self).phash_offs,
                    index_len: final(self).index_len,
                    ..*old(self)
                })
            },
            !old(self).extends_index(pos as int) ==> *final(self) == *old(self),
    {
        if pos >= 0x2203 || self.index_begin > pos || pos - self.index_begin != self.index_len {
            return ;
        }
        let hash = (self.work_buff[pos] as usize) * 4 + (self.work_buff[pos + 1] as usize) * 5;
        let ghost buf = self.work_buff@;
        let ghost begin = self.index_begin as int;
        let ghost last = pos as int;
        let ghost before = *self;
        proof {
            lemma_count_basics(buf, begin, last, hash as int);
            lemma_count_basics(buf, begin, last, hash as int + 1);
            lemma_count_basics(buf, begin, last, 0x900);
            lemma_count_less_increases(buf, begin, last, hash as int + 1, 0x900);
        }
        let end: usize = if hash + 1 < 0x900 {
            self.phash_to_index[hash + 1] as usize
        } else {
            self.index_len
        };
        let mut j = self.index_len;
        while j > end
            invariant
                end <= j <= before.index_len,
                before.index_len + 1 < 0x2204,
                forall|k: int| 0 <= k <= j ==> #[trigger] self.phash_offs[k] == before.phash_offs[k],
                forall|k: int|
                    j < k <= before.index_len ==> #[trigger] self.phash_offs[k]
                        == before.phash_offs[k - 1],
                forall|k: int|
                    before.index_len < k < 0x2204 ==> #[trigger] self.phash_offs[k]
                        == before.phash_offs[k],
                *self == (ImplodeState { phash_offs: self.phash_offs, ..before }),
            decreases j,
        {
            self.phash_offs[j] = self.phash_offs[j - 1];
            j = j - 1;
        }
        self.phash_offs[end] = (pos - self.index_begin) as u16;
        let ghost shifted = self.phash_offs;
        let mut h = hash + 1;
        while h < 0x900
            invariant
                hash < h <= 0x900,
                before.index_wf(),
                buf == before.work_buff@,
                begin == before.index_begin,
                last == before.index_last(),
                last + 1 < 0x2204,
                forall|g: int|
                    0 <= g < h && g > hash ==> #[trigger] self.phash_to_index[g]
                        == before.phash_to_index[g] + 1,
                forall|g: int|
                    0 <= g < 0x900 && (g <= hash || g >= h) ==> #[trigger] self.phash_to_index[g]
                        == before.phash_to_index[g],
                self.phash_offs == shifted,
                *self == (ImplodeState {
                    phash_offs: self.phash_offs,
                    phash_to_index: self.phash_to_index,
                    ..before
                }),
            decreases 0x900 - h,
        {
            proof {
                lemma_count_basics(buf, begin, last, h as int);
            }
            self.phash_to_index[h] = self.phash_to_index[h] + 1;
            h = h + 1;
        }
        self.index_len = self.index_len + 1;
        proof {
            let offs = self.phash_offs@;
            assert(offs == shifted@);
            assert(offs[end as int] == pos - begin);
            assert(forall|k: int| 0 <= k < end ==> offs[k] == before.phash_offs@[k]);
            assert(forall|k: int|
                end < k <= before.index_len ==> offs[k] == before.phash_offs@[k - 1]);
            assert forall|g: int| 0 <= g < 0x900 implies #[trigger] self.phash_to_index[g]
                == count_less(buf, begin, last + 1, g) by {
                lemma_count_one_more(buf, begin, last, g);
            }
            assert forall|g: int, k: int|
                0 <= g < 0x900 && count_less(buf, begin, last + 1, g) <= k < count_less(
                    buf,
                    begin,
                    last + 1,
                    g + 1,
                ) implies #[trigger] entry_ok(buf, offs, begin, last + 1, begin, g, k) by {
                lemma_count_one_more(buf, begin, last, g);
                lemma_count_one_more(buf, begin, last, g + 1);
                lemma_count_basics(buf, begin, last, g);
                if g < hash {
                    lemma_count_less_increases(buf, begin, last, g + 1, hash as int + 1);
                    assert(entry_ok(buf, before.phash_offs@, begin, last, begin, g, k));
                    lemma_count_one_more(buf, begin, last, pair_hash(buf, begin + offs[k]));
                } else if g == hash {
                    if k < end {
                        assert(entry_ok(buf, before.phash_offs@, begin, last, begin, g, k));
                        lemma_count_one_more(buf, begin, last, g);
                    } else {
                        assert(k == end);
                        assert(begin + offs[k] == last);
                    }
                } else {
                    lemma_count_less_increases(buf, begin, last, hash as int + 1, g);
                    assert(entry_ok(buf, before.phash_offs@, begin, last, begin, g, k - 1));
                    assert(offs[k] == before.phash_offs@[k - 1]);
                }
            }
        }
    }
}

} // verus!
