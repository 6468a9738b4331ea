//! Reading bits and tokens from the stream.

use crate::bits::{
    bits_of_bytes, lemma_bits_split, lemma_le_value_byte, lemma_skip_skip, low_bits, power_of_two,
    shift_right,
};
use crate::common::CompressionMode;
use crate::explode::model::{
    can_waste, decode_distance, decode_literal, lemma_ascii_table_ranges, lemma_inverse_slot_range,
    lemma_length_table_ranges, LITERAL_ERROR,
};
use crate::explode::state::ExplodeState;
use crate::tables::{DIST_BITS, DIST_CODE, LEN_BITS, LEN_CODE};
use vstd::arithmetic::power2::{lemma2_to64, lemma_pow2_pos, pow2};
use vstd::prelude::*;

verus! {

/// The bits were dropped.
pub const PKDCL_OK: u32 = 0;

/// The input ended before the bits could be dropped.
pub const PKDCL_STREAM_END: u32 = 1;

/// Loading a byte behind the eight bits that remain in hand and dropping
/// the rest of `n` bits leaves the next bits of the stream in hand.
pub proof fn lemma_refill(v: nat, e: nat, n: nat, byte: nat)
    requires
        e < n <= 8,
        (v / pow2(e + 8)) % 256 == byte,
    ensures
        (v % pow2(8 + e)) / pow2(e) < 256,
        ((v % pow2(8 + e)) / pow2(e) + byte * 256) / pow2((n - e) as nat) == (v / pow2(n)) % pow2(
            (16 + e - n) as nat,
        ),
{
    lemma2_to64();
    let w = v / pow2(e);
    lemma_bits_split(v, e, 8);
    assert(8 + e == e + 8);
    assert((v % pow2(8 + e)) / pow2(e) == w % 256);
    assert(w / 256 == v / pow2(e + 8));
    lemma_bits_split(w, 8, 8);
    assert(w % pow2(16) == w % 256 + 256 * ((w / 256) % 256));
    let k = (n - e) as nat;
    lemma_bits_split(w, k, (16 - k) as nat);
    assert(k + (16 - k) as nat == 16);
    lemma_bits_split(v, e, k);
    assert(e + k == n);
}

impl ExplodeState {
    /// The first `k` bits in hand are the next `k` bits of the stream.
    pub proof fn lemma_peek(&self, input: Seq<u8>, k: nat)
        requires
            self.reader_wf(input),
            k <= 8,
        ensures
            self.bit_buff as nat % pow2(k) == self.rest(input).low(k),
            self.rest(input).len == 8 * (input.len() - self.in_pos) + 8 + self.extra_bits,
    {
        lemma_bits_split(self.rest(input).value, k, (8 + self.extra_bits - k) as nat);
        assert(k + (8 + self.extra_bits - k) as nat == 8 + self.extra_bits);
    }

    /// Drops `n_bits` bits from the stream, loading the next byte of the
    /// input when fewer than eight bits would stay in hand. Returns
    /// `PKDCL_OK`, or `PKDCL_STREAM_END` when that byte is not there; the
    /// state is then unchanged.
    pub fn waste_bits(&mut self, input: &[u8], n_bits: u32) -> (status: u32)
        requires
            old(self).reader_wf(input@),
            n_bits <= 8,
        ensures
            can_waste(old(self).rest(input@), n_bits as int) ==> status == PKDCL_OK && final(self).reader_wf(input@) && final(self).rest(input@) == old(self).rest(input@).skip(
                n_bits as nat,
            ),
            !can_waste(old(self).rest(input@), n_bits as int) ==> status == PKDCL_STREAM_END
                && *final(self) == *old(self),
            *final(self) == (ExplodeState {
                bit_buff: final(self).bit_buff,
                extra_bits: final(self).extra_bits,
                in_pos: final(self).in_pos,
                ..*old(self)
            }),
    {
        let ghost stream = bits_of_bytes(input@.skip(2));
        let ghost v = old(self).rest(input@).value;
        let ghost e = self.extra_bits as nat;
        proof {
            self.lemma_peek(input@, 0);
            lemma2_to64();
        }
        if n_bits <= self.extra_bits {
            proof {
                lemma_bits_split(v, n_bits as nat, (8 + e - n_bits) as nat);
                assert(n_bits as nat + (8 + e - n_bits) as nat == 8 + e);
                lemma_skip_skip(stream, self.consumed() as nat, n_bits as nat);
            }
            self.extra_bits = self.extra_bits - n_bits;
            self.bit_buff = shift_right(self.bit_buff, n_bits);
            return PKDCL_OK;
        }
        if self.in_pos >= input.len() {
            return PKDCL_STREAM_END;
        }
        let byte = input[self.in_pos] as u32;
        proof {
            lemma_le_value_byte(input@.skip(2), self.in_pos - 2);
            lemma_bits_split(stream.value, self.consumed() as nat, e + 8);
            assert(self.consumed() as nat + (e + 8) == 8 * (self.in_pos - 2));
            assert((v / pow2(e + 8)) % 256 == byte);
            lemma_refill(v, e, n_bits as nat, byte as nat);
            lemma_skip_skip(stream, self.consumed() as nat, n_bits as nat);
        }
        let kept = shift_right(self.bit_buff, self.extra_bits);
        let loaded = kept + byte * 256;
        self.in_pos = self.in_pos + 1;
        self.bit_buff = shift_right(loaded, n_bits - self.extra_bits);
        self.extra_bits = self.extra_bits + 8 - n_bits;
        PKDCL_OK
    }

    /// Reads the next literal, length value or end marker: a byte below
    /// 0x100, a length value from 0x100 (the repetition has that many bytes
    /// less 0xFE), 0x305 at the end of the stream, and 0x306 when the input
    /// ended inside the token.
    pub fn decode_lit(&mut self, input: &[u8]) -> (value: u32)
        requires
            old(self).reader_wf(input@),
            old(self).tables_wf(),
        ensures
            value == decode_literal(old(self).ctype, old(self).rest(input@)).value,
            value != 0x305 && value != 0x306 ==> final(self).reader_wf(input@) && final(self).rest(input@) == decode_literal(old(self).ctype, old(self).rest(input@)).rest,
            *final(self) == (ExplodeState {
                bit_buff: final(self).bit_buff,
                extra_bits: final(self).extra_bits,
                in_pos: final(self).in_pos,
                ..*old(self)
            }),
    {
        let ghost s = self.rest(input@);
        proof {
            self.lemma_peek(input@, 1);
            lemma2_to64();
        }
        let flag = low_bits(self.bit_buff, 1);
        if self.waste_bits(input, 1) != PKDCL_OK {
            return LITERAL_ERROR;
        }
        let ghost s0 = s.skip(1);
        proof {
            self.lemma_peek(input@, 8);
            self.lemma_peek(input@, 7);
            self.lemma_peek(input@, 6);
        }
        let low8 = low_bits(self.bit_buff, 8);
        if flag != 0 {
            proof {
                lemma_length_table_ranges();
                lemma_inverse_slot_range(LEN_CODE@, LEN_BITS@, 16, low8 as int, 0);
            }
            let length_code = self.length_codes[low8 as usize] as usize;
            if self.waste_bits(input, self.len_bits[length_code] as u32) != PKDCL_OK {
                return LITERAL_ERROR;
            }
            let extra_length_bits = self.ex_len_bits[length_code] as u32;
            let mut final_length_code = length_code as u32;
            if extra_length_bits != 0 {
                proof {
                    self.lemma_peek(input@, extra_length_bits as nat);
                }
                let extra_length = low_bits(self.bit_buff, extra_length_bits);
                if self.waste_bits(input, extra_length_bits) != PKDCL_OK && length_code as u32
                    + extra_length != 0x10E {
                    return LITERAL_ERROR;
                }
                final_length_code = self.len_base[length_code] as u32 + extra_length;
            }
            return final_length_code + 0x100;
        }
        if matches!(self.ctype, CompressionMode::Binary) {
            if self.waste_bits(input, 8) != PKDCL_OK {
                return LITERAL_ERROR;
            }
            return low8;
        }
        proof {
            lemma_ascii_table_ranges();
        }
        let value = if low8 != 0 {
            let mut val = self.offs_2c34[low8 as usize];
            if val == 0xFF {
                if low_bits(self.bit_buff, 6) != 0 {
                    if self.waste_bits(input, 4) != PKDCL_OK {
                        return LITERAL_ERROR;
                    }
                    proof {
                        self.lemma_peek(input@, 8);
                    }
                    val = self.offs_2d34[low_bits(self.bit_buff, 8) as usize];
                } else {
                    if self.waste_bits(input, 6) != PKDCL_OK {
                        return LITERAL_ERROR;
                    }
                    proof {
                        self.lemma_peek(input@, 7);
                    }
                    val = self.offs_2e34[low_bits(self.bit_buff, 7) as usize];
                }
            }
            val
        } else {
            if self.waste_bits(input, 8) != PKDCL_OK {
                return LITERAL_ERROR;
            }
            proof {
                self.lemma_peek(input@, 8);
            }
            self.offs_2eb4[low_bits(self.bit_buff, 8) as usize]
        };
        if self.waste_bits(input, self.ch_bits_asc[value as usize] as u32) != PKDCL_OK {
            LITERAL_ERROR
        } else {
            value as u32
        }
    }

    /// Reads the distance of a repetition of `rep_length` bytes. Returns
    /// the distance, at least one, or 0 when the input ended inside it.
    pub fn decode_dist(&mut self, input: &[u8], rep_length: u32) -> (distance: u32)
        requires
            old(self).reader_wf(input@),
            old(self).tables_wf(),
        ensures
            distance == decode_distance(
                old(self).dsize_bits as int,
                rep_length as int,
                old(self).rest(input@),
            ).value,
            distance != 0 ==> final(self).reader_wf(input@) && final(self).rest(input@)
                == decode_distance(
                old(self).dsize_bits as int,
                rep_length as int,
                old(self).rest(input@),
            ).rest,
            *final(self) == (ExplodeState {
                bit_buff: final(self).bit_buff,
                extra_bits: final(self).extra_bits,
                in_pos: final(self).in_pos,
                ..*old(self)
            }),
    {
        proof {
            self.lemma_peek(input@, 8);
            lemma2_to64();
            lemma_inverse_slot_range(
                DIST_CODE@,
                DIST_BITS@,
                64,
                self.rest(input@).low(8) as int,
                0,
            );
            assert(forall|i: int| 0 <= i < 64 ==> #[trigger] DIST_BITS[i] <= 8);
        }
        let dist_pos_code = self.dist_pos_codes[low_bits(self.bit_buff, 8) as usize] as u32;
        let dist_pos_bits = self.dist_bits[dist_pos_code as usize] as u32;
        if self.waste_bits(input, dist_pos_bits) != PKDCL_OK {
            return 0;
        }
        let low_count: u32 = if rep_length == 2 {
            2
        } else {
            self.dsize_bits
        };
        proof {
            self.lemma_peek(input@, low_count as nat);
            lemma_pow2_pos(low_count as nat);
            assert(dist_pos_code * pow2(low_count as nat) <= 63 * 64) by (nonlinear_arith)
                requires
                    dist_pos_code <= 63,
                    pow2(low_count as nat) <= 64,
            ;
        }
        let low = low_bits(self.bit_buff, low_count);
        let distance = dist_pos_code * power_of_two(low_count) + low;
        if self.waste_bits(input, low_count) != PKDCL_OK {
            return 0;
        }
        distance + 1
    }
}

} // verus!
