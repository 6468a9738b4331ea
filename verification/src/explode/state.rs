//! The decompressor's state: the bit reader, the derived tables and the
//! output window.

use crate::bits::{bits_of_bytes, low_bits, power_of_two, shift_right, Bits};
use crate::common::{CompressionHeader, CompressionMode, DictionarySize, PkLibError};
use crate::explode::model::{
    ascii_enters, ascii_first_slot, ascii_lead_bits, ascii_long_slot, ascii_marks, ascii_route,
    ascii_tail_bits,
    ascii_tail_code, distance_slot, explode_spec, inverse_slot, lemma_ascii_table_ranges,
    length_slot, mode_of_byte,
};
use crate::tables::{
    CH_BITS_ASC, CH_CODE_ASC, DIST_BITS, DIST_CODE, EX_LEN_BITS, LEN_BASE, LEN_BITS, LEN_CODE,
};
use vstd::arithmetic::power2::{lemma2_to64, lemma_pow2_pos, pow2};
use vstd::prelude::*;

verus! {

/// State of one decompression.
#[derive(Debug)]
pub struct ExplodeState {
    /// Compression mode of the stream.
    pub ctype: CompressionMode,
    /// Index in `out_buff` behind the last byte of output.
    pub output_pos: usize,
    /// Lowest index in `out_buff` that holds output.
    pub window_start: usize,
    /// Number of raw low bits of a distance.
    pub dsize_bits: u32,
    /// Mask of `dsize_bits` bits.
    pub dsize_mask: u32,
    /// The bits in hand: the next `8 + extra_bits` bits of the stream.
    pub bit_buff: u32,
    /// Number of bits in hand beyond eight.
    pub extra_bits: u32,
    /// Index in the input of the next byte to load.
    pub in_pos: usize,
    /// Output window.
    pub out_buff: [u8; 0x2204],
    /// For every eight bits, the high part of the distance whose code starts
    /// them.
    pub dist_pos_codes: [u8; 0x100],
    /// For every eight bits, the length bucket whose code starts them.
    pub length_codes: [u8; 0x100],
    /// First ASCII table: byte values with a code of at most eight bits,
    /// and 0xFF where a longer code starts.
    pub offs_2c34: [u8; 0x100],
    /// Second ASCII table: long codes, looked up behind four bits.
    pub offs_2d34: [u8; 0x100],
    /// Third ASCII table: long codes, looked up behind six bits.
    pub offs_2e34: [u8; 0x80],
    /// Fourth ASCII table: long codes, looked up behind eight zero bits.
    pub offs_2eb4: [u8; 0x100],
    /// For every byte value, the bits of its ASCII code that remain once
    /// its table was read.
    pub ch_bits_asc: [u8; 0x100],
    /// Copy of the bit lengths of the distance codes.
    pub dist_bits: [u8; 0x40],
    /// Copy of the bit lengths of the length codes.
    pub len_bits: [u8; 0x10],
    /// Copy of the numbers of extra length bits.
    pub ex_len_bits: [u8; 0x10],
    /// Copy of the smallest length value of each bucket.
    pub len_base: [u16; 0x10],
}

/// Slot `x` lies in the class of `start` modulo `stride`.
pub open spec fn in_class(x: int, stride: int, start: int) -> bool {
    x % stride == start
}

/// Enters `value` into every slot of `table` whose low `bits` bits are
/// `start`.
pub fn fill_slots<const N: usize>(table: &mut [u8; N], start: u32, bits: u32, value: u8)
    requires
        bits <= 16,
        start < pow2(bits as nat),
        N <= 0x100,
    ensures
        forall|x: int|
            0 <= x < N ==> #[trigger] final(table)[x] == if x % (pow2(bits as nat) as int)
                == start {
                value
            } else {
                old(table)[x]
            },
{
    let stride = power_of_two(bits);
    let mut index: u32 = start;
    proof {
        lemma_pow2_pos(bits as nat);
        lemma2_to64();
        if bits < 16 {
            vstd::arithmetic::power2::lemma_pow2_strictly_increases(bits as nat, 16);
        }
        vstd::arithmetic::div_mod::lemma_small_mod(start as nat, stride as nat);
        assert forall|x: int| 0 <= x < start implies !#[trigger] in_class(
            x,
            stride as int,
            start as int,
        ) by {
            vstd::arithmetic::div_mod::lemma_small_mod(x as nat, stride as nat);
        }
    }
    while (index as usize) < N
        invariant
            stride == pow2(bits as nat),
            0 < stride <= 0x10000,
            start <= index <= 0x100 + stride,
            index as int % stride as int == start,
            N <= 0x100,
            forall|x: int|
                0 <= x < N ==> #[trigger] table[x] == if x < index && in_class(
                    x,
                    stride as int,
                    start as int,
                ) {
                    value
                } else {
                    old(table)[x]
                },
        decreases 0x10100 - index,
    {
        proof {
            vstd::arithmetic::div_mod::lemma_mod_add_multiples_vanish(
                index as int,
                stride as int,
            );
            assert forall|x: int|
                index <= x < index + stride && #[trigger] in_class(
                    x,
                    stride as int,
                    start as int,
                ) implies x == index by {
                vstd::arithmetic::div_mod::lemma_mod_equivalence(x, index as int, stride as int);
                vstd::arithmetic::div_mod::lemma_small_mod((x - index) as nat, stride as nat);
            }
        }
        table[index as usize] = value;
        index = index + stride;
    }
}

impl ExplodeState {
    /// Number of bits of the token stream that were consumed.
    pub open spec fn consumed(&self) -> int {
        8 * (self.in_pos - 3) - self.extra_bits
    }

    /// The part of the token stream of `input` that is still to be read.
    pub open spec fn rest(&self, input: Seq<u8>) -> Bits {
        bits_of_bytes(input.skip(2)).skip(self.consumed() as nat)
    }

    /// The bit reader stands inside `input`, and the bits in hand are the
    /// next bits of its token stream.
    pub open spec fn reader_wf(&self, input: Seq<u8>) -> bool {
        &&& 3 <= self.in_pos <= input.len()
        &&& self.extra_bits <= 7
        &&& self.consumed() >= 0
        &&& self.bit_buff == self.rest(input).low((8 + self.extra_bits) as nat)
    }

    /// The derived tables are the inverses of the fixed code tables.
    pub open spec fn tables_wf(&self) -> bool {
        &&& 4 <= self.dsize_bits <= 6
        &&& self.dsize_mask == pow2(self.dsize_bits as nat) - 1
        &&& self.dist_bits@ == DIST_BITS@
        &&& self.len_bits@ == LEN_BITS@
        &&& self.ex_len_bits@ == EX_LEN_BITS@
        &&& self.len_base@ == LEN_BASE@
        &&& forall|x: int| 0 <= x < 256 ==> #[trigger] self.length_codes[x] == length_slot(x)
        &&& forall|x: int| 0 <= x < 256 ==> #[trigger] self.dist_pos_codes[x] == distance_slot(x)
        &&& self.ctype == CompressionMode::ASCII ==> self.ascii_tables_wf()
    }

    /// The four ASCII tables and the remaining bit counts are those that
    /// the fixed ASCII code gives.
    pub open spec fn ascii_tables_wf(&self) -> bool {
        &&& forall|x: int| 0 <= x < 256 ==> #[trigger] self.offs_2c34[x] == ascii_first_slot(0, x)
        &&& forall|x: int|
            0 <= x < 256 ==> #[trigger] self.offs_2d34[x] == ascii_long_slot(1, 0, x)
        &&& forall|x: int|
            0 <= x < 128 ==> #[trigger] self.offs_2e34[x] == ascii_long_slot(2, 0, x)
        &&& forall|x: int|
            0 <= x < 256 ==> #[trigger] self.offs_2eb4[x] == ascii_long_slot(3, 0, x)
        &&& forall|v: int| 0 <= v < 256 ==> #[trigger] self.ch_bits_asc[v] == ascii_tail_bits(v)
    }

    /// A state that has read nothing: every table is zero and the window is
    /// empty.
    pub fn new() -> (state: ExplodeState)
        ensures
            state.ctype == CompressionMode::Binary,
            state.output_pos == 0x1000,
            state.window_start == 0x1000,
            state.dsize_bits == 0,
            state.bit_buff == 0,
            state.extra_bits == 0,
            state.in_pos == 0,
            state.dsize_mask == 0,
            forall|i: int| 0 <= i < 0x2204 ==> state.out_buff[i] == 0,
            forall|i: int|
                0 <= i < 0x100 ==> state.dist_pos_codes[i] == 0 && state.length_codes[i] == 0
                    && state.offs_2c34[i] == 0 && state.offs_2d34[i] == 0 && state.offs_2eb4[i]
                    == 0 && state.ch_bits_asc[i] == 0,
            forall|i: int| 0 <= i < 0x80 ==> state.offs_2e34[i] == 0,
            forall|i: int| 0 <= i < 0x40 ==> state.dist_bits[i] == 0,
            forall|i: int|
                0 <= i < 0x10 ==> state.len_bits[i] == 0 && state.ex_len_bits[i] == 0
                    && state.len_base[i] == 0,
    {
        ExplodeState {
            ctype: CompressionMode::Binary,
            output_pos: 0x1000,
            window_start: 0x1000,
            dsize_bits: 0,
            dsize_mask: 0,
            bit_buff: 0,
            extra_bits: 0,
            in_pos: 0,
            out_buff: [0u8; 0x2204],
            dist_pos_codes: [0u8; 0x100],
            length_codes: [0u8; 0x100],
            offs_2c34: [0u8; 0x100],
            offs_2d34: [0u8; 0x100],
            offs_2e34: [0u8; 0x80],
            offs_2eb4: [0u8; 0x100],
            ch_bits_asc: [0u8; 0x100],
            dist_bits: [0u8; 0x40],
            len_bits: [0u8; 0x10],
            ex_len_bits: [0u8; 0x10],
            len_base: [0u16; 0x10],
        }
    }

    /// The header of `input` is complete and names a mode and a dictionary
    /// size.
    pub open spec fn header_valid(input: Seq<u8>) -> bool {
        input.len() >= 3 && input[0] <= 1 && 4 <= input[1] <= 6
    }

    /// Reads the header of a stream and builds the derived tables. The
    /// header is checked as `explode_spec` says; on success the reader
    /// stands at the start of the token stream and the window is empty.
    pub fn initialize(&mut self, header_data: &[u8]) -> (result: Result<(), PkLibError>)
        ensures
            result is Ok <==> Self::header_valid(header_data@),
            result is Err ==> Err::<Seq<u8>, PkLibError>(result->Err_0) == explode_spec(
                header_data@,
            ),
            result is Ok ==> {
                &&& final(self).reader_wf(header_data@)
                &&& final(self).tables_wf()
                &&& final(self).rest(header_data@) == bits_of_bytes(header_data@.skip(2))
                &&& final(self).ctype == mode_of_byte(header_data[0])
                &&& final(self).dsize_bits == header_data[1]
                &&& final(self).output_pos == 0x1000
                &&& final(self).window_start == 0x1000
            },
    {
        let n = header_data.len();
        if n >= 1 && header_data[0] > 1 {
            return Err(PkLibError::InvalidCompressionMode(header_data[0]));
        }
        if n >= 2 && (header_data[1] < 4 || header_data[1] > 6) {
            return Err(PkLibError::InvalidDictionaryBits(header_data[1]));
        }
        if n < 3 {
            return Err(PkLibError::UnexpectedEof);
        }
        self.ctype = if header_data[0] == 0 {
            CompressionMode::Binary
        } else {
            CompressionMode::ASCII
        };
        self.dsize_bits = header_data[1] as u32;
        self.bit_buff = header_data[2] as u32;
        self.extra_bits = 0;
        self.in_pos = 3;
        proof {
            lemma_pow2_pos(self.dsize_bits as nat);
        }
        self.dsize_mask = power_of_two(self.dsize_bits) - 1;
        self.output_pos = 0x1000;
        self.window_start = 0x1000;
        self.dist_bits = DIST_BITS;
        self.len_bits = LEN_BITS;
        self.ex_len_bits = EX_LEN_BITS;
        self.len_base = LEN_BASE;
        self.length_codes = [0u8; 0x100];
        self.dist_pos_codes = [0u8; 0x100];
        proof {
            lemma2_to64();
            assert(forall|i: int|
                0 <= i < 16 ==> #[trigger] LEN_BITS[i] <= 8 && LEN_CODE[i] < pow2(
                    LEN_BITS[i] as nat,
                ));
            assert(forall|i: int|
                0 <= i < 64 ==> #[trigger] DIST_BITS[i] <= 8 && DIST_CODE[i] < pow2(
                    DIST_BITS[i] as nat,
                ));
        }
        Self::gen_decode_tabs(&mut self.length_codes, LEN_CODE.as_slice(), LEN_BITS.as_slice());
        Self::gen_decode_tabs(&mut self.dist_pos_codes, DIST_CODE.as_slice(), DIST_BITS.as_slice());
        if matches!(self.ctype, CompressionMode::ASCII) {
            self.gen_asc_tabs();
        }
        proof {
            let stream = bits_of_bytes(header_data@.skip(2));
            crate::bits::lemma_le_value_byte(header_data@.skip(2), 0);
            assert(pow2(0) == 1);
            assert(stream.skip(0) == stream);
            assert(self.rest(header_data@) == stream);
        }
        Ok(())
    }

    /// Builds an inverse table: for each code, in order, its index goes
    /// into every slot whose low bits are the code.
    pub fn gen_decode_tabs(positions: &mut [u8; 0x100], start_indexes: &[u8], length_bits: &[u8])
        requires
            start_indexes.len() == length_bits.len(),
            start_indexes.len() <= 0x100,
            forall|i: int|
                0 <= i < length_bits.len() ==> #[trigger] length_bits[i] <= 8 && start_indexes[i]
                    < pow2(length_bits[i] as nat),
        ensures
            forall|x: int|
                0 <= x < 0x100 ==> #[trigger] final(positions)[x] == inverse_slot(
                    start_indexes@,
                    length_bits@,
                    start_indexes.len() as int,
                    x,
                    old(positions)[x],
                ),
    {
        let n = start_indexes.len();
        let mut i: usize = 0;
        while i < n
            invariant
                n == start_indexes.len(),
                n == length_bits.len(),
                n <= 0x100,
                i <= n,
                forall|i: int|
                    0 <= i < length_bits.len() ==> #[trigger] length_bits[i] <= 8
                        && start_indexes[i] < pow2(length_bits[i] as nat),
                forall|x: int|
                    0 <= x < 0x100 ==> #[trigger] positions[x] == inverse_slot(
                        start_indexes@,
                        length_bits@,
                        i as int,
                        x,
                        old(positions)[x],
                    ),
            decreases n - i,
        {
            fill_slots(positions, start_indexes[i] as u32, length_bits[i] as u32, i as u8);
            i = i + 1;
        }
    }

    /// Enters the ASCII code of one byte value into the table that its
    /// route names, and stores the bits that remain behind the lookup.
    pub fn enter_ascii_code(&mut self, count: usize)
        requires
            count < 0x100,
            old(self).ch_bits_asc[count as int] == CH_BITS_ASC[count as int],
        ensures
            forall|x: int|
                0 <= x < 256 ==> #[trigger] final(self).offs_2c34[x] == if ascii_enters(
                    count as int,
                    0,
                    x,
                ) {
                    count as u8
                } else if ascii_marks(count as int, x) {
                    0xFFu8
                } else {
                    old(self).offs_2c34[x]
                },
            forall|x: int|
                0 <= x < 256 ==> #[trigger] final(self).offs_2d34[x] == if ascii_enters(
                    count as int,
                    1,
                    x,
                ) {
                    count as u8
                } else {
                    old(self).offs_2d34[x]
                },
            forall|x: int|
                0 <= x < 128 ==> #[trigger] final(self).offs_2e34[x] == if ascii_enters(
                    count as int,
                    2,
                    x,
                ) {
                    count as u8
                } else {
                    old(self).offs_2e34[x]
                },
            forall|x: int|
                0 <= x < 256 ==> #[trigger] final(self).offs_2eb4[x] == if ascii_enters(
                    count as int,
                    3,
                    x,
                ) {
                    count as u8
                } else {
                    old(self).offs_2eb4[x]
                },
            final(self).ch_bits_asc@ == old(self).ch_bits_asc@.update(
                count as int,
                ascii_tail_bits(count as int) as u8,
            ),
            1 <= ascii_tail_bits(count as int) <= 8,
            *final(self) == (ExplodeState {
                offs_2c34: final(self).offs_2c34,
                offs_2d34: final(self).offs_2d34,
                offs_2e34: final(self).offs_2e34,
                offs_2eb4: final(self).offs_2eb4,
                ch_bits_asc: final(self).ch_bits_asc,
                ..*old(self)
            }),
    {
        let code = CH_CODE_ASC[count] as u32;
        let bits = self.ch_bits_asc[count] as u32;
        let low8 = low_bits(code, 8);
        let low6 = low_bits(code, 6);
        proof {
            lemma_ascii_table_ranges();
            lemma2_to64();
            assert(4 <= CH_BITS_ASC[count as int] <= 13);
            assert(code < pow2(bits as nat));
            assert(1 <= ascii_tail_bits(count as int) <= 8);
        }
        if bits <= 8 {
            assert(ascii_route(count as int) == 0);
            assert(ascii_lead_bits(count as int) == 0);
            assert(pow2(0) == 1);
            assert(ascii_tail_code(count as int) == (CH_CODE_ASC[count as int] as int) / 1);
            assert(ascii_tail_code(count as int) == code);
            fill_slots(&mut self.offs_2c34, code, bits, count as u8);
            assert(self.ch_bits_asc@ =~= old(self).ch_bits_asc@.update(
                count as int,
                ascii_tail_bits(count as int) as u8,
            ));
        } else if low8 != 0 {
            self.offs_2c34[low8 as usize] = 0xFF;
            if low6 != 0 {
                proof {
                    assert(ascii_route(count as int) == 1);
                    crate::bits::lemma_shift_bound(code as nat, 4, (bits - 4) as nat);
                }
                self.ch_bits_asc[count] = (bits - 4) as u8;
                fill_slots(&mut self.offs_2d34, shift_right(code, 4), bits - 4, count as u8);
            } else {
                proof {
                    assert(ascii_route(count as int) == 2);
                    crate::bits::lemma_shift_bound(code as nat, 6, (bits - 6) as nat);
                }
                self.ch_bits_asc[count] = (bits - 6) as u8;
                fill_slots(&mut self.offs_2e34, shift_right(code, 6), bits - 6, count as u8);
            }
        } else {
            proof {
                assert(ascii_route(count as int) == 3);
                crate::bits::lemma_shift_bound(code as nat, 8, (bits - 8) as nat);
            }
            self.ch_bits_asc[count] = (bits - 8) as u8;
            fill_slots(&mut self.offs_2eb4, shift_right(code, 8), bits - 8, count as u8);
        }
    }

    /// Builds the four ASCII tables and the remaining bit counts from the
    /// fixed ASCII code, entering the byte values from 255 down to 0.
    pub fn gen_asc_tabs(&mut self)
        ensures
            final(self).ascii_tables_wf(),
            *final(self) == (ExplodeState {
                offs_2c34: final(self).offs_2c34,
                offs_2d34: final(self).offs_2d34,
                offs_2e34: final(self).offs_2e34,
                offs_2eb4: final(self).offs_2eb4,
                ch_bits_asc: final(self).ch_bits_asc,
                ..*old(self)
            }),
    {
        self.offs_2c34 = [0u8; 0x100];
        self.offs_2d34 = [0u8; 0x100];
        self.offs_2e34 = [0u8; 0x80];
        self.offs_2eb4 = [0u8; 0x100];
        self.ch_bits_asc = CH_BITS_ASC;
        let mut from: usize = 0x100;
        while from > 0
            invariant
                from <= 0x100,
                forall|x: int|
                    0 <= x < 256 ==> #[trigger] self.offs_2c34[x] == ascii_first_slot(
                        from as int,
                        x,
                    ),
                forall|x: int|
                    0 <= x < 256 ==> #[trigger] self.offs_2d34[x] == ascii_long_slot(
                        1,
                        from as int,
                        x,
                    ),
                forall|x: int|
                    0 <= x < 128 ==> #[trigger] self.offs_2e34[x] == ascii_long_slot(
                        2,
                        from as int,
                        x,
                    ),
                forall|x: int|
                    0 <= x < 256 ==> #[trigger] self.offs_2eb4[x] == ascii_long_slot(
                        3,
                        from as int,
                        x,
                    ),
                forall|v: int|
                    0 <= v < 256 ==> #[trigger] self.ch_bits_asc[v] == if v >= from {
                        ascii_tail_bits(v)
                    } else {
                        CH_BITS_ASC[v] as int
                    },
                *self == (ExplodeState {
                    offs_2c34: self.offs_2c34,
                    offs_2d34: self.offs_2d34,
                    offs_2e34: self.offs_2e34,
                    offs_2eb4: self.offs_2eb4,
                    ch_bits_asc: self.ch_bits_asc,
                    ..*old(self)
                }),
            decreases from,
        {
            self.enter_ascii_code(from - 1);
            from = from - 1;
        }
    }
}

/// Reads the mode and the dictionary size from the header of a stream.
/// The header is checked as `explode_spec` says. The size and the checksum
/// of the original data are not part of a stream and stay unknown.
pub fn read_header(data: &[u8]) -> (result: Result<CompressionHeader, PkLibError>)
    ensures
        result is Ok <==> ExplodeState::header_valid(data@),
        result is Ok ==> {
            &&& result->Ok_0.mode == mode_of_byte(data[0])
            &&& result->Ok_0.dict_size.spec_bits() == data[1]
            &&& result->Ok_0.uncompressed_size is None
            &&& result->Ok_0.crc32 is None
        },
        result is Err ==> Err::<Seq<u8>, PkLibError>(result->Err_0) == explode_spec(data@),
{
    let n = data.len();
    if n >= 1 && data[0] > 1 {
        return Err(PkLibError::InvalidCompressionMode(data[0]));
    }
    if n >= 2 && (data[1] < 4 || data[1] > 6) {
        return Err(PkLibError::InvalidDictionaryBits(data[1]));
    }
    if n < 3 {
        return Err(PkLibError::UnexpectedEof);
    }
    let mode = if data[0] == 0 {
        CompressionMode::Binary
    } else {
        CompressionMode::ASCII
    };
    let dict_size = if data[1] == 4 {
        DictionarySize::Size1K
    } else if data[1] == 5 {
        DictionarySize::Size2K
    } else {
        DictionarySize::Size4K
    };
    Ok(CompressionHeader { mode, dict_size, uncompressed_size: None, crc32: None })
}

impl Default for ExplodeState {
    fn default() -> (state: ExplodeState)
        ensures
            state.ctype == CompressionMode::Binary,
            state.output_pos == 0x1000,
            state.window_start == 0x1000,
            state.dsize_bits == 0,
            state.bit_buff == 0,
            state.extra_bits == 0,
            state.in_pos == 0,
    {
        ExplodeState::new()
    }
}

} // verus!
