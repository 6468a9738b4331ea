//! The compressor's state: code tables, work buffer and hash index.

use crate::bits::power_of_two;
use crate::common::{CompressionMode, DictionarySize, PkLibError};
use crate::implode::model::{length_bucket, length_bucket_below, literal_code};
use crate::tables::{
    CH_BITS_ASC, CH_CODE_ASC, DIST_BITS, DIST_CODE, EX_LEN_BITS, LEN_BASE, LEN_BITS, LEN_CODE,
};
use vstd::arithmetic::power2::{lemma2_to64, lemma_pow2_adds, pow2};
use vstd::prelude::*;

verus! {

/// State of one compression.
#[derive(Debug)]
pub struct ImplodeState {
    /// Distance of the repetition found last, less one.
    pub distance: u32,
    /// Number of complete bytes in `out_buff`.
    pub out_bytes: u32,
    /// Number of bits used in the byte of `out_buff` behind them.
    pub out_bits: u32,
    /// Number of raw low bits of a distance.
    pub dsize_bits: u32,
    /// Mask of `dsize_bits` bits.
    pub dsize_mask: u32,
    /// Compression mode.
    pub ctype: CompressionMode,
    /// Size of the dictionary in bytes.
    pub dsize_bytes: u32,
    /// Copy of the bit lengths of the distance codes.
    pub dist_bits: [u8; 0x40],
    /// Copy of the distance codes.
    pub dist_codes: [u8; 0x40],
    /// Bit length of the code of every value.
    pub literal_bits: [u8; 0x306],
    /// Code of every value.
    pub literal_codes: [u16; 0x306],
    /// For every hash, the index in `phash_offs` at which its positions
    /// start.
    pub phash_to_index: [u16; 0x900],
    /// Compressed bytes that were not yet handed on.
    pub out_buff: [u8; 0x802],
    /// Dictionary, then the input to compress.
    pub work_buff: [u8; 0x2204],
    /// The indexed positions, ordered by hash and then by position, each
    /// relative to `index_begin`.
    pub phash_offs: [u16; 0x2204],
    /// Scratch space of the size of one repetition.
    pub offs_buffer: [u16; 0x204],
    /// Position in `work_buff` of the next byte to compress.
    pub work_pos: usize,
    /// Number of bytes of input that were compressed.
    pub input_pos: usize,
    /// Number of bytes in `work_buff`.
    pub work_bytes: usize,
    /// First position of `work_buff` that the hash index covers.
    pub index_begin: usize,
    /// Number of positions that the hash index covers.
    pub index_len: usize,
}

/// A length value lies in the bucket whose range holds it.
pub proof fn lemma_length_bucket(i: int, w: int)
    requires
        0 <= i < 16,
        LEN_BASE[i] <= w < LEN_BASE[i] + pow2(EX_LEN_BITS[i] as nat),
    ensures
        length_bucket(w) == i,
{
    reveal_with_fuel(length_bucket_below, 17);
    lemma2_to64();
}

/// The code of a length value fits its bit length, which is at most 16.
pub proof fn lemma_length_code_fits(code: nat, bits: nat, extra: nat, extra_bits: nat)
    requires
        code < pow2(bits),
        extra < pow2(extra_bits),
    ensures
        1 + 2 * code + pow2(bits + 1) * extra < pow2(1 + bits + extra_bits),
{
    lemma_pow2_adds(1, bits);
    lemma_pow2_adds(1 + bits, extra_bits);
    lemma2_to64();
    assert(bits + 1 == 1 + bits);
    let p = pow2(1 + bits);
    assert(1 + 2 * code < p);
    assert(p * extra + p <= p * pow2(extra_bits)) by (nonlinear_arith)
        requires
            extra < pow2(extra_bits),
            p >= 0,
    ;
}

impl ImplodeState {
    /// The code tables are those of the mode and the dictionary size.
    pub open spec fn tables_wf(&self) -> bool {
        &&& 4 <= self.dsize_bits <= 6
        &&& self.dsize_mask == pow2(self.dsize_bits as nat) - 1
        &&& self.dsize_bytes == 64 * pow2(self.dsize_bits as nat)
        &&& self.dist_bits@ == DIST_BITS@
        &&& self.dist_codes@ == DIST_CODE@
        &&& forall|v: int|
            0 <= v < 0x306 ==> #[trigger] self.literal_bits[v] == literal_code(self.ctype, v).len
        &&& forall|v: int|
            0 <= v < 0x306 ==> #[trigger] self.literal_codes[v] == literal_code(
                self.ctype,
                v,
            ).value
    }

    /// A state for the given mode and dictionary size, with its code
    /// tables built and its buffers empty.
    pub fn new(mode: CompressionMode, dict_size: DictionarySize) -> (result: Result<
        ImplodeState,
        PkLibError,
    >)
        ensures
            result is Ok,
            result->Ok_0.tables_wf(),
            result->Ok_0.ctype == mode,
            result->Ok_0.dsize_bits == dict_size.spec_bits(),
            result->Ok_0.dsize_bytes == dict_size.spec_bytes(),
            result->Ok_0.out_bytes == 0,
            result->Ok_0.out_bits == 0,
            result->Ok_0.work_pos == 0,
            result->Ok_0.input_pos == 0,
            result->Ok_0.work_bytes == 0,
            result->Ok_0.index_begin == 0,
            result->Ok_0.index_len == 0,
            result->Ok_0.distance == 0,
            result->Ok_0.index_wf(),
            result->Ok_0.dsize_mask == dict_size.spec_bytes() / 64 - 1,
            forall|i: int| 0 <= i < 0x802 ==> result->Ok_0.out_buff[i] == 0,
            forall|i: int|
                0 <= i < 0x2204 ==> result->Ok_0.work_buff[i] == 0 && result->Ok_0.phash_offs[i]
                    == 0,
            forall|i: int| 0 <= i < 0x900 ==> result->Ok_0.phash_to_index[i] == 0,
            forall|i: int| 0 <= i < 0x204 ==> result->Ok_0.offs_buffer[i] == 0,
    {
        let dsize_bytes = dict_size.bytes();
        let dsize_bits = dict_size.bits() as u32;
        proof {
            lemma2_to64();
        }
        let dsize_mask = power_of_two(dsize_bits) - 1;
        let mut state = ImplodeState {
            distance: 0,
            out_bytes: 0,
            out_bits: 0,
            dsize_bits,
            dsize_mask,
            ctype: mode,
            dsize_bytes,
            dist_bits: DIST_BITS,
            dist_codes: DIST_CODE,
            literal_bits: [0u8; 0x306],
            literal_codes: [0u16; 0x306],
            phash_to_index: [0u16; 0x900],
            out_buff: [0u8; 0x802],
            work_buff: [0u8; 0x2204],
            phash_offs: [0u16; 0x2204],
            offs_buffer: [0u16; 0x204],
            work_pos: 0,
            input_pos: 0,
            work_bytes: 0,
            index_begin: 0,
            index_len: 0,
        };
        state.init_literal_tables();
        Ok(state)
    }

    /// Builds the codes of all values: the bytes by the mode, then for
    /// each length bucket one code for each value of its extra bits.
    pub fn init_literal_tables(&mut self)
        ensures
            forall|v: int|
                0 <= v < 0x306 ==> #[trigger] final(self).literal_bits[v] == literal_code(
                    old(self).ctype,
                    v,
                ).len,
            forall|v: int|
                0 <= v < 0x306 ==> #[trigger] final(self).literal_codes[v] == literal_code(
                    old(self).ctype,
                    v,
                ).value,
            *final(self) == (ImplodeState {
                literal_bits: final(self).literal_bits,
                literal_codes: final(self).literal_codes,
                ..*old(self)
            }),
    {
        let mut i: usize = 0;
        while i < 0x100
            invariant
                i <= 0x100,
                forall|v: int|
                    0 <= v < i ==> #[trigger] self.literal_bits[v] == literal_code(
                        self.ctype,
                        v,
                    ).len,
                forall|v: int|
                    0 <= v < i ==> #[trigger] self.literal_codes[v] == literal_code(
                        self.ctype,
                        v,
                    ).value,
                *self == (ImplodeState {
                    literal_bits: self.literal_bits,
                    literal_codes: self.literal_codes,
                    ..*old(self)
                }),
            decreases 0x100 - i,
        {
            proof {
                assert(forall|s: int|
                    0 <= s < 256 ==> #[trigger] CH_BITS_ASC[s] <= 13 && CH_CODE_ASC[s] < 0x2000);
            }
            match self.ctype {
                CompressionMode::Binary => {
                    self.literal_bits[i] = 9;
                    self.literal_codes[i] = (i * 2) as u16;
                },
                CompressionMode::ASCII => {
                    self.literal_bits[i] = CH_BITS_ASC[i] + 1;
                    self.literal_codes[i] = CH_CODE_ASC[i] * 2;
                },
            }
            i = i + 1;
        }
        let mut n_count: usize = 0x100;
        let mut bucket: usize = 0;
        while bucket < 0x10
            invariant
                bucket <= 0x10,
                bucket < 0x10 ==> n_count == 0x100 + LEN_BASE[bucket as int],
                bucket == 0x10 ==> n_count == 0x306,
                forall|v: int|
                    0 <= v < n_count ==> #[trigger] self.literal_bits[v] == literal_code(
                        self.ctype,
                        v,
                    ).len,
                forall|v: int|
                    0 <= v < n_count ==> #[trigger] self.literal_codes[v] == literal_code(
                        self.ctype,
                        v,
                    ).value,
                *self == (ImplodeState {
                    literal_bits: self.literal_bits,
                    literal_codes: self.literal_codes,
                    ..*old(self)
                }),
            decreases 0x10 - bucket,
        {
            proof {
                lemma2_to64();
                crate::explode::model::lemma_length_table_ranges();
                assert(forall|k: int|
                    0 <= k < 16 ==> #[trigger] LEN_CODE[k] < pow2(LEN_BITS[k] as nat));
                assert(forall|k: int|
                    0 <= k < 15 ==> #[trigger] LEN_BASE[k + 1] == LEN_BASE[k] + pow2(
                        EX_LEN_BITS[k] as nat,
                    ));
                assert(LEN_BASE[15] + pow2(EX_LEN_BITS[15] as nat) == 0x206);
            }
            let extra_bits = EX_LEN_BITS[bucket] as u32;
            let code_bits = LEN_BITS[bucket] as u32;
            let n_count2_max = power_of_two(extra_bits);
            let shift = power_of_two(code_bits + 1);
            let base = n_count;
            let mut n_count2: u32 = 0;
            while n_count2 < n_count2_max
                invariant
                    bucket < 0x10,
                    n_count2 <= n_count2_max,
                    n_count2_max == pow2(extra_bits as nat),
                    shift == pow2((code_bits + 1) as nat),
                    extra_bits == EX_LEN_BITS[bucket as int],
                    code_bits == LEN_BITS[bucket as int],
                    code_bits <= 7,
                    extra_bits <= 8,
                    LEN_CODE[bucket as int] < pow2(code_bits as nat),
                    base == 0x100 + LEN_BASE[bucket as int],
                    base + n_count2_max <= 0x306,
                    n_count == base + n_count2,
                    forall|v: int|
                        0 <= v < n_count ==> #[trigger] self.literal_bits[v] == literal_code(
                            self.ctype,
                            v,
                        ).len,
                    forall|v: int|
                        0 <= v < n_count ==> #[trigger] self.literal_codes[v] == literal_code(
                            self.ctype,
                            v,
                        ).value,
                    *self == (ImplodeState {
                        literal_bits: self.literal_bits,
                        literal_codes: self.literal_codes,
                        ..*old(self)
                    }),
                decreases n_count2_max - n_count2,
            {
                proof {
                    lemma2_to64();
                    lemma_length_bucket(bucket as int, n_count - 0x100);
                    lemma_length_code_fits(
                        LEN_CODE[bucket as int] as nat,
                        code_bits as nat,
                        n_count2 as nat,
                        extra_bits as nat,
                    );
                    if 1 + code_bits + extra_bits < 16 {
                        vstd::arithmetic::power2::lemma_pow2_strictly_increases(
                            (1 + code_bits + extra_bits) as nat,
                            16,
                        );
                    }
                    assert(shift * n_count2 == pow2((code_bits + 1) as nat) * n_count2);
                }
                self.literal_bits[n_count] = (extra_bits + code_bits + 1) as u8;
                self.literal_codes[n_count] = (shift * n_count2 + (LEN_CODE[bucket] as u32) * 2
                    + 1) as u16;
                n_count = n_count + 1;
                n_count2 = n_count2 + 1;
            }
            bucket = bucket + 1;
        }
    }

    /// Empties the buffers and the hash index, and starts the counts anew.
    /// The code tables stay.
    pub fn reset(&mut self)
        ensures
            *final(self) == (ImplodeState {
                distance: 0,
                out_bytes: 0,
                out_bits: 0,
                work_pos: 0,
                input_pos: 0,
                work_bytes: 0,
                index_begin: 0,
                index_len: 0,
                phash_to_index: final(self).phash_to_index,
                out_buff: final(self).out_buff,
                work_buff: final(self).work_buff,
                phash_offs: final(self).phash_offs,
                offs_buffer: final(self).offs_buffer,
                ..*old(self)
            }),
            final(self).index_wf(),
            forall|i: int| 0 <= i < 0x900 ==> final(self).phash_to_index[i] == 0,
            forall|i: int| 0 <= i < 0x802 ==> final(self).out_buff[i] == 0,
            forall|i: int| 0 <= i < 0x2204 ==> final(self).work_buff[i] == 0,
            forall|i: int| 0 <= i < 0x2204 ==> final(self).phash_offs[i] == 0,
            forall|i: int| 0 <= i < 0x204 ==> final(self).offs_buffer[i] == 0,
    {
        self.distance = 0;
        self.out_bytes = 0;
        self.out_bits = 0;
        self.work_pos = 0;
        self.input_pos = 0;
        self.work_bytes = 0;
        self.index_begin = 0;
        self.index_len = 0;
        self.phash_to_index = [0u16; 0x900];
        self.out_buff = [0u8; 0x802];
        self.work_buff = [0u8; 0x2204];
        self.phash_offs = [0u16; 0x2204];
        self.offs_buffer = [0u16; 0x204];
    }
}

impl Default for ImplodeState {
    /// A state for binary mode with a dictionary of 2048 bytes.
    fn default() -> (state: ImplodeState)
        ensures
            state.tables_wf(),
            state.index_wf(),
            state.ctype == CompressionMode::Binary,
            state.dsize_bits == 5,
            state.dsize_bytes == 2048,
            state.work_bytes == 0,
            state.input_pos == 0,
    {
        match ImplodeState::new(CompressionMode::Binary, DictionarySize::Size2K) {
            Ok(state) => state,
            Err(_) => vstd::pervasive::unreached(),
        }
    }
}

} // verus!
