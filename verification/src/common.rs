//! Types and constants shared by the compressor and the decompressor.

use vstd::prelude::*;

verus! {

/// Maximum length of a repetition that the compressor emits.
pub const MAX_REP_LENGTH: u32 = 0x204;

/// Upper bound on the memory a decompression window may need.
pub const MAX_WINDOW_SIZE: usize = 0x3000;

/// Size of the compressor's work buffer: dictionary, one block of input and
/// the lookahead of one maximal repetition.
pub const WORK_BUFF_SIZE: usize = 0x2204;

/// Size of the compressor's output buffer.
pub const OUT_BUFF_SIZE: usize = 0x802;

/// Size of the decompressor's input buffer.
pub const IN_BUFF_SIZE: usize = 0x800;

/// Number of distinct byte-pair hashes.
pub const HASH_TABLE_SIZE: usize = 0x900;

/// Shortest repetition that is always worth encoding.
pub const MIN_MATCH_LENGTH: usize = 3;

/// Signature used by some containers that embed imploded data.
pub const PKLIB_SIGNATURE: u32 = 0x00088B1F;

/// How literal bytes are stored in the compressed stream.
#[derive(Debug, Clone, Copy, PartialEq, Eq, Structural)]
pub enum CompressionMode {
    /// Every literal takes eight raw bits.
    Binary,
    /// Literals use a fixed prefix code tuned for text.
    ASCII,
}

impl CompressionMode {
    /// The value of the mode in the stream header.
    pub open spec fn spec_to_u8(self) -> u8 {
        match self {
            CompressionMode::Binary => 0,
            CompressionMode::ASCII => 1,
        }
    }

    /// The value of the mode in the stream header.
    #[verifier::when_used_as_spec(spec_to_u8)]
    pub fn to_u8(self) -> (value: u8)
        ensures
            value == self.spec_to_u8(),
    {
        match self {
            CompressionMode::Binary => 0,
            CompressionMode::ASCII => 1,
        }
    }

    /// Reads a mode from its header value: 0 is binary, 1 is ASCII, and
    /// every other value is rejected.
    pub fn from_u8(value: u8) -> (result: Result<CompressionMode, PkLibError>)
        ensures
            value == 0 ==> result == Ok::<CompressionMode, PkLibError>(CompressionMode::Binary),
            value == 1 ==> result == Ok::<CompressionMode, PkLibError>(CompressionMode::ASCII),
            value > 1 ==> result == Err::<CompressionMode, PkLibError>(
                PkLibError::InvalidCompressionMode(value),
            ),
    {
        match value {
            0 => Ok(CompressionMode::Binary),
            1 => Ok(CompressionMode::ASCII),
            _ => Err(PkLibError::InvalidCompressionMode(value)),
        }
    }
}

/// Size of the sliding dictionary.
#[derive(Debug, Clone, Copy, PartialEq, Eq, Structural)]
pub enum DictionarySize {
    /// 1024 bytes.
    Size1K,
    /// 2048 bytes.
    Size2K,
    /// 4096 bytes.
    Size4K,
}

impl DictionarySize {
    /// Number of raw low bits of a distance, as stored in the header.
    pub open spec fn spec_bits(&self) -> u8 {
        match self {
            DictionarySize::Size1K => 4,
            DictionarySize::Size2K => 5,
            DictionarySize::Size4K => 6,
        }
    }

    /// Number of raw low bits of a distance, as stored in the header.
    #[verifier::when_used_as_spec(spec_bits)]
    pub fn bits(&self) -> (bits: u8)
        ensures
            bits == self.spec_bits(),
    {
        match self {
            DictionarySize::Size1K => 4,
            DictionarySize::Size2K => 5,
            DictionarySize::Size4K => 6,
        }
    }

    /// Size of the dictionary in bytes.
    pub open spec fn spec_bytes(&self) -> u32 {
        match self {
            DictionarySize::Size1K => 1024,
            DictionarySize::Size2K => 2048,
            DictionarySize::Size4K => 4096,
        }
    }

    /// Size of the dictionary in bytes.
    #[verifier::when_used_as_spec(spec_bytes)]
    pub fn bytes(&self) -> (bytes: u32)
        ensures
            bytes == self.spec_bytes(),
    {
        match self {
            DictionarySize::Size1K => 1024,
            DictionarySize::Size2K => 2048,
            DictionarySize::Size4K => 4096,
        }
    }

    /// Mask that keeps an offset inside the dictionary.
    pub fn mask(&self) -> (mask: u32)
        ensures
            mask == self.spec_bytes() - 1,
    {
        self.bytes() - 1
    }

    /// Reads a dictionary size from its header value: 4, 5 and 6 are the
    /// three sizes, every other value is rejected.
    pub fn from_bits(bits: u8) -> (result: Result<DictionarySize, PkLibError>)
        ensures
            bits == 4 ==> result == Ok::<DictionarySize, PkLibError>(DictionarySize::Size1K),
            bits == 5 ==> result == Ok::<DictionarySize, PkLibError>(DictionarySize::Size2K),
            bits == 6 ==> result == Ok::<DictionarySize, PkLibError>(DictionarySize::Size4K),
            bits < 4 || bits > 6 ==> result == Err::<DictionarySize, PkLibError>(
                PkLibError::InvalidDictionaryBits(bits),
            ),
    {
        match bits {
            4 => Ok(DictionarySize::Size1K),
            5 => Ok(DictionarySize::Size2K),
            6 => Ok(DictionarySize::Size4K),
            _ => Err(PkLibError::InvalidDictionaryBits(bits)),
        }
    }

    /// Reads a dictionary size from its size in bytes.
    pub fn from_bytes(bytes: u32) -> (result: Result<DictionarySize, PkLibError>)
        ensures
            bytes == 1024 ==> result == Ok::<DictionarySize, PkLibError>(DictionarySize::Size1K),
            bytes == 2048 ==> result == Ok::<DictionarySize, PkLibError>(DictionarySize::Size2K),
            bytes == 4096 ==> result == Ok::<DictionarySize, PkLibError>(DictionarySize::Size4K),
            bytes != 1024 && bytes != 2048 && bytes != 4096 ==> result == Err::<
                DictionarySize,
                PkLibError,
            >(PkLibError::InvalidDictionarySize(bytes)),
    {
        match bytes {
            1024 => Ok(DictionarySize::Size1K),
            2048 => Ok(DictionarySize::Size2K),
            4096 => Ok(DictionarySize::Size4K),
            _ => Err(PkLibError::InvalidDictionarySize(bytes)),
        }
    }
}

/// Why a stream or a parameter was rejected.
#[derive(Debug)]
pub enum PkLibError {
    /// The first header byte is neither 0 nor 1.
    InvalidCompressionMode(u8),
    /// The second header byte is not 4, 5 or 6.
    InvalidDictionaryBits(u8),
    /// A dictionary size other than 1024, 2048 or 4096 bytes.
    InvalidDictionarySize(u32),
    /// The token stream is malformed: a token is cut short by the end of
    /// the input.
    InvalidFormat,
    /// The input ends inside the three-byte header.
    UnexpectedEof,
    /// A repetition would run past the end of the output window.
    BufferTooSmall,
    /// A repetition length outside the encodable range.
    InvalidLength(u32),
    /// A repetition that reaches back before the first byte of output, or a
    /// distance outside the encodable range.
    InvalidDistance(u32),
    /// Data that the caller handed over in the wrong state.
    InvalidData(String),
    /// A failure reported by a surrounding decompression layer.
    DecompressionError(String),
    /// A checksum of the host container did not match.
    CrcMismatch {
        /// The checksum that was stored.
        expected: u32,
        /// The checksum that was computed.
        actual: u32,
    },
}

/// Parameters of a compressed stream together with what a host container may
/// record about it.
#[derive(Debug, Clone, Copy)]
pub struct CompressionHeader {
    /// Compression mode.
    pub mode: CompressionMode,
    /// Dictionary size.
    pub dict_size: DictionarySize,
    /// Size of the original data, if known.
    pub uncompressed_size: Option<u32>,
    /// Checksum of the original data, if known.
    pub crc32: Option<u32>,
}

} // verus!
