//! The PKWare Data Compression Library format: `implode` compresses a byte
//! sequence, `explode` restores it.
//!
//! `implode_bytes` and `explode_bytes` work on whole byte sequences;
//! `ImplodeWriter` and `ExplodeReader` take and give the bytes in pieces.
//! What the two directions compute is defined in `implode::model` and
//! `explode::model`.

use vstd::prelude::*;

pub mod async_batch;
pub mod async_stream;
pub mod bits;
pub mod common;
pub mod error;
pub mod explode;
pub mod implode;
pub mod laws;
pub mod tables;

pub use common::{
    CompressionHeader, CompressionMode, DictionarySize, PkLibError, MAX_REP_LENGTH,
    MAX_WINDOW_SIZE,
};
pub use async_batch::AsyncBatchProcessor;
pub use async_stream::{AsyncStreamProcessor, StreamOptions};
pub use explode::{explode_mpq_bytes, ExplodeReader};
pub use implode::ImplodeWriter;

verus! {

/// Compresses `data` with the given mode and dictionary size.
pub fn implode_bytes(data: &[u8], mode: CompressionMode, dict_size: DictionarySize) -> (result:
    Result<Vec<u8>, PkLibError>)
    ensures
        result is Ok,
        result->Ok_0@ == implode::model::implode_spec(data@, mode, dict_size),
{
    implode::implode_bytes(data, mode, dict_size)
}

/// Decompresses `data`: the output of the stream, or the error of its
/// header or of the first token that is rejected.
pub fn explode_bytes(data: &[u8]) -> (result: Result<Vec<u8>, PkLibError>)
    ensures
        match result {
            Ok(output) => explode::model::explode_spec(data@) == Ok::<Seq<u8>, PkLibError>(
                output@,
            ),
            Err(e) => explode::model::explode_spec(data@) == Err::<Seq<u8>, PkLibError>(e),
        },
{
    explode::explode_bytes(data)
}

} // verus!
