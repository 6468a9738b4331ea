//! What holds of compression and decompression together.

pub mod arith;
pub mod codes;
pub mod fields;
pub mod inverse;
pub mod roundtrip;
pub mod stream;
pub mod streaming;
pub mod tokens;
