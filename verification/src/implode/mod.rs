//! Compression.

pub mod compress;
pub mod encode;
pub mod hash;
pub mod model;
pub mod optimize;
pub mod output;
pub mod pattern;
pub mod progress;
pub mod state;
pub mod update;
pub mod writer;

pub use model::{LITERALS_COUNT, MAX_REP_LENGTH};
pub use state::ImplodeState;
pub use hash::{byte_pair_hash, HASH_TABLE_SIZE, OFFSS_SIZE2, OUT_BUFF_SIZE, WORK_BUFF_SIZE};
pub use pattern::MatchResult;
pub use writer::{implode_bytes, ImplodeWriter};
