//! Decompression.

pub mod decoder;
pub mod extend;
pub mod model;
pub mod reader;
pub mod state;
pub mod window;

pub use decoder::{PKDCL_OK, PKDCL_STREAM_END};
pub use model::{LITERAL_END_OF_STREAM, LITERAL_ERROR, OUT_BUFF_SIZE};
pub use reader::{explode_bytes, explode_mpq_bytes, ExplodeReader};
pub use state::{read_header, ExplodeState};
