//! The error type of the library, under the path that callers expect.

pub use crate::common::PkLibError;
