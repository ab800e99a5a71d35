//! Decoding of IDX tensor files: a big-endian, magic-tagged, typed,
//! multi-dimensional binary format.

pub mod casts;
pub mod header;
pub mod reader;
pub mod source;

pub use casts::{Element, F32Bits, F64Bits, NumericKind, Value, ValueExtractor};
pub use header::{Header, HeaderView, IdxErr, parse_header};
pub use reader::{DynIdxReader, IdxReader};
pub use source::{ByteSource, ReadError};
