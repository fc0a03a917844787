//! Columns laid out after Apache Arrow's buffers.
pub mod arraytext;
pub mod union;
pub mod utils;

pub use arraytext::{ArrayText, Text};
pub use union::{Union, UnionBuilder, UnionRef, UnionType, UnionValue};
pub use utils::DataType;
