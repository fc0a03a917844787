//! Representations of tabular data.
pub mod arrow;
pub mod col_sheet;
pub mod config;
pub mod floats;
pub mod messages;
pub mod parse;
pub mod sheet;
pub mod text;
