//! Charts drawn from sheets.
pub mod bar;
pub mod common;
pub mod line;
pub mod stacked_bar;
