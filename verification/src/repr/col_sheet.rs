//! A column oriented sheet.
pub mod utils;
pub use utils::{
    lossless, lossless_reflexive, lossless_transitive, parse_helper, parse_text, parse_unchecked,
    spec_parse_cell, spec_parse_cell_lossy, str_equal, swap_seq, swaps_applied, ColumnHeader,
    DataType, Readable, Reading,
};

pub mod arraybool;
pub use arraybool::ArrayBool;

pub mod arrayi32;
pub use arrayi32::ArrayI32;

pub mod arrayisize;
pub use arrayisize::ArrayISize;

pub mod arraytext;
pub use arraytext::{spec_text_cell, text_view, ArrayText};

pub mod arrayu32;
pub use arrayu32::ArrayU32;

pub mod arrayusize;
pub use arrayusize::ArrayUSize;

pub mod arrayf32;
pub use arrayf32::ArrayF32;

pub mod arrayf64;
pub use arrayf64::ArrayF64;

pub mod column;
pub mod converting;
pub mod ordering;
pub mod sorting;
pub use column::{lemma_swaps_map, spec_read_cell, spec_read_cell_lossy, CellRef, CellValue, Column};

pub mod building;
pub mod csv_source;
pub mod column_sheet;
pub mod laws;
pub use column_sheet::{ColumnSheet, Error};
