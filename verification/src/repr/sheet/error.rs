use vstd::prelude::*;

use super::super::super::models::bar::BarChartError;
use super::super::super::models::line::LineGraphError;
use super::super::super::models::stacked_bar::StackedBarChartError;

verus! {

/// The ways an operation on a [`super::Sheet`] can fail.
#[derive(Debug)]
pub enum Error {
    /// Invalid primary key
    InvalidPrimaryKey(String),
    /// The delimited text could not be read; the reader's message
    CSVReaderError(String),
    /// Column type and value mismatch
    InvalidColumnType(String),
    /// Out of bounds column or uneven column number
    InvalidColumnLength(String),
    /// Non-uniform column sorting
    InvalidColumnSort(String),
    /// Error when converting the sheet to another type
    ConversionError(String),
    /// Error from creating a new linegraph from sheet
    LineGraphError(LineGraphError),
    /// Error during a transpose
    TransposeError(String),
    /// Error from creating a new barchart from sheet
    BarChartError(BarChartError),
    /// Error from creating a new stacked barchart from sheet
    StackedBarChart(StackedBarChartError),
}

} // verus!
