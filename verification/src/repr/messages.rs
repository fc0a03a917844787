//! The messages that the library's errors are shown with.
use vstd::prelude::*;

use super::col_sheet::{DataType, Error as ColError};
use super::config::HeaderStrategy;
use super::sheet::{
    BarChartAxisLabelStrategy, BarChartBarLabels, ColumnType, Error as SheetError, HeaderLabelStrategy,
    HeaderTypesStrategy, LineLabelStrategy, StackedBarChartAxisLabelStrategy,
};
use super::text::{decimal, push_decimal};
use crate::models::bar::BarChartError;
use crate::models::line::LineGraphError;
use crate::models::stacked_bar::StackedBarChartError;

verus! {

/// The name of a column type, as its variant is written.
pub open spec fn kind_name(kind: DataType) -> Seq<char> {
    match kind {
        DataType::I32 => "I32"@,
        DataType::U32 => "U32"@,
        DataType::ISize => "ISize"@,
        DataType::USize => "USize"@,
        DataType::Bool => "Bool"@,
        DataType::F32 => "F32"@,
        DataType::F64 => "F64"@,
        DataType::Text => "Text"@,
    }
}

/// The message of a point outside its axis: `val` on the axis `axis`.
pub open spec fn out_of_range_text(axis: Seq<char>, val: Seq<char>) -> Seq<char> {
    "The point with value "@ + val + " on the "@ + axis + " axis is out of range"@
}

/// The message of a column sheet error.
pub open spec fn col_error_text(e: ColError) -> Seq<char> {
    match e {
        ColError::CSV(m) => m@,
        ColError::InvalidRow(row) => "Invalid Row at "@ + decimal(row as nat),
        ColError::InvalidColumn(col) => "Invalid Column at "@ + decimal(col as nat),
        ColError::InvalidPrimary(p) => "Invalid Primary Column at "@ + decimal(p as nat),
        ColError::InvalidColumnHeight { own, other } => "Invalid Column height of "@ + decimal(
            other as nat,
        ) + " instead of "@ + decimal(own as nat),
        ColError::InvalidRowWidth { own, other } => "Invalid Row width of "@ + decimal(other as nat)
            + " instead of "@ + decimal(own as nat),
        ColError::InvalidInsertion(idx) => "Invalid insertion at index "@ + decimal(idx as nat),
        ColError::InvalidCellInput { col, row } => "Invalid input for cell at column: "@ + decimal(
            col as nat,
        ) + ", row: "@ + decimal(row as nat),
        ColError::InvalidColConversion { col, from, to } => "Invalid column conversion from "@
            + kind_name(from) + " to "@ + kind_name(to) + " at column "@ + decimal(col as nat),
    }
}

/// The message of a bar chart error.
pub open spec fn bar_error_text(e: BarChartError) -> Seq<char> {
    match e {
        BarChartError::OutOfRange(axis, val) => out_of_range_text(axis@, val@),
    }
}

/// The message of a line graph error.
pub open spec fn line_error_text(e: LineGraphError) -> Seq<char> {
    match e {
        LineGraphError::ScaleLengthError(axis) => "The "@ + axis@ + " axis has smaller scale than expected"@,
        LineGraphError::OutOfRange(axis, val) => out_of_range_text(axis@, val@),
    }
}

/// The message of a stacked bar chart error.
pub open spec fn stacked_error_text(e: StackedBarChartError) -> Seq<char> {
    match e {
        StackedBarChartError::OutOfRange(axis, val) => out_of_range_text(axis@, val@),
    }
}

/// The message of a sheet error.
pub open spec fn sheet_error_text(e: SheetError) -> Seq<char> {
    match e {
        SheetError::CSVReaderError(m) => m@,
        SheetError::InvalidColumnLength(s) => "Invalid Column Length: "@ + s@,
        SheetError::InvalidPrimaryKey(s) => "Primary Key is invalid. "@ + s@,
        SheetError::InvalidColumnType(s) => "Invalid Column type: "@ + s@,
        SheetError::InvalidColumnSort(s) => "Invalid Column Sort: "@ + s@,
        SheetError::ConversionError(s) => "Conversion Error: "@ + s@,
        SheetError::LineGraphError(e) => line_error_text(e),
        SheetError::TransposeError(s) => "Transposing Error: "@ + s@,
        SheetError::BarChartError(e) => bar_error_text(e),
        SheetError::StackedBarChart(e) => stacked_error_text(e),
    }
}

/// `prefix` followed by `rest`.
fn joined(prefix: &str, rest: &str) -> (r: String)
    ensures
        r@ == prefix@ + rest@,
{
    let mut s = prefix.to_owned();
    s.append(rest);
    s
}

/// `prefix` followed by `n` in decimal.
fn with_number(prefix: &str, n: usize) -> (r: String)
    ensures
        r@ == prefix@ + decimal(n as nat),
{
    let mut s = prefix.to_owned();
    push_decimal(&mut s, n as u128);
    s
}

fn out_of_range_message(axis: &String, val: &String) -> (r: String)
    ensures
        r@ == out_of_range_text(axis@, val@),
{
    let mut s = "The point with value ".to_owned();
    s.append(val.as_str());
    s.append(" on the ");
    s.append(axis.as_str());
    s.append(" axis is out of range");
    s
}

impl DataType {
    /// The name of the type, as its variant is written.
    pub fn name(&self) -> (r: &'static str)
        ensures
            r@ == kind_name(*self),
    {
        match self {
            DataType::I32 => "I32",
            DataType::U32 => "U32",
            DataType::ISize => "ISize",
            DataType::USize => "USize",
            DataType::Bool => "Bool",
            DataType::F32 => "F32",
            DataType::F64 => "F64",
            DataType::Text => "Text",
        }
    }
}

impl ColError {
    /// The message the error is shown with.
    pub fn message(&self) -> (r: String)
        ensures
            r@ == col_error_text(*self),
    {
        match self {
            ColError::CSV(m) => m.clone(),
            ColError::InvalidRow(row) => with_number("Invalid Row at ", *row),
            ColError::InvalidColumn(col) => with_number("Invalid Column at ", *col),
            ColError::InvalidPrimary(p) => with_number("Invalid Primary Column at ", *p),
            ColError::InvalidColumnHeight { own, other } => {
                let mut s = with_number("Invalid Column height of ", *other);
                s.append(" instead of ");
                push_decimal(&mut s, *own as u128);
                s
            },
            ColError::InvalidRowWidth { own, other } => {
                let mut s = with_number("Invalid Row width of ", *other);
                s.append(" instead of ");
                push_decimal(&mut s, *own as u128);
                s
            },
            ColError::InvalidInsertion(idx) => with_number("Invalid insertion at index ", *idx),
            ColError::InvalidCellInput { col, row } => {
                let mut s = with_number("Invalid input for cell at column: ", *col);
                s.append(", row: ");
                push_decimal(&mut s, *row as u128);
                s
            },
            ColError::InvalidColConversion { col, from, to } => {
                let mut s = joined("Invalid column conversion from ", from.name());
                s.append(" to ");
                s.append(to.name());
                s.append(" at column ");
                push_decimal(&mut s, *col as u128);
                s
            },
        }
    }
}

impl BarChartError {
    /// The message the error is shown with.
    pub fn message(&self) -> (r: String)
        ensures
            r@ == bar_error_text(*self),
    {
        match self {
            BarChartError::OutOfRange(axis, val) => out_of_range_message(axis, val),
        }
    }
}

impl LineGraphError {
    /// The message the error is shown with.
    pub fn message(&self) -> (r: String)
        ensures
            r@ == line_error_text(*self),
    {
        match self {
            LineGraphError::ScaleLengthError(axis) => {
                let mut s = joined("The ", axis.as_str());
                s.append(" axis has smaller scale than expected");
                s
            },
            LineGraphError::OutOfRange(axis, val) => out_of_range_message(axis, val),
        }
    }
}

impl StackedBarChartError {
    /// The message the error is shown with.
    pub fn message(&self) -> (r: String)
        ensures
            r@ == stacked_error_text(*self),
    {
        match self {
            StackedBarChartError::OutOfRange(axis, val) => out_of_range_message(axis, val),
        }
    }
}

impl SheetError {
    /// The message the error is shown with.
    pub fn message(&self) -> (r: String)
        ensures
            r@ == sheet_error_text(*self),
    {
        match self {
            SheetError::CSVReaderError(m) => m.clone(),
            SheetError::InvalidColumnLength(s) => joined("Invalid Column Length: ", s.as_str()),
            SheetError::InvalidPrimaryKey(s) => joined("Primary Key is invalid. ", s.as_str()),
            SheetError::InvalidColumnType(s) => joined("Invalid Column type: ", s.as_str()),
            SheetError::InvalidColumnSort(s) => joined("Invalid Column Sort: ", s.as_str()),
            SheetError::ConversionError(s) => joined("Conversion Error: ", s.as_str()),
            SheetError::LineGraphError(e) => e.message(),
            SheetError::TransposeError(s) => joined("Transposing Error: ", s.as_str()),
            SheetError::BarChartError(e) => e.message(),
            SheetError::StackedBarChart(e) => e.message(),
        }
    }
}

impl ColumnType {
    /// How the type is shown.
    pub fn description(&self) -> (r: &'static str)
        ensures
            r@ == (match *self {
                ColumnType::Untyped => "No Column Type"@,
                ColumnType::Boolean => "Boolean Column Type"@,
                ColumnType::Text => "Text Column Type"@,
                ColumnType::Float => "Float Column Type"@,
                ColumnType::Integer => "Integer Column Type"@,
                ColumnType::Number => "Number Column Type"@,
            }),
    {
        match self {
            ColumnType::Untyped => "No Column Type",
            ColumnType::Boolean => "Boolean Column Type",
            ColumnType::Text => "Text Column Type",
            ColumnType::Float => "Float Column Type",
            ColumnType::Integer => "Integer Column Type",
            ColumnType::Number => "Number Column Type",
        }
    }
}

impl HeaderStrategy {
    /// How the strategy is shown.
    pub fn description(&self) -> (r: &'static str)
        ensures
            r@ == (match *self {
                HeaderStrategy::Provided(_) => "Header Labels Provided"@,
                HeaderStrategy::ReadLabels => "Read Header Labels"@,
                HeaderStrategy::NoLabels => "No Header Labels"@,
            }),
    {
        match self {
            HeaderStrategy::Provided(_) => "Header Labels Provided",
            HeaderStrategy::ReadLabels => "Read Header Labels",
            HeaderStrategy::NoLabels => "No Header Labels",
        }
    }
}

impl HeaderLabelStrategy {
    /// How the strategy is shown.
    pub fn description(&self) -> (r: &'static str)
        ensures
            r@ == (match *self {
                HeaderLabelStrategy::Provided(_) => "Header Labels Provided"@,
                HeaderLabelStrategy::ReadLabels => "Read Header Labels"@,
                HeaderLabelStrategy::NoLabels => "No Header Labels"@,
            }),
    {
        match self {
            HeaderLabelStrategy::Provided(_) => "Header Labels Provided",
            HeaderLabelStrategy::ReadLabels => "Read Header Labels",
            HeaderLabelStrategy::NoLabels => "No Header Labels",
        }
    }
}

impl HeaderTypesStrategy {
    /// How the strategy is shown.
    pub fn description(&self) -> (r: &'static str)
        ensures
            r@ == (match *self {
                HeaderTypesStrategy::Infer => "Infer types"@,
                HeaderTypesStrategy::Provided(_) => "Provide types"@,
                HeaderTypesStrategy::NoTypes => "No types"@,
            }),
    {
        match self {
            HeaderTypesStrategy::Infer => "Infer types",
            HeaderTypesStrategy::Provided(_) => "Provide types",
            HeaderTypesStrategy::NoTypes => "No types",
        }
    }
}

impl LineLabelStrategy {
    /// How the strategy is shown.
    pub fn description(&self) -> (r: &'static str)
        ensures
            r@ == (match *self {
                LineLabelStrategy::NoLabels => "No line labels"@,
                LineLabelStrategy::FromCell(_) => "Label using a cell"@,
                LineLabelStrategy::Provided(_) => "Label provided"@,
            }),
    {
        match self {
            LineLabelStrategy::NoLabels => "No line labels",
            LineLabelStrategy::FromCell(_) => "Label using a cell",
            LineLabelStrategy::Provided(_) => "Label provided",
        }
    }
}

impl BarChartAxisLabelStrategy {
    /// How the strategy is shown.
    pub fn description(&self) -> (r: &'static str)
        ensures
            r@ == (match *self {
                BarChartAxisLabelStrategy::NoLabels => "No labels"@,
                BarChartAxisLabelStrategy::Provided { .. } => "Labels provided"@,
                BarChartAxisLabelStrategy::Headers => "Use corresponding headers"@,
            }),
    {
        match self {
            BarChartAxisLabelStrategy::NoLabels => "No labels",
            BarChartAxisLabelStrategy::Provided { .. } => "Labels provided",
            BarChartAxisLabelStrategy::Headers => "Use corresponding headers",
        }
    }
}

impl BarChartBarLabels {
    /// How the strategy is shown.
    pub fn description(&self) -> (r: &'static str)
        ensures
            r@ == (match *self {
                BarChartBarLabels::NoLabels => "No labels"@,
                BarChartBarLabels::Provided(_) => "Labels provided"@,
                BarChartBarLabels::FromColumn(_) => "Labels from a column"@,
            }),
    {
        match self {
            BarChartBarLabels::NoLabels => "No labels",
            BarChartBarLabels::Provided(_) => "Labels provided",
            BarChartBarLabels::FromColumn(_) => "Labels from a column",
        }
    }
}

impl StackedBarChartAxisLabelStrategy {
    /// How the strategy is shown.
    pub fn description(&self) -> (r: &'static str)
        ensures
            r@ == (match *self {
                StackedBarChartAxisLabelStrategy::NoLabels => "No labels"@,
                StackedBarChartAxisLabelStrategy::Provided { .. } => "Both Axis labels provided"@,
                StackedBarChartAxisLabelStrategy::Header(_) => "Y axis provided"@,
            }),
    {
        match self {
            StackedBarChartAxisLabelStrategy::NoLabels => "No labels",
            StackedBarChartAxisLabelStrategy::Provided { .. } => "Both Axis labels provided",
            StackedBarChartAxisLabelStrategy::Header(_) => "Y axis provided",
        }
    }
}

} // verus!
