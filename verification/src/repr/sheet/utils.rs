use vstd::prelude::*;

use super::super::col_sheet::utils::{str_equal, Reading};
use super::super::parse::{read_bool, read_i32, read_isize, spec_read_bool, spec_read_i32, spec_read_isize};
use super::super::text::{bool_text, bool_to_text, int_text, int_to_text};

verus! {

/// The type of the values held in a column of a sheet.
#[derive(Debug, Clone, Copy, PartialEq, Eq, Structural)]
pub enum ColumnType {
    /// A text column
    Text,
    /// A 32 bit signed integer column
    Integer,
    /// A signed integer column
    Number,
    /// A 32 bit floating point number column
    Float,
    /// A boolean column
    Boolean,
    /// A non-uniform type column
    Untyped,
}

impl Default for ColumnType {
    fn default() -> (r: Self)
        ensures
            r == ColumnType::Untyped,
    {
        ColumnType::Untyped
    }
}

/// The label and type of a column of a sheet.
#[derive(Debug, Clone, PartialEq)]
pub struct ColumnHeader {
    /// The label for the column
    pub label: String,
    /// The type of column
    pub kind: ColumnType,
}

impl ColumnHeader {
    pub fn new(label: String, kind: ColumnType) -> (r: Self)
        ensures
            r.label@ == label@,
            r.kind == kind,
    {
        Self { label, kind }
    }

    pub fn set_label(&mut self, label: String)
        ensures
            final(self).label@ == label@,
            final(self).kind == old(self).kind,
    {
        self.label = label;
    }
}

impl Default for ColumnHeader {
    fn default() -> (r: Self)
        ensures
            r.label@ == Seq::<char>::empty(),
            r.kind == ColumnType::Untyped,
    {
        Self { label: String::new(), kind: ColumnType::Untyped }
    }
}

/// Determines how headers for a `Sheet` are created
#[derive(Debug, Clone, PartialEq)]
pub enum HeaderLabelStrategy {
    /// No labels for all columns
    NoLabels,
    /// First csv row taken as labels
    ReadLabels,
    /// Labels are provided
    Provided(Vec<String>),
}

impl Default for HeaderLabelStrategy {
    fn default() -> (r: Self)
        ensures
            r is NoLabels,
    {
        HeaderLabelStrategy::NoLabels
    }
}

/// Determines how the type of each column is found.
#[derive(Debug, Clone, PartialEq)]
pub enum HeaderTypesStrategy {
    /// The types are infered from the csv
    Infer,
    /// The types are provided as a vector
    Provided(Vec<ColumnType>),
    /// All columns have no particular type
    NoTypes,
}

impl Default for HeaderTypesStrategy {
    fn default() -> (r: Self)
        ensures
            r is NoTypes,
    {
        HeaderTypesStrategy::NoTypes
    }
}

/// Another name for [`HeaderTypesStrategy`].
pub type TypesStrategy = HeaderTypesStrategy;

/// Determines how the labels of the line graph created from a sheet are handled
#[derive(Debug, Clone, PartialEq)]
pub enum LineLabelStrategy {
    /// Label is derived from a the cells of a column. The values are not used
    /// within the line graph
    FromCell(usize),
    /// Labels for each line are provided. Excess labels are ignored.
    Provided(Vec<String>),
    /// No labels
    NoLabels,
}

impl Default for LineLabelStrategy {
    fn default() -> (r: Self)
        ensures
            r is NoLabels,
    {
        LineLabelStrategy::NoLabels
    }
}

/// Determines how the axis labels are generated for a bar chart
#[derive(Debug, Clone, PartialEq)]
pub enum BarChartAxisLabelStrategy {
    /// Any corresponding hearders present will serve as the labels for the axis
    Headers,
    /// The axis labels are provided.
    Provided { x: String, y: String },
    /// No labels are generated
    NoLabels,
}

impl Default for BarChartAxisLabelStrategy {
    fn default() -> (r: Self)
        ensures
            r is NoLabels,
    {
        BarChartAxisLabelStrategy::NoLabels
    }
}

/// Determines how the labels for individual bars are generated
#[derive(Debug, Clone, PartialEq)]
pub enum BarChartBarLabels {
    /// No labels generated
    NoLabels,
    /// Values from corresponding column used as the labels
    FromColumn(usize),
    /// Labels are provided. Excess labels are ignored.
    Provided(Vec<String>),
}

impl Default for BarChartBarLabels {
    fn default() -> (r: Self)
        ensures
            r is NoLabels,
    {
        BarChartBarLabels::NoLabels
    }
}

/// Determines how the axis labels of a stacked bar chart are generated.
#[derive(Debug, Clone, PartialEq)]
pub enum StackedBarChartAxisLabelStrategy {
    /// The y axis label is provided, while the header for the x column is used
    /// as the x axis label
    Header(String),
    /// Both axis labels are provided
    Provided { x: String, y: String },
    /// No labels for both axis
    NoLabels,
}

impl Default for StackedBarChartAxisLabelStrategy {
    fn default() -> (r: Self)
        ensures
            r is NoLabels,
    {
        StackedBarChartAxisLabelStrategy::NoLabels
    }
}

/// What a cell of a sheet holds.
pub enum DataValue {
    Text(Seq<char>),
    Integer(i32),
    /// A 32 bit float, by its bit pattern.
    Float(u32),
    Number(isize),
    Boolean(bool),
    Empty,
}

/// The data within a cell of a sheet.
#[derive(Debug, Clone, PartialEq, Eq, Hash)]
pub enum Data {
    /// A text
    Text(String),
    /// A 32 bit signed integer
    Integer(i32),
    /// A 32 bit float, by its bit pattern
    Float(u32),
    /// A signed integer
    Number(isize),
    /// A boolean value
    Boolean(bool),
    /// An empty cell
    Empty,
}

impl Default for Data {
    fn default() -> (r: Self)
        ensures
            r.value() == DataValue::Empty,
    {
        Data::Empty
    }
}

/// The text standing for an empty cell.
pub open spec fn empty_text() -> Seq<char> {
    seq!['<', 'N', 'o', 'n', 'e', '>']
}

/// The data a field of text stands for: nothing when it is empty, else the
/// first of an `i32`, a boolean, a 32 bit float and an `isize` it reads as;
/// nothing when it is the text of an empty cell, and text otherwise.
pub open spec fn data_of(r: Reading) -> DataValue {
    let t = r.text@;
    if t.len() == 0 {
        DataValue::Empty
    } else if spec_read_i32(t) is Some {
        DataValue::Integer(spec_read_i32(t)->Some_0)
    } else if spec_read_bool(t) is Some {
        DataValue::Boolean(spec_read_bool(t)->Some_0)
    } else if r.as_f32 is Some {
        DataValue::Float(r.as_f32->Some_0)
    } else if spec_read_isize(t) is Some {
        DataValue::Number(spec_read_isize(t)->Some_0)
    } else if t == empty_text() {
        DataValue::Empty
    } else {
        DataValue::Text(t)
    }
}

/// The type of column a value belongs in; an empty cell belongs in any.
pub open spec fn kind_of(d: DataValue) -> ColumnType {
    match d {
        DataValue::Text(_) => ColumnType::Text,
        DataValue::Float(_) => ColumnType::Float,
        DataValue::Number(_) => ColumnType::Number,
        DataValue::Integer(_) => ColumnType::Integer,
        DataValue::Boolean(_) => ColumnType::Boolean,
        DataValue::Empty => ColumnType::Untyped,
    }
}

/// Whether a value may stand in a column of type `kind`: an empty value and
/// a column of no particular type take anything.
pub open spec fn fits_column(kind: ColumnType, d: DataValue) -> bool {
    d is Empty || kind == ColumnType::Untyped || kind_of(d) == kind
}

/// The text of a value that is not a float.
pub open spec fn plain_text(d: DataValue) -> Seq<char> {
    match d {
        DataValue::Text(t) => t,
        DataValue::Integer(i) => int_text(i as int),
        DataValue::Number(n) => int_text(n as int),
        DataValue::Boolean(b) => bool_text(b),
        DataValue::Float(_) => Seq::empty(),
        DataValue::Empty => empty_text(),
    }
}

/// `t` is the text of `d`, where `float_text` writes floats.
pub open spec fn is_text_of<F: Fn(u32) -> String>(t: String, d: DataValue, float_text: F) -> bool {
    match d {
        DataValue::Float(b) => call_ensures(float_text, (b,), t),
        _ => t@ == plain_text(d),
    }
}

impl Data {
    /// The value the data stands for.
    pub open spec fn value(&self) -> DataValue {
        match self {
            Data::Text(t) => DataValue::Text(t@),
            Data::Integer(i) => DataValue::Integer(*i),
            Data::Float(f) => DataValue::Float(*f),
            Data::Number(n) => DataValue::Number(*n),
            Data::Boolean(b) => DataValue::Boolean(*b),
            Data::Empty => DataValue::Empty,
        }
    }

    /// A copy of the data.
    pub fn duplicate(&self) -> (r: Self)
        ensures
            r.value() == self.value(),
    {
        match self {
            Data::Text(t) => Data::Text(t.clone()),
            Data::Integer(i) => Data::Integer(*i),
            Data::Float(f) => Data::Float(*f),
            Data::Number(n) => Data::Number(*n),
            Data::Boolean(b) => Data::Boolean(*b),
            Data::Empty => Data::Empty,
        }
    }

    /// Reads the data a field of text stands for.
    pub fn from_reading(r: &Reading) -> (d: Self)
        ensures
            d.value() == data_of(*r),
    {
        let t = r.text.as_str();
        if t.is_empty() {
            return Data::Empty;
        }
        if let Some(i) = read_i32(t) {
            return Data::Integer(i);
        }
        if let Some(b) = read_bool(t) {
            return Data::Boolean(b);
        }
        if let Some(f) = r.as_f32 {
            return Data::Float(f);
        }
        if let Some(n) = read_isize(t) {
            return Data::Number(n);
        }
        proof {
            reveal_strlit("<None>");
            assert("<None>"@ =~= empty_text());
        }
        if str_equal(t, "<None>") {
            return Data::Empty;
        }
        Data::Text(r.text.clone())
    }

    /// Whether the value is below zero.
    pub fn is_negative(&self) -> (r: bool)
        ensures
            r == match self.value() {
                DataValue::Number(n) => n < 0,
                DataValue::Integer(i) => i < 0,
                DataValue::Float(f) => f > 0x8000_0000 && f <= 0xff80_0000,
                _ => false,
            },
    {
        match self {
            Data::Number(n) => *n < 0,
            Data::Float(f) => *f > 0x8000_0000 && *f <= 0xff80_0000,
            Data::Integer(i) => *i < 0,
            _ => false,
        }
    }

    /// The type of column the value belongs in.
    pub fn kind(&self) -> (r: ColumnType)
        ensures
            r == kind_of(self.value()),
    {
        match self {
            Data::Text(_) => ColumnType::Text,
            Data::Float(_) => ColumnType::Float,
            Data::Number(_) => ColumnType::Number,
            Data::Integer(_) => ColumnType::Integer,
            Data::Boolean(_) => ColumnType::Boolean,
            Data::Empty => ColumnType::Untyped,
        }
    }

    /// Writes the value as text; `float_text` writes a float, given by its
    /// bit pattern, and an empty cell reads `<None>`.
    pub fn to_text<F: Fn(u32) -> String>(&self, float_text: &F) -> (r: String)
        requires
            forall|b: u32| call_requires(*float_text, (b,)),
        ensures
            is_text_of(r, self.value(), *float_text),
    {
        match self {
            Data::Text(t) => {
                let r = t.clone();
                assert(r@ == plain_text(self.value()));
                r
            },
            Data::Integer(i) => int_to_text(*i as i128),
            Data::Float(f) => float_text(*f),
            Data::Number(n) => int_to_text(*n as i128),
            Data::Boolean(b) => bool_to_text(*b),
            Data::Empty => {
                proof {
                    reveal_strlit("<None>");
                    assert("<None>"@ =~= empty_text());
                }
                "<None>".to_owned()
            },
        }
    }
}

impl ColumnType {
    /// Returns true if `data` may stand in a column of this type. For
    /// flexibility, an empty cell and a column of no particular type always do.
    pub fn crosscheck_type(&self, data: &Data) -> (r: bool)
        ensures
            r == fits_column(*self, data.value()),
    {
        if let Data::Empty = data {
            return true;
        }
        let conv = data.kind();
        match self {
            ColumnType::Untyped => true,
            _ => conv == *self,
        }
    }
}

impl ColumnHeader {
    /// Returns true if `data` may stand in the header's column.
    pub fn crosscheck_type(&self, data: &Data) -> (r: bool)
        ensures
            r == fits_column(self.kind, data.value()),
    {
        self.kind.crosscheck_type(data)
    }
}

} // verus!
