//! How a delimited text source is read into a sheet.
use vstd::prelude::*;

use super::sheet::utils::TypesStrategy;

verus! {

/// The string taken to mean an empty cell unless configured otherwise.
pub const NULL: &'static str = "<null>";

/// Determines how headers read
#[derive(Debug, Clone, PartialEq)]
pub enum HeaderStrategy {
    /// No labels for all columns
    NoLabels,
    /// First csv row taken as labels
    ReadLabels,
    /// Labels are provided
    Provided(Vec<String>),
}

impl Default for HeaderStrategy {
    fn default() -> (r: Self)
        ensures
            r is NoLabels,
    {
        HeaderStrategy::NoLabels
    }
}

/// The settings used to read a sheet from the delimited text at `path`.
#[derive(Debug, Clone, PartialEq)]
pub struct Config<P> {
    pub path: P,
    pub primary: usize,
    pub trim: bool,
    pub label_strategy: HeaderStrategy,
    pub flexible: bool,
    pub type_strategy: TypesStrategy,
    pub delimiter: u8,
    pub null_string: String,
}

impl<P> Config<P> {
    /// Returns a new default [`Config`] with the provided path.
    pub fn new(path: P) -> (r: Self)
        ensures
            r.path == path,
            r.primary == 0,
            !r.trim,
            r.label_strategy is NoLabels,
            !r.flexible,
            r.type_strategy is NoTypes,
            r.delimiter == 44,
            r.null_string@ == NULL@,
    {
        Self {
            path,
            primary: 0,
            trim: false,
            label_strategy: HeaderStrategy::NoLabels,
            flexible: false,
            type_strategy: TypesStrategy::NoTypes,
            delimiter: 44u8,
            null_string: NULL.to_owned(),
        }
    }

    /// Sets the primary column.
    pub fn primary(self, primary: usize) -> (r: Self)
        ensures
            r == (Self { primary, ..self }),
    {
        Self { primary, ..self }
    }

    /// Whether fields are trimmed of leading and trailing whitespaces or not.
    pub fn trim(self, trim: bool) -> (r: Self)
        ensures
            r == (Self { trim, ..self }),
    {
        Self { trim, ..self }
    }

    /// Whether the number of fields in records are allowed to change or not.
    pub fn flexible(self, flexible: bool) -> (r: Self)
        ensures
            r == (Self { flexible, ..self }),
    {
        Self { flexible, ..self }
    }

    /// How the type of each column is determined.
    pub fn types(self, strategy: TypesStrategy) -> (r: Self)
        ensures
            r == (Self { type_strategy: strategy, ..self }),
    {
        Self { type_strategy: strategy, ..self }
    }

    /// How headers are determined.
    pub fn labels(self, strategy: HeaderStrategy) -> (r: Self)
        ensures
            r == (Self { label_strategy: strategy, ..self }),
    {
        Self { label_strategy: strategy, ..self }
    }

    /// The field delimiter to use when parsing CSV.
    pub fn delimiter(self, delimiter: u8) -> (r: Self)
        ensures
            r == (Self { delimiter, ..self }),
    {
        let mut s = self;
        s.delimiter = delimiter;
        s
    }

    /// The string to be considered as a null field.
    pub fn null_string(self, null_string: String) -> (r: Self)
        ensures
            r == (Self { null_string, ..self }),
    {
        let mut s = self;
        s.null_string = null_string;
        s
    }
}

} // verus!
