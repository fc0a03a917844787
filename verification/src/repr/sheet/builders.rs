//! Step by step settings for reading a sheet.
use vstd::prelude::*;

use super::super::col_sheet::csv_source::{csv_table, parse_csv, strings, string_rows, CsvRecords};
use super::super::col_sheet::utils::Reading;
use super::error::Error;
use super::utils::{HeaderLabelStrategy, TypesStrategy};
use super::{is_read_sheet, Sheet};

verus! {

/// The settings used to read a sheet from the delimited text at `path`.
#[derive(Debug, Clone, PartialEq)]
pub struct SheetBuilder<P> {
    pub path: P,
    pub primary: usize,
    pub trim: bool,
    pub label_strategy: HeaderLabelStrategy,
    pub flexible: bool,
    pub type_strategy: TypesStrategy,
    pub delimiter: u8,
}

/// Whether the first record of the text holds the labels.
pub open spec fn label_record(strategy: HeaderLabelStrategy) -> bool {
    strategy is ReadLabels
}

impl<P> SheetBuilder<P> {
    /// Settings for the text at `path`: primary column 0, no trimming, no
    /// labels, records of one width, no column types, comma delimited.
    pub fn new(path: P) -> (r: Self)
        ensures
            r.path == path,
            r.primary == 0,
            !r.trim,
            r.label_strategy is NoLabels,
            !r.flexible,
            r.type_strategy is NoTypes,
            r.delimiter == 44,
    {
        Self {
            path,
            primary: 0,
            trim: false,
            label_strategy: HeaderLabelStrategy::NoLabels,
            flexible: false,
            type_strategy: TypesStrategy::NoTypes,
            delimiter: 44u8,
        }
    }

    pub fn primary(self, primary: usize) -> (r: Self)
        ensures
            r == (Self { primary, ..self }),
    {
        Self { primary, ..self }
    }

    pub fn trim(self, trim: bool) -> (r: Self)
        ensures
            r == (Self { trim, ..self }),
    {
        Self { trim, ..self }
    }

    pub fn flexible(self, flexible: bool) -> (r: Self)
        ensures
            r == (Self { flexible, ..self }),
    {
        Self { flexible, ..self }
    }

    pub fn types(self, strategy: TypesStrategy) -> (r: Self)
        ensures
            r == (Self { type_strategy: strategy, ..self }),
    {
        Self { type_strategy: strategy, ..self }
    }

    pub fn labels(self, strategy: HeaderLabelStrategy) -> (r: Self)
        ensures
            r == (Self { label_strategy: strategy, ..self }),
    {
        Self { label_strategy: strategy, ..self }
    }

    pub fn delimiter(self, delimiter: u8) -> (r: Self)
        ensures
            r == (Self { delimiter, ..self }),
    {
        let mut s = self;
        s.delimiter = delimiter;
        s
    }

    /// Reads the records of the delimited text `bytes` with these settings;
    /// the first record is the header record when the labels are read.
    pub fn read_records(&self, bytes: &[u8]) -> (r: Result<CsvRecords, Error>)
        ensures
            r is Ok <==> csv_table(bytes@, label_record(self.label_strategy), self.trim, self.delimiter, self.flexible)
                is Some,
            r matches Ok(t) ==> csv_table(
                bytes@,
                label_record(self.label_strategy),
                self.trim,
                self.delimiter,
                self.flexible,
            ) == Some((strings(t.labels@), string_rows(t.records@))),
            r matches Err(e) ==> e is CSVReaderError,
    {
        let has_headers = match self.label_strategy {
            HeaderLabelStrategy::ReadLabels => true,
            _ => false,
        };
        match parse_csv(bytes, has_headers, self.trim, self.delimiter, self.flexible) {
            Ok((labels, records)) => Ok(CsvRecords { labels, records }),
            Err(message) => Err(Error::CSVReaderError(message)),
        }
    }

    /// Builds the sheet from the records read with these settings (their
    /// fields with what they read as), `read_labels` being the header record.
    pub fn build(self, records: Vec<Vec<Reading>>, read_labels: Vec<String>) -> (r: Result<Sheet, Error>)
        ensures
            r matches Ok(s) ==> is_read_sheet(
                s,
                records@,
                read_labels@,
                self.primary,
                self.label_strategy,
                self.type_strategy,
                self.flexible,
            ) && s.valid() && s.unique_ids(),
            r matches Err(e) ==> exists|s: Sheet|
                is_read_sheet(
                    s,
                    records@,
                    read_labels@,
                    self.primary,
                    self.label_strategy,
                    self.type_strategy,
                    self.flexible,
                ) && #[trigger] s.validation(Err::<(), Error>(e)),
    {
        Sheet::from_records(
            records,
            read_labels,
            self.primary,
            self.label_strategy,
            self.type_strategy,
            self.flexible,
        )
    }
}

} // verus!
