//! Records read from delimited text by the `csv` crate.
use vstd::prelude::*;

use super::super::config::{Config, HeaderStrategy};
use super::column_sheet::Error;

verus! {

/// What the `csv` crate reads from `bytes` with the given settings, when it
/// reads them without error: the header record, then the records. With
/// `has_headers`, the header record is the first record and the records are
/// those that follow it; without, the header record is still the first
/// record, and the records are all of them, the first included.
pub uninterp spec fn csv_table(
    bytes: Seq<u8>,
    has_headers: bool,
    trim: bool,
    delimiter: u8,
    flexible: bool,
) -> Option<(Seq<Seq<char>>, Seq<Seq<Seq<char>>>)>;

/// The characters of each string.
pub open spec fn strings(v: Seq<String>) -> Seq<Seq<char>> {
    v.map_values(|s: String| s@)
}

/// The characters of each field of each record.
pub open spec fn string_rows(v: Seq<Vec<String>>) -> Seq<Seq<Seq<char>>> {
    v.map_values(|r: Vec<String>| strings(r@))
}

/// Reads `bytes` with a `csv::Reader` built by `csv::ReaderBuilder` with the
/// given settings (`trim` trims every field and header, or none), taking its
/// header record and then every record. Fails with the reader's message on
/// the first error.
#[verifier::external_body]
pub(crate) fn parse_csv(bytes: &[u8], has_headers: bool, trim: bool, delimiter: u8, flexible: bool) -> (r: Result<
    (Vec<String>, Vec<Vec<String>>),
    String,
>)
    ensures
        r is Ok <==> csv_table(bytes@, has_headers, trim, delimiter, flexible) is Some,
        r matches Ok(t) ==> csv_table(bytes@, has_headers, trim, delimiter, flexible) == Some(
            (strings(t.0@), string_rows(t.1@)),
        ),
{
    let trim = if trim { csv::Trim::All } else { csv::Trim::None };
    let mut rdr = csv::ReaderBuilder::new().has_headers(has_headers).trim(trim).delimiter(
        delimiter,
    ).flexible(flexible).from_reader(bytes);
    let labels = rdr.headers().map_err(|e| e.to_string())?.iter().map(String::from).collect();
    let mut rows = Vec::new();
    for record in rdr.records() {
        rows.push(record.map_err(|e| e.to_string())?.iter().map(String::from).collect());
    }
    Ok((labels, rows))
}

/// The records of a piece of delimited text.
pub struct CsvRecords {
    /// The header record, the first record of the text: when the labels are
    /// read from the text it is not among `records`, else it is their first.
    pub labels: Vec<String>,
    /// The records, each a row of fields.
    pub records: Vec<Vec<String>>,
}

/// Whether `config` reads the first record as the labels.
pub open spec fn reads_labels<P>(config: Config<P>) -> bool {
    config.label_strategy is ReadLabels
}

/// Reads the records of the delimited text `bytes` as `config` asks.
pub fn read_records<P>(bytes: &[u8], config: &Config<P>) -> (r: Result<CsvRecords, Error>)
    ensures
        r is Ok <==> csv_table(bytes@, reads_labels(*config), config.trim, config.delimiter, config.flexible) is Some,
        r matches Ok(t) ==> csv_table(
            bytes@,
            reads_labels(*config),
            config.trim,
            config.delimiter,
            config.flexible,
        ) == Some((strings(t.labels@), string_rows(t.records@))),
        r matches Err(e) ==> e is CSV,
{
    let has_headers = match config.label_strategy {
        HeaderStrategy::ReadLabels => true,
        _ => false,
    };
    match parse_csv(bytes, has_headers, config.trim, config.delimiter, config.flexible) {
        Ok((labels, records)) => Ok(CsvRecords { labels, records }),
        Err(message) => Err(Error::CSV(message)),
    }
}

} // verus!
