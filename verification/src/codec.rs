//! Delimited text, read and written by the `csv` crate. What that crate
//! makes of its input is not proved here: its results carry names, and the
//! table's own part is stated over them.

use vstd::prelude::*;

verus! {

/// The error type of the `csv` crate, carried through unread.
#[verifier::external_type_specification]
#[verifier::external_body]
pub struct ExCsvError(csv::Error);

/// The delimiter that is used where a table names none.
pub const DEFAULT_DELIMITER: u8 = 44u8;

/// Records as values: each a sequence of fields, each field its text.
pub type Records = Seq<Seq<Seq<char>>>;

/// The records that the `csv` reader finds in `bytes` when fields are parted
/// by `delimiter`, no row is a header and all records must agree in length;
/// `None` where it reports an error.
pub uninterp spec fn csv_records(bytes: Seq<u8>, delimiter: u8) -> Option<Seq<Seq<Seq<char>>>>;

/// The bytes that the `csv` writer produces for `records` when fields are
/// parted by `delimiter`; `None` where it reports an error.
pub uninterp spec fn csv_bytes(records: Seq<Seq<Seq<char>>>, delimiter: u8) -> Option<Seq<u8>>;

/// The texts of a list of records.
pub open spec fn record_texts(records: Seq<Vec<String>>) -> Records {
    Seq::new(records.len(), |r: int| Seq::new(records[r]@.len(), |c: int| records[r]@[c]@))
}

/// The delimiter in use for a table's choice.
pub open spec fn spec_delimiter_or_default(delimiter: Option<u8>) -> u8 {
    match delimiter {
        Some(d) => d,
        None => DEFAULT_DELIMITER,
    }
}

/// The delimiter in use for a table's choice: the one chosen, or the
/// default.
pub fn delimiter_or_default(delimiter: Option<u8>) -> (d: u8)
    ensures
        d == spec_delimiter_or_default(delimiter),
{
    match delimiter {
        Some(d) => d,
        None => DEFAULT_DELIMITER,
    }
}

/// Runs `csv::Reader` over `bytes`, without a header row and with the given
/// delimiter, and collects every record as owned strings. The claim is only
/// that the outcome is the named one: the records on success, an error where
/// the reader reports one.
#[verifier::external_body]
pub(crate) fn read_records(bytes: &[u8], delimiter: u8) -> (result: Result<Vec<Vec<String>>, csv::Error>)
    ensures
        match result {
            Ok(records) => csv_records(bytes@, delimiter) == Some(record_texts(records@)),
            Err(_) => csv_records(bytes@, delimiter) is None,
        },
{
    let mut builder = csv::ReaderBuilder::new();
    builder.has_headers(false).delimiter(delimiter);
    let mut records: Vec<Vec<String>> = Vec::new();
    for result in builder.from_reader(bytes).records() {
        records.push(result?.iter().map(String::from).collect());
    }
    Ok(records)
}

/// Runs `csv::Writer` with the given delimiter over `records`, one
/// `write_record` each, into a byte vector. The claim is only that the
/// outcome is the named one: the bytes on success, an error where the writer
/// reports one.
#[verifier::external_body]
pub(crate) fn write_records(records: &Vec<Vec<String>>, delimiter: u8) -> (result: Result<
    Vec<u8>,
    csv::Error,
>)
    ensures
        match result {
            Ok(bytes) => csv_bytes(record_texts(records@), delimiter) == Some(bytes@),
            Err(_) => csv_bytes(record_texts(records@), delimiter) is None,
        },
{
    let mut writer = csv::WriterBuilder::new().delimiter(delimiter).from_writer(Vec::new());
    for record in records {
        writer.write_record(record)?;
    }
    match writer.into_inner() {
        Ok(bytes) => Ok(bytes),
        Err(e) => Err(csv::Error::from(e.into_error())),
    }
}

/// The message of a `csv::Error`, as its `Display` gives it. Nothing is
/// claimed of the text.
#[verifier::external_body]
pub(crate) fn csv_error_text(error: &csv::Error) -> (text: String) {
    format!("{}", error)
}

/// Why a table could not be read.
#[derive(Debug, Clone)]
pub enum LoadError {
    /// The text is not well-formed delimited text; the message says why.
    MalformedRecord(String),
}

/// Why a table could not be written.
#[derive(Debug, Clone)]
pub enum SaveError {
    /// No path was given and none is remembered.
    NoDestination,
    /// The file does not exist and it was not asked to create it.
    DestinationMissingAndCreationNotRequested,
    /// The path has no parent directory that could be created.
    InvalidParentPath,
    /// The table could not be encoded or written; the message says why.
    Write(String),
}

} // verus!
