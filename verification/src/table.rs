//! Tabular records and the bridge to the `csv` crate.

use vstd::prelude::*;
use crate::text::{is_whitespace, trim_start_of};

verus! {

/// The fields of a record as sequences of characters.
pub open spec fn row_view(row: Seq<String>) -> Seq<Seq<char>> {
    Seq::new(row.len(), |i: int| row[i]@)
}

/// The records of a table as sequences of fields.
pub open spec fn rows_view(rows: Seq<Vec<String>>) -> Seq<Seq<Seq<char>>> {
    Seq::new(rows.len(), |i: int| row_view(rows[i]@))
}

/// A string without its trailing whitespace.
pub open spec fn trim_end_of(s: Seq<char>) -> Seq<char>
    decreases s.len(),
{
    if s.len() > 0 && is_whitespace(s.last()) {
        trim_end_of(s.drop_last())
    } else {
        s
    }
}

/// A string without its leading and trailing whitespace.
pub open spec fn trim_of(s: Seq<char>) -> Seq<char> {
    trim_end_of(trim_start_of(s))
}

/// A record with every field trimmed.
pub open spec fn trimmed_row(row: Seq<Seq<char>>) -> Seq<Seq<char>> {
    Seq::new(row.len(), |i: int| trim_of(row[i]))
}

/// What the `csv` crate reads from a text in which `delimiter` separates the fields: the
/// records in their order, the header row first, or the message of the error that it
/// reports.
pub uninterp spec fn csv_records(data: Seq<u8>, delimiter: u8) -> Result<
    Seq<Seq<Seq<char>>>,
    Seq<char>,
>;

/// What the `csv` crate writes for a sequence of records, comma-delimited and quoted where
/// necessary, or the message of the error that it reports.
pub uninterp spec fn csv_text(rows: Seq<Seq<Seq<char>>>) -> Result<Seq<u8>, Seq<char>>;

/// `csv::Reader::records` on a reader over `data` that takes the first row as a record
/// like the others: every record of the text as its fields, or the message of the first
/// error.
#[verifier::external_body]
pub(crate) fn read_records(data: &[u8], delimiter: u8) -> (r: Result<Vec<Vec<String>>, String>)
    ensures
        match r {
            Ok(rows) => csv_records(data@, delimiter) == Ok::<Seq<Seq<Seq<char>>>, Seq<char>>(
                rows_view(rows@),
            ),
            Err(message) => csv_records(data@, delimiter) == Err::<
                Seq<Seq<Seq<char>>>,
                Seq<char>,
            >(message@),
        },
{
    let mut reader = csv::ReaderBuilder::new()
        .has_headers(false)
        .delimiter(delimiter)
        .from_reader(data);
    let records: Result<Vec<csv::StringRecord>, csv::Error> = reader.records().collect();
    match records {
        Ok(rows) => Ok(rows.iter().map(|row| row.iter().map(String::from).collect()).collect()),
        Err(e) => Err(e.to_string()),
    }
}

/// `csv::Writer::write_record` for each record in turn, on a writer into memory: the text
/// written, or the message of the first error.
#[verifier::external_body]
pub(crate) fn write_records(rows: &Vec<Vec<String>>) -> (r: Result<Vec<u8>, String>)
    ensures
        match r {
            Ok(data) => csv_text(rows_view(rows@)) == Ok::<Seq<u8>, Seq<char>>(data@),
            Err(message) => csv_text(rows_view(rows@)) == Err::<Seq<u8>, Seq<char>>(message@),
        },
{
    let mut writer = csv::WriterBuilder::new().from_writer(Vec::new());
    for row in rows {
        if let Err(e) = writer.write_record(row) {
            return Err(e.to_string());
        }
    }
    writer.into_inner().map_err(|e| e.to_string())
}

/// `csv::StringRecord::trim`: the record with the leading and trailing whitespace of every
/// field removed.
#[verifier::external_body]
pub(crate) fn trim_record(row: &Vec<String>) -> (r: Vec<String>)
    ensures
        row_view(r@) == trimmed_row(row_view(row@)),
{
    let mut record = csv::StringRecord::from(row.as_slice());
    record.trim();
    record.iter().map(String::from).collect()
}

} // verus!
