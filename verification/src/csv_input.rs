//! Reading the records of a CSV file (already in memory) with the `csv`
//! crate: the first line is the header, every other line a record.

use vstd::prelude::*;
use crate::sql_script::strings_of;

verus! {

/// The `csv` crate's error type.
#[verifier::external_type_specification]
#[verifier::external_body]
pub struct ExCsvError(csv::Error);

/// What the `csv` crate reads from `bytes` with its default settings
/// (header line skipped, no trimming), record by record until the first
/// error: the records read before it, and whether it stopped on an error
/// (a record after the header line that is not UTF-8, or whose number of
/// fields differs from the header's).
pub uninterp spec fn csv_read(bytes: Seq<u8>) -> (Seq<Seq<Seq<char>>>, bool);

/// The texts of the fields of each record.
pub open spec fn records_of(v: Seq<Vec<String>>) -> Seq<Seq<Seq<char>>> {
    v.map_values(|r: Vec<String>| strings_of(r@))
}

/// Reads the records of `bytes` with `csv::Reader::from_reader` and
/// `Reader::records` until the first error, and gives the records read
/// before it along with that error. The contract claims that the records
/// and the presence of an error are `csv_read(bytes)`: the `csv` crate's
/// parse is a function of the bytes alone. Which error it is is left
/// unsaid.
#[verifier::external_body]
pub(crate) fn read_csv_records(bytes: &[u8]) -> (r: (Vec<Vec<String>>, Option<csv::Error>))
    ensures
        records_of(r.0@) == csv_read(bytes@).0,
        r.1 is Some <==> csv_read(bytes@).1,
{
    let mut reader = csv::Reader::from_reader(bytes);
    let mut out: Vec<Vec<String>> = Vec::new();
    for record in reader.records() {
        match record {
            Ok(record) => out.push(record.iter().map(|field| field.to_string()).collect()),
            Err(e) => return (out, Some(e)),
        }
    }
    (out, None)
}

} // verus!
