use vstd::prelude::*;

use crate::association::{parse_associations, parse_outcome, record_views, AssociationMap};
use crate::error::ScoreError;

verus! {

#[verifier::external_type_specification]
#[verifier::external_body]
pub struct ExCsvError(csv::Error);

/// The rows of delimited text, each as its list of fields, when every row
/// reads; `None` when reading stops on an error.
pub uninterp spec fn csv_rows_of(text: Seq<u8>, delimiter: u8) -> Option<Seq<Seq<Seq<char>>>>;

/// Relies on csv's `ReaderBuilder` (no header row, rows of any length, the
/// given delimiter) and `Reader::records`: the fields of every row, or the
/// first error met.
#[verifier::external_body]
fn read_delimited(text: &[u8], delimiter: u8) -> (r: Result<Vec<Vec<String>>, csv::Error>)
    ensures
        match r {
            Ok(rows) => csv_rows_of(text@, delimiter) == Some(record_views(rows@)),
            Err(_) => csv_rows_of(text@, delimiter) is None,
        },
{
    csv::ReaderBuilder::new().has_headers(false).flexible(true).delimiter(delimiter).from_reader(
        text,
    ).records().map(|row| row.map(|rec| rec.iter().map(String::from).collect())).collect()
}

/// What parsing delimited text yields: a read error when its rows cannot be
/// read, otherwise what parsing those rows yields.
pub open spec fn source_outcome(text: Seq<u8>, delimiter: u8, r: Result<AssociationMap, ScoreError>) -> bool {
    match csv_rows_of(text, delimiter) {
        None => r == Err::<AssociationMap, ScoreError>(ScoreError::SourceRead),
        Some(rows) => parse_outcome(rows, r),
    }
}

/// Reads delimited text without a header row and builds the map of its
/// `(key, value)` rows.
pub fn parse_source(text: &[u8], delimiter: u8) -> (r: Result<AssociationMap, ScoreError>)
    ensures
        source_outcome(text@, delimiter, r),
{
    match read_delimited(text, delimiter) {
        Ok(rows) => parse_associations(&rows),
        Err(_) => Err(ScoreError::SourceRead),
    }
}

} // verus!
