use vstd::prelude::*;

verus! {

/// Why a run of the pipeline stopped.
#[derive(Debug, Clone, PartialEq, Eq)]
pub enum ScoreError {
    /// The delimited text of a source could not be read as rows of fields.
    SourceRead,
    /// Row `row` (counted from 0) has `fields` fields instead of two.
    MalformedRecord { row: usize, fields: usize },
    /// A term to be expanded has no entry in the closure map.
    UnknownTerm(String),
    /// The reference key is not a key of the candidate map.
    ReferenceKeyNotFound(String),
}

} // verus!
