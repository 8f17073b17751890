//! Closure-expanded set similarity.
//!
//! Association tables of `(key, value)` rows become maps from key to a set of
//! values; term sets are expanded through a closure table; every candidate set
//! is scored against a reference set with the Jaccard index.
pub mod association;
pub mod closure;
pub mod error;
pub mod records;
pub mod similarity;
pub mod termset;

pub use association::{parse_associations, AssociationMap};
pub use closure::expand_terms_using_closure;
pub use error::ScoreError;
pub use records::parse_source;
pub use similarity::{jaccard_similarity, Ratio};
pub use termset::TermSet;
pub mod score;

pub use score::{score_candidates, score_sources, ScoringRecord};
