use vstd::prelude::*;

use crate::association::{all_pairs, pairs_to_map, parse_outcome, AssociationMap};
use crate::closure::{covered, expand_outcome, expand_spec, expand_terms_using_closure};
use crate::error::ScoreError;
use crate::records::{csv_rows_of, parse_source};
use crate::similarity::{jaccard_similarity, jaccard_spec, lemma_jaccard_identity, Ratio};
use crate::termset::TermSet;

verus! {

/// One candidate key scored against the reference key.
#[derive(Debug)]
pub struct ScoringRecord {
    pub set_id: String,
    pub original_reference_set: TermSet,
    pub expanded_reference_set: TermSet,
    pub original_new_set: TermSet,
    pub expanded_new_set: TermSet,
    pub jaccard_similarity: Ratio,
}

/// `rec` scores the set of `key` in `data` against the set of `reference`,
/// both expanded through `closure`.
pub open spec fn scores(
    rec: ScoringRecord,
    data: Map<Seq<char>, Set<Seq<char>>>,
    closure: Map<Seq<char>, Set<Seq<char>>>,
    reference: Seq<char>,
    key: Seq<char>,
) -> bool {
    &&& rec.set_id@ == key
    &&& rec.original_reference_set.wf()
    &&& rec.original_reference_set@ == data[reference]
    &&& rec.expanded_reference_set.wf()
    &&& rec.expanded_reference_set@ == expand_spec(data[reference], closure)
    &&& rec.original_new_set.wf()
    &&& rec.original_new_set@ == data[key]
    &&& rec.expanded_new_set.wf()
    &&& rec.expanded_new_set@ == expand_spec(data[key], closure)
    &&& (rec.jaccard_similarity.numerator as nat, rec.jaccard_similarity.denominator as nat)
        == jaccard_spec(expand_spec(data[reference], closure), expand_spec(data[key], closure))
}

/// Every term of every set of `data` has a closure entry.
pub open spec fn all_covered(
    data: Map<Seq<char>, Set<Seq<char>>>,
    closure: Map<Seq<char>, Set<Seq<char>>>,
) -> bool {
    forall|k: Seq<char>| #[trigger] data.contains_key(k) ==> covered(data[k], closure)
}

/// The keys named by a list of records, in order.
pub open spec fn set_ids(recs: Seq<ScoringRecord>) -> Seq<Seq<char>> {
    recs.map_values(|r: ScoringRecord| r.set_id@)
}

/// What scoring every key of `data` against `reference` yields: one record per
/// key when the reference is a key and every term has a closure entry; else
/// the missing reference, or a term of some set without a closure entry.
pub open spec fn score_outcome(
    data: Map<Seq<char>, Set<Seq<char>>>,
    closure: Map<Seq<char>, Set<Seq<char>>>,
    reference: Seq<char>,
    r: Result<Vec<ScoringRecord>, ScoreError>,
) -> bool {
    match r {
        Ok(recs) => {
            &&& data.contains_key(reference)
            &&& all_covered(data, closure)
            &&& set_ids(recs@).no_duplicates()
            &&& set_ids(recs@).to_set() == data.dom()
            &&& forall|i: int|
                0 <= i < recs@.len() ==> scores(#[trigger] recs@[i], data, closure, reference, recs@[i].set_id@)
        },
        Err(ScoreError::ReferenceKeyNotFound(k)) => k@ == reference && !data.contains_key(reference),
        Err(ScoreError::UnknownTerm(t)) => {
            &&& data.contains_key(reference)
            &&& !closure.contains_key(t@)
            &&& exists|k: Seq<char>| data.contains_key(k) && #[trigger] data[k].contains(t@)
        },
        Err(_) => false,
    }
}

/// Scores every key of `data`, the reference key included, against the set of
/// `reference_key`, after expanding both through `closure`. The reference set
/// is expanded once and shared by every record.
pub fn score_candidates(data: &AssociationMap, closure: &AssociationMap, reference_key: &String) -> (r:
    Result<Vec<ScoringRecord>, ScoreError>)
    requires
        data.wf(),
        closure.wf(),
    ensures
        score_outcome(data@, closure@, reference_key@, r),
{
    let reference = match data.get(reference_key) {
        Some(s) => s,
        None => {
            return Err(ScoreError::ReferenceKeyNotFound(reference_key.clone()));
        },
    };
    let expanded_reference = match expand_terms_using_closure(reference, closure) {
        Ok(s) => s,
        Err(e) => {
            return Err(e);
        },
    };
    proof {
        data.lemma_entries();
    }
    let ghost d = data@;
    let ghost c = closure@;
    let ghost rk = reference_key@;
    let n = data.len();
    let mut recs: Vec<ScoringRecord> = Vec::new();
    let mut i: usize = 0;
    while i < n
        invariant
            data.wf(),
            closure.wf(),
            d == data@,
            c == closure@,
            rk == reference_key@,
            n == data.key_seq().len(),
            i <= n,
            data.key_seq().no_duplicates(),
            data.key_seq().to_set() == d.dom(),
            d.contains_key(rk),
            reference@ == d[rk],
            reference.wf(),
            expanded_reference.wf(),
            covered(d[rk], c),
            expanded_reference@ == expand_spec(d[rk], c),
            set_ids(recs@) == data.key_seq().take(i as int),
            forall|j: int| 0 <= j < i ==> covered(d[#[trigger] data.key_seq()[j]], c),
            forall|j: int|
                0 <= j < recs@.len() ==> scores(#[trigger] recs@[j], d, c, rk, recs@[j].set_id@),
        decreases n - i,
    {
        let key = data.key_at(i);
        let terms = data.set_at(i);
        let expanded = match expand_terms_using_closure(terms, closure) {
            Ok(s) => s,
            Err(e) => {
                proof {
                    if e is UnknownTerm {
                        assert(d[key@].contains(e->UnknownTerm_0@));
                    }
                }
                return Err(e);
            },
        };
        let similarity = jaccard_similarity(&expanded_reference, &expanded);
        let rec = ScoringRecord {
            set_id: key.clone(),
            original_reference_set: reference.duplicate(),
            expanded_reference_set: expanded_reference.duplicate(),
            original_new_set: terms.duplicate(),
            expanded_new_set: expanded,
            jaccard_similarity: similarity,
        };
        let ghost prev = recs@;
        recs.push(rec);
        assert(set_ids(recs@) =~= set_ids(prev).push(key@));
        assert(set_ids(recs@) =~= data.key_seq().take(i + 1));
        i = i + 1;
    }
    proof {
        assert(data.key_seq().take(i as int) =~= data.key_seq());
        assert forall|k: Seq<char>| #[trigger] d.contains_key(k) implies covered(d[k], c) by {
            assert(data.key_seq().to_set().contains(k));
            let j = choose|j: int| 0 <= j < n && data.key_seq()[j] == k;
        }
    }
    Ok(recs)
}

/// What the whole run on two delimited texts yields: a read or row error of
/// the candidate text, then of the closure text, and otherwise the scoring of
/// the candidate map against the closure map.
pub open spec fn run_outcome(
    candidates: Option<Seq<Seq<Seq<char>>>>,
    closures: Option<Seq<Seq<Seq<char>>>>,
    reference: Seq<char>,
    r: Result<Vec<ScoringRecord>, ScoreError>,
) -> bool {
    match candidates {
        None => r == Err::<Vec<ScoringRecord>, ScoreError>(ScoreError::SourceRead),
        Some(dr) => if !all_pairs(dr) {
            r is Err && parse_outcome(dr, Err(r->Err_0))
        } else {
            match closures {
                None => r == Err::<Vec<ScoringRecord>, ScoreError>(ScoreError::SourceRead),
                Some(cr) => if !all_pairs(cr) {
                    r is Err && parse_outcome(cr, Err(r->Err_0))
                } else {
                    score_outcome(pairs_to_map(dr), pairs_to_map(cr), reference, r)
                },
            }
        },
    }
}

/// Reads the candidate and closure texts (rows of two fields, no header row),
/// then scores every candidate key against `reference_key`.
pub fn score_sources(candidates: &[u8], closures: &[u8], delimiter: u8, reference_key: &String) -> (r:
    Result<Vec<ScoringRecord>, ScoreError>)
    ensures
        run_outcome(
            csv_rows_of(candidates@, delimiter),
            csv_rows_of(closures@, delimiter),
            reference_key@,
            r,
        ),
{
    let data = match parse_source(candidates, delimiter) {
        Ok(m) => m,
        Err(e) => {
            return Err(e);
        },
    };
    let closure = match parse_source(closures, delimiter) {
        Ok(m) => m,
        Err(e) => {
            return Err(e);
        },
    };
    score_candidates(&data, &closure, reference_key)
}

/// The record of the reference key itself always scores full similarity.
pub proof fn lemma_self_score_is_full(
    rec: ScoringRecord,
    data: Map<Seq<char>, Set<Seq<char>>>,
    closure: Map<Seq<char>, Set<Seq<char>>>,
    reference: Seq<char>,
)
    requires
        scores(rec, data, closure, reference, reference),
    ensures
        rec.jaccard_similarity.numerator == rec.jaccard_similarity.denominator,
{
    rec.expanded_reference_set.lemma_view();
    lemma_jaccard_identity(expand_spec(data[reference], closure));
}

} // verus!
