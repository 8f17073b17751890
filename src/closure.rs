use vstd::prelude::*;

use crate::association::AssociationMap;
use crate::error::ScoreError;
use crate::termset::TermSet;

verus! {

/// Every term of `terms` is a key of `closure`.
pub open spec fn covered(terms: Set<Seq<char>>, closure: Map<Seq<char>, Set<Seq<char>>>) -> bool {
    terms.subset_of(closure.dom())
}

/// The union of the closure sets of the terms.
pub open spec fn expand_spec(
    terms: Set<Seq<char>>,
    closure: Map<Seq<char>, Set<Seq<char>>>,
) -> Set<Seq<char>> {
    Set::new(
        |x: Seq<char>|
            exists|t: Seq<char>| #[trigger]
                terms.contains(t) && closure.contains_key(t) && closure[t].contains(x),
    )
}

/// What expanding `terms` yields: the expansion when every term has a closure
/// entry; otherwise a term without one.
pub open spec fn expand_outcome(
    terms: Set<Seq<char>>,
    closure: Map<Seq<char>, Set<Seq<char>>>,
    r: Result<TermSet, ScoreError>,
) -> bool {
    match r {
        Ok(s) => covered(terms, closure) && s.wf() && s@ == expand_spec(terms, closure),
        Err(ScoreError::UnknownTerm(t)) => terms.contains(t@) && !closure.contains_key(t@),
        Err(_) => false,
    }
}

/// Expansion distributes over union: expanding the terms of two sets together
/// gives the union of expanding each.
pub proof fn lemma_expand_union(
    a: Set<Seq<char>>,
    b: Set<Seq<char>>,
    closure: Map<Seq<char>, Set<Seq<char>>>,
)
    ensures
        expand_spec(a.union(b), closure) == expand_spec(a, closure).union(expand_spec(b, closure)),
{
    let l = expand_spec(a.union(b), closure);
    let ea = expand_spec(a, closure);
    let eb = expand_spec(b, closure);
    assert forall|x: Seq<char>| l.contains(x) <==> ea.union(eb).contains(x) by {
        if l.contains(x) {
            let t = choose|t: Seq<char>| #[trigger]
                a.union(b).contains(t) && closure.contains_key(t) && closure[t].contains(x);
            if a.contains(t) {
                assert(ea.contains(x));
            } else {
                assert(b.contains(t));
                assert(eb.contains(x));
            }
        }
        if ea.contains(x) {
            let t = choose|t: Seq<char>| #[trigger]
                a.contains(t) && closure.contains_key(t) && closure[t].contains(x);
            assert(a.union(b).contains(t));
        }
        if eb.contains(x) {
            let t = choose|t: Seq<char>| #[trigger]
                b.contains(t) && closure.contains_key(t) && closure[t].contains(x);
            assert(a.union(b).contains(t));
        }
    }
    assert(l =~= ea.union(eb));
}

/// Expanding a single term gives its closure set.
pub proof fn lemma_expand_single(t: Seq<char>, closure: Map<Seq<char>, Set<Seq<char>>>)
    requires
        closure.contains_key(t),
    ensures
        expand_spec(set![t], closure) == closure[t],
{
    let l = expand_spec(set![t], closure);
    assert forall|x: Seq<char>| l.contains(x) <==> closure[t].contains(x) by {
        if closure[t].contains(x) {
            assert(set![t].contains(t));
        }
    }
    assert(l =~= closure[t]);
}

/// Replaces each term by the set of terms that the closure map relates it to,
/// and returns the union of those sets. Fails on a term the map does not hold.
pub fn expand_terms_using_closure(terms: &TermSet, closure: &AssociationMap) -> (r: Result<
    TermSet,
    ScoreError,
>)
    requires
        terms.wf(),
        closure.wf(),
    ensures
        expand_outcome(terms@, closure@, r),
{
    let mut expanded = TermSet::new();
    let n = terms.len();
    let mut i: usize = 0;
    while i < n
        invariant
            terms.wf(),
            closure.wf(),
            expanded.wf(),
            n == terms.term_seq().len(),
            i <= n,
            forall|j: int| 0 <= j < i ==> closure@.contains_key(#[trigger] terms.term_seq()[j]),
            expanded@ == expand_spec(terms.term_seq().take(i as int).to_set(), closure@),
        decreases n - i,
    {
        let t = terms.term_at(i);
        let ghost seen = terms.term_seq().take(i as int).to_set();
        proof {
            assert(terms.term_seq().take(i + 1) =~= terms.term_seq().take(i as int).push(t@));
            terms.term_seq().take(i as int).lemma_push_to_set_commute(t@);
            lemma_expand_union(seen, set![t@], closure@);
            assert(seen.insert(t@) =~= seen.union(set![t@]));
        }
        match closure.get(t) {
            Some(related) => {
                proof {
                    lemma_expand_single(t@, closure@);
                }
                expanded.extend(related);
            },
            None => {
                return Err(ScoreError::UnknownTerm(t.clone()));
            },
        }
        i = i + 1;
    }
    proof {
        assert(terms.term_seq().take(i as int) =~= terms.term_seq());
        terms.lemma_view();
    }
    Ok(expanded)
}

} // verus!
