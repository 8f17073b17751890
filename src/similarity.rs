use vstd::prelude::*;

use crate::termset::TermSet;

verus! {

/// An exact fraction `numerator / denominator`.
#[derive(Debug, Clone, Copy, PartialEq, Eq, Structural)]
pub struct Ratio {
    pub numerator: usize,
    pub denominator: usize,
}

/// The Jaccard index of two sets as a fraction `(numerator, denominator)`:
/// the size of the intersection over the size of the union. Two empty sets
/// are taken to be identical, so their index is `1 / 1`.
pub open spec fn jaccard_spec(a: Set<Seq<char>>, b: Set<Seq<char>>) -> (nat, nat) {
    if a.union(b).len() == 0 {
        (1, 1)
    } else {
        (a.intersect(b).len(), a.union(b).len())
    }
}

/// Jaccard similarity of two term sets, kept as an exact fraction.
pub fn jaccard_similarity(a: &TermSet, b: &TermSet) -> (r: Ratio)
    requires
        a.wf(),
        b.wf(),
    ensures
        (r.numerator as nat, r.denominator as nat) == jaccard_spec(a@, b@),
{
    let shared = a.intersection(b);
    let combined = a.union(b);
    let n = shared.len();
    let d = combined.len();
    if d == 0 {
        Ratio { numerator: 1, denominator: 1 }
    } else {
        Ratio { numerator: n, denominator: d }
    }
}

/// The index of two finite sets lies between 0 and 1: its denominator is
/// positive and its numerator is at most its denominator.
pub proof fn lemma_jaccard_bounds(a: Set<Seq<char>>, b: Set<Seq<char>>)
    requires
        a.finite(),
        b.finite(),
    ensures
        jaccard_spec(a, b).1 > 0,
        jaccard_spec(a, b).0 <= jaccard_spec(a, b).1,
{
    vstd::set_lib::lemma_len_subset(a.intersect(b), a.union(b));
}

/// A finite set is fully similar to itself: numerator equals denominator.
pub proof fn lemma_jaccard_identity(a: Set<Seq<char>>)
    requires
        a.finite(),
    ensures
        jaccard_spec(a, a).0 == jaccard_spec(a, a).1,
{
    assert(a.intersect(a) =~= a.union(a));
}

/// Sets that share no term, and are not both empty, have index 0.
pub proof fn lemma_jaccard_disjoint(a: Set<Seq<char>>, b: Set<Seq<char>>)
    requires
        a.finite(),
        b.finite(),
        a.disjoint(b),
        a.len() + b.len() > 0,
    ensures
        jaccard_spec(a, b).0 == 0,
        jaccard_spec(a, b).1 > 0,
{
    assert(a.intersect(b) =~= Set::<Seq<char>>::empty());
    vstd::set_lib::lemma_len_subset(a, a.union(b));
    vstd::set_lib::lemma_len_subset(b, a.union(b));
}

/// The index does not depend on the order of its arguments.
pub proof fn lemma_jaccard_symmetric(a: Set<Seq<char>>, b: Set<Seq<char>>)
    ensures
        jaccard_spec(a, b) == jaccard_spec(b, a),
{
    assert(a.union(b) =~= b.union(a));
    assert(a.intersect(b) =~= b.intersect(a));
}

} // verus!
