use vstd::prelude::*;

verus! {

/// The character sequences of a list of strings, in order.
pub open spec fn string_views(v: Seq<String>) -> Seq<Seq<char>> {
    v.map_values(|s: String| s@)
}

/// A finite set of terms, stored as a list that holds no term twice.
#[derive(Debug)]
pub struct TermSet {
    terms: Vec<String>,
}

impl View for TermSet {
    type V = Set<Seq<char>>;

    closed spec fn view(&self) -> Set<Seq<char>> {
        self.term_seq().to_set()
    }
}

impl TermSet {
    /// The terms in storage order.
    pub closed spec fn term_seq(&self) -> Seq<Seq<char>> {
        string_views(self.terms@)
    }

    /// No term is stored twice.
    pub closed spec fn wf(&self) -> bool {
        self.term_seq().no_duplicates()
    }

    /// A well-formed set is finite, and its size is the number of stored terms.
    pub proof fn lemma_view(&self)
        requires
            self.wf(),
        ensures
            self@ == self.term_seq().to_set(),
            self.term_seq().no_duplicates(),
            self@.finite(),
            self@.len() == self.term_seq().len(),
    {
        self.term_seq().unique_seq_to_set();
    }

    pub fn new() -> (r: TermSet)
        ensures
            r.wf(),
            r@ == Set::<Seq<char>>::empty(),
    {
        let r = TermSet { terms: Vec::new() };
        assert(r.term_seq() =~= Seq::<Seq<char>>::empty());
        r
    }

    pub fn len(&self) -> (r: usize)
        requires
            self.wf(),
        ensures
            r == self@.len(),
            r == self.term_seq().len(),
            self@.finite(),
    {
        proof {
            self.lemma_view();
        }
        self.terms.len()
    }

    /// The term at position `i` of the storage order.
    pub fn term_at(&self, i: usize) -> (r: &String)
        requires
            i < self.term_seq().len(),
        ensures
            r@ == self.term_seq()[i as int],
            self@.contains(r@),
    {
        &self.terms[i]
    }

    pub fn contains(&self, t: &String) -> (r: bool)
        ensures
            r == self@.contains(t@),
    {
        let mut i: usize = 0;
        while i < self.terms.len()
            invariant
                i <= self.terms@.len(),
                forall|j: int| 0 <= j < i ==> self.term_seq()[j] != t@,
            decreases self.terms@.len() - i,
        {
            if self.terms[i] == *t {
                assert(self.term_seq()[i as int] == t@);
                return true;
            }
            i = i + 1;
        }
        false
    }

    /// Adds a term; a term already present is not added again.
    pub fn insert(&mut self, t: String)
        requires
            old(self).wf(),
        ensures
            final(self).wf(),
            final(self)@ == old(self)@.insert(t@),
    {
        if !self.contains(&t) {
            let ghost before = self.term_seq();
            self.terms.push(t);
            proof {
                assert(self.term_seq() =~= before.push(t@));
                before.lemma_push_to_set_commute(t@);
                assert forall|a: int, b: int|
                    0 <= a < b < self.term_seq().len() implies self.term_seq()[a]
                    != self.term_seq()[b] by {
                    if b == before.len() {
                        assert(before.to_set().contains(before[a]));
                    }
                }
            }
        } else {
            assert(self@.insert(t@) =~= self@);
        }
    }
    /// A set holding each string of `v`; repeats in `v` collapse.
    pub fn from_strings(v: Vec<String>) -> (r: TermSet)
        ensures
            r.wf(),
            r@ == string_views(v@).to_set(),
    {
        let mut r = TermSet::new();
        let mut rest = v;
        let ghost all = string_views(rest@);
        while rest.len() > 0
            invariant
                r.wf(),
                all == string_views(v@),
                r@.union(string_views(rest@).to_set()) == all.to_set(),
            decreases rest@.len(),
        {
            let ghost before = rest@;
            let t = rest.pop().unwrap();
            proof {
                assert(before == rest@.push(t));
                assert(string_views(before) =~= string_views(rest@).push(t@));
                string_views(rest@).lemma_push_to_set_commute(t@);
            }
            r.insert(t);
            assert(r@.union(string_views(rest@).to_set()) =~= all.to_set());
        }
        assert(string_views(rest@).to_set() =~= Set::<Seq<char>>::empty());
        assert(r@ =~= all.to_set());
        r
    }

    /// The stored terms, in storage order.
    pub fn to_strings(&self) -> (r: Vec<String>)
        ensures
            string_views(r@) == self.term_seq(),
            string_views(r@).to_set() == self@,
    {
        let mut r: Vec<String> = Vec::new();
        let mut i: usize = 0;
        while i < self.terms.len()
            invariant
                i <= self.terms@.len(),
                string_views(r@) == self.term_seq().take(i as int),
            decreases self.terms@.len() - i,
        {
            let c = self.terms[i].clone();
            let ghost prev = r@;
            r.push(c);
            assert(string_views(r@) =~= string_views(prev).push(c@));
            assert(string_views(r@) =~= self.term_seq().take(i + 1));
            i = i + 1;
        }
        assert(self.term_seq().take(i as int) =~= self.term_seq());
        r
    }

    /// Adds every term of `other`.
    pub fn extend(&mut self, other: &TermSet)
        requires
            old(self).wf(),
        ensures
            final(self).wf(),
            final(self)@ == old(self)@.union(other@),
    {
        let ghost start = self@;
        let mut i: usize = 0;
        while i < other.terms.len()
            invariant
                self.wf(),
                i <= other.terms@.len(),
                self@ == start.union(other.term_seq().take(i as int).to_set()),
            decreases other.terms@.len() - i,
        {
            self.insert(other.terms[i].clone());
            proof {
                assert(other.term_seq().take(i + 1) =~= other.term_seq().take(i as int).push(
                    other.term_seq()[i as int],
                ));
                other.term_seq().take(i as int).lemma_push_to_set_commute(other.term_seq()[i as int]);
                assert(self@ =~= start.union(other.term_seq().take(i + 1).to_set()));
            }
            i = i + 1;
        }
        assert(other.term_seq().take(i as int) =~= other.term_seq());
    }

    /// The terms of either set.
    pub fn union(&self, other: &TermSet) -> (r: TermSet)
        ensures
            r.wf(),
            r@ == self@.union(other@),
    {
        let mut r = TermSet::new();
        r.extend(self);
        r.extend(other);
        assert(r@ =~= self@.union(other@));
        r
    }

    /// The terms of both sets.
    pub fn intersection(&self, other: &TermSet) -> (r: TermSet)
        ensures
            r.wf(),
            r@ == self@.intersect(other@),
    {
        let mut r = TermSet::new();
        let mut i: usize = 0;
        while i < self.terms.len()
            invariant
                r.wf(),
                i <= self.terms@.len(),
                r@ == self.term_seq().take(i as int).to_set().intersect(other@),
            decreases self.terms@.len() - i,
        {
            let ghost t = self.term_seq()[i as int];
            proof {
                assert(self.term_seq().take(i + 1) =~= self.term_seq().take(i as int).push(t));
                self.term_seq().take(i as int).lemma_push_to_set_commute(t);
            }
            if other.contains(&self.terms[i]) {
                r.insert(self.terms[i].clone());
            }
            assert(r@ =~= self.term_seq().take(i + 1).to_set().intersect(other@));
            i = i + 1;
        }
        assert(self.term_seq().take(i as int) =~= self.term_seq());
        r
    }
    /// A separate set with the same terms in the same order.
    pub fn duplicate(&self) -> (r: TermSet)
        ensures
            r.term_seq() == self.term_seq(),
            r@ == self@,
            r.wf() == self.wf(),
    {
        TermSet { terms: self.to_strings() }
    }
}

} // verus!
