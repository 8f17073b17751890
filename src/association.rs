use vstd::prelude::*;

use crate::error::ScoreError;
use crate::termset::{string_views, TermSet};

verus! {

/// The fields of each row, as character sequences.
pub open spec fn record_views(rows: Seq<Vec<String>>) -> Seq<Seq<Seq<char>>> {
    rows.map_values(|r: Vec<String>| string_views(r@))
}

/// Every row has exactly two fields.
pub open spec fn all_pairs(rows: Seq<Seq<Seq<char>>>) -> bool {
    forall|i: int| 0 <= i < rows.len() ==> #[trigger] rows[i].len() == 2
}

/// The map that a list of `(key, value)` rows describes: its keys are the
/// first fields, and each key maps to the set of second fields of its rows.
pub open spec fn pairs_to_map(rows: Seq<Seq<Seq<char>>>) -> Map<Seq<char>, Set<Seq<char>>> {
    Map::new(
        |k: Seq<char>| exists|i: int| 0 <= i < rows.len() && #[trigger] rows[i][0] == k,
        |k: Seq<char>|
            Set::new(
                |v: Seq<char>|
                    exists|i: int| 0 <= i < rows.len() && #[trigger] rows[i][0] == k && rows[i][1] == v,
            ),
    )
}

/// A mapping from keys to sets of values, with the keys in insertion order.
pub struct AssociationMap {
    keys: Vec<String>,
    sets: Vec<TermSet>,
    model: Ghost<Map<Seq<char>, Set<Seq<char>>>>,
}

impl View for AssociationMap {
    type V = Map<Seq<char>, Set<Seq<char>>>;

    closed spec fn view(&self) -> Map<Seq<char>, Set<Seq<char>>> {
        self.model@
    }
}

impl AssociationMap {
    /// The keys in insertion order.
    pub closed spec fn key_seq(&self) -> Seq<Seq<char>> {
        string_views(self.keys@)
    }

    /// The set stored at position `i`.
    pub closed spec fn set_seq(&self) -> Seq<TermSet> {
        self.sets@
    }

    /// Keys are unique, each key's set is well formed, and the stored pairs
    /// are exactly the map.
    pub closed spec fn wf(&self) -> bool {
        &&& self.keys@.len() == self.sets@.len()
        &&& self.key_seq().no_duplicates()
        &&& forall|i: int| 0 <= i < self.sets@.len() ==> (#[trigger] self.sets@[i]).wf()
        &&& forall|i: int|
            0 <= i < self.keys@.len() ==> self.model@.contains_key(#[trigger] self.key_seq()[i])
                && self.model@[self.key_seq()[i]] == self.sets@[i]@
        &&& forall|k: Seq<char>| #[trigger] self.model@.contains_key(k) ==> self.key_seq().contains(k)
    }

    /// What a well-formed map's key list and set list say of its view.
    pub proof fn lemma_entries(&self)
        requires
            self.wf(),
        ensures
            self.key_seq().len() == self.set_seq().len(),
            self.key_seq().no_duplicates(),
            self.key_seq().to_set() == self@.dom(),
            forall|i: int|
                0 <= i < self.key_seq().len() ==> (#[trigger] self.set_seq()[i]).wf()
                    && self@[self.key_seq()[i]] == self.set_seq()[i]@,
    {
        assert(self.key_seq().to_set() =~= self@.dom());
    }

    pub fn new() -> (r: AssociationMap)
        ensures
            r.wf(),
            r@ == Map::<Seq<char>, Set<Seq<char>>>::empty(),
    {
        let r = AssociationMap { keys: Vec::new(), sets: Vec::new(), model: Ghost(Map::empty()) };
        assert(r.key_seq() =~= Seq::<Seq<char>>::empty());
        r
    }

    /// The number of keys.
    pub fn len(&self) -> (r: usize)
        requires
            self.wf(),
        ensures
            r == self.key_seq().len(),
    {
        self.keys.len()
    }

    /// The key at position `i` of the insertion order.
    pub fn key_at(&self, i: usize) -> (r: &String)
        requires
            self.wf(),
            i < self.key_seq().len(),
        ensures
            r@ == self.key_seq()[i as int],
            self@.contains_key(r@),
    {
        &self.keys[i]
    }

    /// The set of the key at position `i`.
    pub fn set_at(&self, i: usize) -> (r: &TermSet)
        requires
            self.wf(),
            i < self.key_seq().len(),
        ensures
            r.wf(),
            r == self.set_seq()[i as int],
            r@ == self@[self.key_seq()[i as int]],
    {
        &self.sets[i]
    }

    /// The position of key `k`, if it is a key.
    pub fn position(&self, k: &String) -> (r: Option<usize>)
        requires
            self.wf(),
        ensures
            match r {
                Some(i) => i < self.key_seq().len() && self.key_seq()[i as int] == k@,
                None => !self@.contains_key(k@),
            },
    {
        let mut i: usize = 0;
        while i < self.keys.len()
            invariant
                i <= self.keys@.len(),
                forall|j: int| 0 <= j < i ==> self.key_seq()[j] != k@,
            decreases self.keys@.len() - i,
        {
            if self.keys[i] == *k {
                return Some(i);
            }
            i = i + 1;
        }
        None
    }

    /// The set of key `k`, if it is a key.
    pub fn get(&self, k: &String) -> (r: Option<&TermSet>)
        requires
            self.wf(),
        ensures
            match r {
                Some(s) => self@.contains_key(k@) && s.wf() && s@ == self@[k@],
                None => !self@.contains_key(k@),
            },
    {
        match self.position(k) {
            Some(i) => Some(&self.sets[i]),
            None => None,
        }
    }

    /// Adds `v` to the set of key `k`, creating that set if `k` is new.
    pub fn add_pair(&mut self, k: String, v: String)
        requires
            old(self).wf(),
        ensures
            final(self).wf(),
            final(self)@ == old(self)@.insert(
                k@,
                if old(self)@.contains_key(k@) {
                    old(self)@[k@].insert(v@)
                } else {
                    set![v@]
                },
            ),
    {
        let ghost new_set = if self@.contains_key(k@) {
            self@[k@].insert(v@)
        } else {
            set![v@]
        };
        match self.position(&k) {
            Some(i) => {
                self.sets[i].insert(v);
                self.model = Ghost(self.model@.insert(k@, new_set));
                assert forall|j: int| 0 <= j < self.keys@.len() implies self.model@.contains_key(
                    #[trigger] self.key_seq()[j],
                ) && self.model@[self.key_seq()[j]] == self.sets@[j]@ by {
                    if j != i {
                        assert(self.key_seq()[j] != self.key_seq()[i as int]);
                    }
                }
            },
            None => {
                let mut s = TermSet::new();
                s.insert(v);
                let ghost old_keys = self.key_seq();
                self.keys.push(k);
                self.sets.push(s);
                self.model = Ghost(self.model@.insert(k@, new_set));
                assert(self.key_seq() =~= old_keys.push(k@));
                assert(s@ =~= new_set);
                assert(self.key_seq()[old_keys.len() as int] == k@);
                assert forall|a: int, b: int|
                    0 <= a < b < self.key_seq().len() implies self.key_seq()[a]
                    != self.key_seq()[b] by {
                    if b == old_keys.len() {
                        assert(old_keys.contains(old_keys[a]));
                    }
                }
                assert forall|kk: Seq<char>| #[trigger]
                    self.model@.contains_key(kk) implies self.key_seq().contains(kk) by {
                    if kk != k@ {
                        let j = choose|j: int| 0 <= j < old_keys.len() && old_keys[j] == kk;
                        assert(self.key_seq()[j] == kk);
                    }
                }
            },
        }
    }
}

/// What parsing `rows` yields: the map of the rows when every row has two
/// fields; otherwise the first row that does not, with its field count.
pub open spec fn parse_outcome(rows: Seq<Seq<Seq<char>>>, r: Result<AssociationMap, ScoreError>) -> bool {
    match r {
        Ok(m) => all_pairs(rows) && m.wf() && m@ == pairs_to_map(rows),
        Err(ScoreError::MalformedRecord { row, fields }) => {
            &&& row < rows.len()
            &&& rows[row as int].len() != 2
            &&& fields == rows[row as int].len()
            &&& forall|j: int| 0 <= j < row ==> #[trigger] rows[j].len() == 2
        },
        Err(_) => false,
    }
}

/// Adding one `(key, value)` row adds the value to the key's set.
pub proof fn lemma_pairs_push(rows: Seq<Seq<Seq<char>>>, row: Seq<Seq<char>>)
    requires
        row.len() == 2,
    ensures
        pairs_to_map(rows.push(row)) == pairs_to_map(rows).insert(
            row[0],
            if pairs_to_map(rows).contains_key(row[0]) {
                pairs_to_map(rows)[row[0]].insert(row[1])
            } else {
                set![row[1]]
            },
        ),
{
    let m = pairs_to_map(rows);
    let s = rows.push(row);
    let n = pairs_to_map(s);
    let e = m.insert(row[0], if m.contains_key(row[0]) { m[row[0]].insert(row[1]) } else { set![row[1]] });
    assert(s[rows.len() as int] == row);
    assert forall|k: Seq<char>| n.contains_key(k) <==> e.contains_key(k) by {
        if m.contains_key(k) {
            let i = choose|i: int| 0 <= i < rows.len() && #[trigger] rows[i][0] == k;
            assert(s[i][0] == k);
        }
        if n.contains_key(k) && k != row[0] {
            let i = choose|i: int| 0 <= i < s.len() && #[trigger] s[i][0] == k;
            assert(rows[i][0] == k);
        }
    }
    assert forall|k: Seq<char>| #[trigger] n.contains_key(k) implies n[k] =~= e[k] by {
        assert forall|v: Seq<char>| n[k].contains(v) <==> e[k].contains(v) by {
            if n[k].contains(v) && !(k == row[0] && v == row[1]) {
                let i = choose|i: int| 0 <= i < s.len() && #[trigger] s[i][0] == k && s[i][1] == v;
                assert(rows[i][0] == k && rows[i][1] == v);
            }
            if m.contains_key(k) && m[k].contains(v) {
                let i = choose|i: int| 0 <= i < rows.len() && #[trigger] rows[i][0] == k && rows[i][1] == v;
                assert(s[i][0] == k && s[i][1] == v);
            }
        }
    }
    assert(n =~= e);
}

/// Reading the same rows twice over gives the map of reading them once.
pub proof fn lemma_pairs_repeated(rows: Seq<Seq<Seq<char>>>)
    ensures
        pairs_to_map(rows + rows) == pairs_to_map(rows),
{
    let s = rows + rows;
    let n = pairs_to_map(s);
    let m = pairs_to_map(rows);
    assert forall|k: Seq<char>| n.contains_key(k) <==> m.contains_key(k) by {
        if n.contains_key(k) {
            let i = choose|i: int| 0 <= i < s.len() && #[trigger] s[i][0] == k;
            if i < rows.len() {
                assert(rows[i][0] == k);
            } else {
                assert(rows[i - rows.len()][0] == k);
            }
        }
        if m.contains_key(k) {
            let i = choose|i: int| 0 <= i < rows.len() && #[trigger] rows[i][0] == k;
            assert(s[i][0] == k);
        }
    }
    assert forall|k: Seq<char>| #[trigger] n.contains_key(k) implies n[k] =~= m[k] by {
        assert forall|v: Seq<char>| n[k].contains(v) <==> m[k].contains(v) by {
            if n[k].contains(v) {
                let i = choose|i: int| 0 <= i < s.len() && #[trigger] s[i][0] == k && s[i][1] == v;
                if i < rows.len() {
                    assert(rows[i][0] == k && rows[i][1] == v);
                } else {
                    assert(rows[i - rows.len()][0] == k && rows[i - rows.len()][1] == v);
                }
            }
            if m[k].contains(v) {
                let i = choose|i: int| 0 <= i < rows.len() && #[trigger] rows[i][0] == k && rows[i][1] == v;
                assert(s[i][0] == k && s[i][1] == v);
            }
        }
    }
    assert(n =~= m);
}

/// Parsing is a function of the rows: two parses of the same rows agree on
/// success, and give equal maps or the same error.
pub proof fn lemma_parse_deterministic(
    rows: Seq<Seq<Seq<char>>>,
    r1: Result<AssociationMap, ScoreError>,
    r2: Result<AssociationMap, ScoreError>,
)
    requires
        parse_outcome(rows, r1),
        parse_outcome(rows, r2),
    ensures
        r1 is Ok <==> r2 is Ok,
        r1 is Ok ==> r1->Ok_0@ == r2->Ok_0@,
        r1 is Err ==> r1->Err_0 == r2->Err_0,
{
    match (r1, r2) {
        (Err(ScoreError::MalformedRecord { row: a, fields: _ }), Err(ScoreError::MalformedRecord { row: b, fields: _ })) => {
            if a < b {
                assert(rows[a as int].len() == 2);
            }
            if b < a {
                assert(rows[b as int].len() == 2);
            }
        },
        (Ok(_), Err(ScoreError::MalformedRecord { row: b, fields: _ })) => {
            assert(rows[b as int].len() == 2);
        },
        (Err(ScoreError::MalformedRecord { row: a, fields: _ }), Ok(_)) => {
            assert(rows[a as int].len() == 2);
        },
        _ => {},
    }
}

/// Builds the map of a list of `(key, value)` rows. Fails on the first row
/// that does not hold exactly two fields.
pub fn parse_associations(records: &Vec<Vec<String>>) -> (r: Result<AssociationMap, ScoreError>)
    ensures
        parse_outcome(record_views(records@), r),
{
    let ghost rows = record_views(records@);
    let mut m = AssociationMap::new();
    let mut i: usize = 0;
    assert(rows.take(0) =~= Seq::<Seq<Seq<char>>>::empty());
    assert(pairs_to_map(rows.take(0)) =~= Map::<Seq<char>, Set<Seq<char>>>::empty());
    while i < records.len()
        invariant
            m.wf(),
            i <= records@.len(),
            rows == record_views(records@),
            forall|j: int| 0 <= j < i ==> #[trigger] rows[j].len() == 2,
            m@ == pairs_to_map(rows.take(i as int)),
        decreases records@.len() - i,
    {
        let rec = &records[i];
        assert(rows[i as int] == string_views(rec@));
        if rec.len() != 2 {
            return Err(ScoreError::MalformedRecord { row: i, fields: rec.len() });
        }
        proof {
            lemma_pairs_push(rows.take(i as int), rows[i as int]);
            assert(rows.take(i + 1) =~= rows.take(i as int).push(rows[i as int]));
        }
        let k = rec[0].clone();
        let v = rec[1].clone();
        m.add_pair(k, v);
        i = i + 1;
    }
    assert(rows.take(i as int) =~= rows);
    Ok(m)
}

} // verus!
