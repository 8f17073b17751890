use termsim::{
    expand_terms_using_closure, jaccard_similarity, parse_associations, parse_source,
    score_candidates, score_sources, AssociationMap, Ratio, ScoreError, ScoringRecord, TermSet,
};

fn strings(items: &[&str]) -> Vec<String> {
    items.iter().map(|s| s.to_string()).collect()
}

fn set_of(items: &[&str]) -> TermSet {
    TermSet::from_strings(strings(items))
}

fn sorted(s: &TermSet) -> Vec<String> {
    let mut v = s.to_strings();
    v.sort();
    v
}

fn rows(pairs: &[(&str, &str)]) -> Vec<Vec<String>> {
    pairs.iter().map(|(k, v)| vec![k.to_string(), v.to_string()]).collect()
}

fn map_of(pairs: &[(&str, &str)]) -> AssociationMap {
    parse_associations(&rows(pairs)).unwrap()
}

fn as_f64(r: Ratio) -> f64 {
    r.numerator as f64 / r.denominator as f64
}

fn record_for<'a>(recs: &'a [ScoringRecord], id: &str) -> &'a ScoringRecord {
    recs.iter().find(|r| r.set_id == id).unwrap()
}

#[test]
fn parser_dedup() {
    let m = map_of(&[("a", "x"), ("a", "x"), ("a", "y")]);
    assert_eq!(m.len(), 1);
    let s = m.get(&"a".to_string()).unwrap();
    assert_eq!(sorted(s), strings(&["x", "y"]));
}

#[test]
fn parser_idempotence() {
    let input = rows(&[("k1", "v1"), ("k2", "v2"), ("k1", "v3"), ("", "")]);
    let m1 = parse_associations(&input).unwrap();
    let m2 = parse_associations(&input).unwrap();
    assert_eq!(m1.len(), m2.len());
    for i in 0..m1.len() {
        let k = m1.key_at(i);
        assert_eq!(sorted(m1.set_at(i)), sorted(m2.get(k).unwrap()));
    }
}

#[test]
fn parser_repeated_rows_give_same_map() {
    let once = rows(&[("k1", "v1"), ("k2", "v2"), ("k1", "v3")]);
    let mut twice = once.clone();
    twice.extend(once.clone());
    let m1 = parse_associations(&once).unwrap();
    let m2 = parse_associations(&twice).unwrap();
    assert_eq!(m1.len(), m2.len());
    for i in 0..m1.len() {
        assert_eq!(sorted(m1.set_at(i)), sorted(m2.get(m1.key_at(i)).unwrap()));
    }
}

#[test]
fn parser_accepts_empty_fields_and_input() {
    let m = map_of(&[("", "")]);
    assert_eq!(sorted(m.get(&String::new()).unwrap()), strings(&[""]));
    assert_eq!(parse_associations(&Vec::new()).unwrap().len(), 0);
}

#[test]
fn parser_rejects_row_without_two_fields() {
    let input = vec![strings(&["a", "x"]), strings(&["b"]), strings(&["c", "y", "z"])];
    match parse_associations(&input) {
        Err(e) => assert_eq!(e, ScoreError::MalformedRecord { row: 1, fields: 1 }),
        Ok(_) => panic!("a one-field row must be refused"),
    }
    let input = vec![strings(&["a", "x", "extra"])];
    match parse_associations(&input) {
        Err(e) => assert_eq!(e, ScoreError::MalformedRecord { row: 0, fields: 3 }),
        Ok(_) => panic!("a three-field row must be refused"),
    }
}

#[test]
fn source_text_is_split_into_fields() {
    let m = parse_source(b"a,x\na,y\nb,z\n", b',').unwrap();
    assert_eq!(m.len(), 2);
    assert_eq!(sorted(m.get(&"a".to_string()).unwrap()), strings(&["x", "y"]));
    assert_eq!(sorted(m.get(&"b".to_string()).unwrap()), strings(&["z"]));
    assert!(m.get(&"a,x".to_string()).is_none());
}

#[test]
fn source_text_with_tabs() {
    let m = parse_source(b"GO:1\tGO:2\nGO:1\tGO:3\n", b'\t').unwrap();
    assert_eq!(m.len(), 1);
    assert_eq!(sorted(m.get(&"GO:1".to_string()).unwrap()), strings(&["GO:2", "GO:3"]));
}

#[test]
fn source_row_of_wrong_width_is_malformed() {
    match parse_source(b"a,x\nb\n", b',') {
        Err(e) => assert_eq!(e, ScoreError::MalformedRecord { row: 1, fields: 1 }),
        Ok(_) => panic!("a one-field row must be refused"),
    }
}

#[test]
fn unreadable_source_is_a_read_error() {
    match parse_source(b"a,\xff\xfe\n", b',') {
        Err(e) => assert_eq!(e, ScoreError::SourceRead),
        Ok(_) => panic!("invalid text must be refused"),
    }
}

#[test]
fn expander_failure() {
    let closure = AssociationMap::new();
    match expand_terms_using_closure(&set_of(&["unknown"]), &closure) {
        Err(e) => assert_eq!(e, ScoreError::UnknownTerm("unknown".to_string())),
        Ok(_) => panic!("an unmapped term must be refused"),
    }
}

#[test]
fn expander_takes_union_of_closures() {
    let closure = map_of(&[("A", "anc1"), ("A", "anc2"), ("B", "anc2"), ("C", "anc3")]);
    let e = expand_terms_using_closure(&set_of(&["A", "C"]), &closure).unwrap();
    assert_eq!(sorted(&e), strings(&["anc1", "anc2", "anc3"]));
    let empty = expand_terms_using_closure(&TermSet::new(), &closure).unwrap();
    assert_eq!(empty.len(), 0);
}

#[test]
fn expander_union_law() {
    let closure = map_of(&[("t1", "a"), ("t1", "b"), ("t2", "b"), ("t2", "c")]);
    let both = expand_terms_using_closure(&set_of(&["t1", "t2"]), &closure).unwrap();
    let first = expand_terms_using_closure(&set_of(&["t1"]), &closure).unwrap();
    let second = expand_terms_using_closure(&set_of(&["t2"]), &closure).unwrap();
    assert_eq!(sorted(&both), sorted(&first.union(&second)));
}

#[test]
fn expander_keeps_term_only_when_closure_is_reflexive() {
    let closure = map_of(&[("A", "A"), ("A", "P"), ("B", "P")]);
    let e = expand_terms_using_closure(&set_of(&["A", "B"]), &closure).unwrap();
    assert_eq!(sorted(&e), strings(&["A", "P"]));
}

#[test]
fn jaccard_disjoint() {
    let r = jaccard_similarity(&set_of(&["x"]), &set_of(&["y"]));
    assert_eq!(r, Ratio { numerator: 0, denominator: 2 });
    assert_eq!(as_f64(r), 0.0);
}

#[test]
fn jaccard_identity() {
    let a = set_of(&["p", "q", "r"]);
    let r = jaccard_similarity(&a, &a);
    assert_eq!(r, Ratio { numerator: 3, denominator: 3 });
    assert_eq!(as_f64(r), 1.0);
}

#[test]
fn jaccard_bounds_and_value() {
    let a = set_of(&["a", "b", "c"]);
    let b = set_of(&["b", "c", "d", "e"]);
    let r = jaccard_similarity(&a, &b);
    assert_eq!(r, Ratio { numerator: 2, denominator: 5 });
    let f = as_f64(r);
    assert!(0.0 <= f && f <= 1.0);
}

#[test]
fn jaccard_symmetry() {
    let a = set_of(&["a", "b"]);
    let b = set_of(&["b", "c", "d"]);
    assert_eq!(jaccard_similarity(&a, &b), jaccard_similarity(&b, &a));
    assert_eq!(jaccard_similarity(&a, &b), Ratio { numerator: 1, denominator: 4 });
}

#[test]
fn jaccard_of_two_empty_sets_is_one() {
    let r = jaccard_similarity(&TermSet::new(), &TermSet::new());
    assert_eq!(r, Ratio { numerator: 1, denominator: 1 });
    let r = jaccard_similarity(&TermSet::new(), &set_of(&["x"]));
    assert_eq!(r, Ratio { numerator: 0, denominator: 1 });
}

#[test]
fn end_to_end_example() {
    let candidates = b"set1,A\nset1,B\nset2,B\nset2,C\n";
    let closures = b"A,anc1\nA,anc2\nB,anc2\nC,anc3\n";
    let recs = score_sources(candidates, closures, b',', &"set1".to_string()).unwrap();
    assert_eq!(recs.len(), 2);
    let set2 = record_for(&recs, "set2");
    assert_eq!(sorted(&set2.original_reference_set), strings(&["A", "B"]));
    assert_eq!(sorted(&set2.expanded_reference_set), strings(&["anc1", "anc2"]));
    assert_eq!(sorted(&set2.original_new_set), strings(&["B", "C"]));
    assert_eq!(sorted(&set2.expanded_new_set), strings(&["anc2", "anc3"]));
    assert_eq!(set2.jaccard_similarity, Ratio { numerator: 1, denominator: 3 });
    assert!((as_f64(set2.jaccard_similarity) - 0.3333).abs() < 1e-3);
    let set1 = record_for(&recs, "set1");
    assert_eq!(sorted(&set1.expanded_reference_set), strings(&["anc1", "anc2"]));
    assert_eq!(sorted(&set1.expanded_new_set), strings(&["anc1", "anc2"]));
    assert_eq!(as_f64(set1.jaccard_similarity), 1.0);
}

#[test]
fn end_to_end_from_maps() {
    let data = map_of(&[("set1", "A"), ("set1", "B"), ("set2", "B"), ("set2", "C")]);
    let closure = map_of(&[("A", "anc1"), ("A", "anc2"), ("B", "anc2"), ("C", "anc3")]);
    let recs = score_candidates(&data, &closure, &"set2".to_string()).unwrap();
    assert_eq!(recs.len(), 2);
    assert_eq!(record_for(&recs, "set2").jaccard_similarity, Ratio { numerator: 2, denominator: 2 });
    assert_eq!(record_for(&recs, "set1").jaccard_similarity, Ratio { numerator: 1, denominator: 3 });
}

#[test]
fn missing_reference_key() {
    let data = map_of(&[("set1", "A"), ("set2", "B")]);
    let closure = map_of(&[("A", "anc1"), ("B", "anc2")]);
    match score_candidates(&data, &closure, &"missingset".to_string()) {
        Err(e) => assert_eq!(e, ScoreError::ReferenceKeyNotFound("missingset".to_string())),
        Ok(_) => panic!("an absent reference key must be refused"),
    }
}

#[test]
fn candidate_term_without_closure_aborts_run() {
    let data = map_of(&[("set1", "A"), ("set2", "Z")]);
    let closure = map_of(&[("A", "anc1")]);
    match score_candidates(&data, &closure, &"set1".to_string()) {
        Err(e) => assert_eq!(e, ScoreError::UnknownTerm("Z".to_string())),
        Ok(_) => panic!("an unmapped candidate term must be refused"),
    }
}

#[test]
fn closure_source_errors_are_reported() {
    match score_sources(b"set1,A\n", b"A\n", b',', &"set1".to_string()) {
        Err(e) => assert_eq!(e, ScoreError::MalformedRecord { row: 0, fields: 1 }),
        Ok(_) => panic!("a malformed closure row must be refused"),
    }
}
