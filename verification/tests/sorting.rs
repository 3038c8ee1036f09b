//! Sorting: mixed-direction keys, the original-position tie-break, and
//! idempotence of re-sorting.

use cozo::keyword::Keyword;
use cozo::sort::{DerivedRelStore, SortDir, Tuple};
use cozo::transact::SessionTx;
use cozo::value::DataValue;

fn kw(s: &str) -> Keyword {
    Keyword::User(s.to_string())
}

fn row(a: i64, b: i64) -> Tuple {
    Tuple(vec![DataValue::Int(a), DataValue::Int(b)])
}

fn ints(store: &DerivedRelStore) -> Vec<(i64, i64)> {
    store
        .rows
        .iter()
        .map(|t| match (&t.0[0], &t.0[1]) {
            (DataValue::Int(a), DataValue::Int(b)) => (*a, *b),
            _ => panic!("unexpected value kinds"),
        })
        .collect()
}

fn sorted(rows: Vec<Tuple>) -> DerivedRelStore {
    let mut tx = SessionTx::new(vec![], vec![]);
    let head = vec![kw("a"), kw("b")];
    let sorters = vec![(kw("a"), SortDir::Asc), (kw("b"), SortDir::Dsc)];
    tx.sort_and_collect(&DerivedRelStore { rows }, &sorters, &head)
}

#[test]
fn ascending_then_descending_keys() {
    let out = sorted(vec![row(2, 1), row(1, 5), row(2, 9), row(1, 7)]);
    assert_eq!(ints(&out), vec![(1, 7), (1, 5), (2, 9), (2, 1)]);
}

#[test]
fn full_tie_breaks_by_original_position() {
    let out = sorted(vec![row(3, 3), row(1, 1), row(3, 3), row(3, 3)]);
    // Equal keys keep their original scan order.
    assert_eq!(ints(&out), vec![(1, 1), (3, 3), (3, 3), (3, 3)]);
}

#[test]
fn sorting_twice_preserves_the_order() {
    let once = sorted(vec![row(5, 2), row(4, 4), row(5, 8), row(4, 1)]);
    let first = ints(&once);
    let twice = sorted(once.rows);
    assert_eq!(ints(&twice), first);
}

#[test]
fn empty_store_sorts_to_empty() {
    let out = sorted(vec![]);
    assert!(out.rows.is_empty());
}

#[test]
fn single_descending_key_over_strings() {
    let mut tx = SessionTx::new(vec![], vec![]);
    let head = vec![kw("s")];
    let sorters = vec![(kw("s"), SortDir::Dsc)];
    let rows = vec![
        Tuple(vec![DataValue::Str("apple".to_string())]),
        Tuple(vec![DataValue::Str("cherry".to_string())]),
        Tuple(vec![DataValue::Str("banana".to_string())]),
    ];
    let out = tx.sort_and_collect(&DerivedRelStore { rows }, &sorters, &head);
    let names: Vec<String> = out
        .rows
        .iter()
        .map(|t| match &t.0[0] {
            DataValue::Str(s) => s.clone(),
            _ => panic!("unexpected value kind"),
        })
        .collect();
    assert_eq!(names, vec!["cherry", "banana", "apple"]);
}
