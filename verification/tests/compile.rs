//! Join-tree compiler behaviour: schemas, plan shapes, and the
//! self-referential rejection.

use cozo::attr::{Attribute, AttrValueType, Indexing};
use cozo::json::Json;
use cozo::keyword::Keyword;
use cozo::query::{QueryClauseError};
use cozo::relation::Relation;
use cozo::transact::SessionTx;
use cozo::value::{DataValue, Validity};

fn fixture() -> SessionTx {
    let attributes = vec![
        Attribute {
            keyword: Keyword::User("friend".to_string()),
            val_type: AttrValueType::Ref,
            indexing: Indexing::NotIndexed,
        },
        Attribute {
            keyword: Keyword::User("age".to_string()),
            val_type: AttrValueType::Int,
            indexing: Indexing::Indexed,
        },
    ];
    SessionTx::new(attributes, vec![])
}

fn str_json(s: &str) -> Json {
    Json::Str(s.to_string())
}

fn user_names(bindings: &[Keyword]) -> Vec<String> {
    bindings
        .iter()
        .map(|k| match k {
            Keyword::User(s) => s.clone(),
            Keyword::Synthetic(n) => format!("synthetic {}", n),
        })
        .collect()
}

fn compile(payload: Json, vld: i64) -> Result<Relation, QueryClauseError> {
    let mut tx = fixture();
    let clauses = tx.parse_clauses(&payload, Validity(vld)).unwrap();
    tx.compile_clauses(clauses, Validity(vld))
}

#[test]
fn empty_clause_list_compiles_to_unit_schema() {
    let rel = compile(Json::Arr(vec![]), 0).unwrap();
    assert!(rel.bindings().is_empty());
}

#[test]
fn both_constants_single_clause_has_empty_schema() {
    // One clause fixing entity and value: an existence check, no columns.
    let payload = Json::Arr(vec![Json::Arr(vec![
        Json::UInt(7),
        str_json("age"),
        Json::UInt(30),
    ])]);
    let rel = compile(payload, 0).unwrap();
    assert!(rel.bindings().is_empty());
    // Shape: a join of the two-column constant row against the triple scan,
    // selecting rows matching both constants.
    match &rel {
        Relation::Join(j) => {
            assert_eq!(j.joiner.left_keys.len(), 2);
            assert_eq!(j.joiner.right_keys.len(), 2);
            match &j.left {
                Relation::Fixed(f) => {
                    assert_eq!(f.data.len(), 1);
                    assert!(matches!(f.data[0][0], DataValue::EnId(_)));
                    assert!(matches!(f.data[0][1], DataValue::Int(30)));
                },
                _ => panic!("expected the constant row on the left"),
            }
            assert!(matches!(j.right, Relation::Triple(_)));
        },
        _ => panic!("expected a join at the root"),
    }
}

#[test]
fn shared_variable_two_clauses_joins_without_duplicate_column() {
    let payload = Json::Arr(vec![
        Json::Arr(vec![str_json("?x"), str_json("friend"), str_json("?y")]),
        Json::Arr(vec![str_json("?y"), str_json("friend"), str_json("?z")]),
    ]);
    let rel = compile(payload, 0).unwrap();
    let names = user_names(&rel.bindings());
    assert_eq!(names, vec!["?x", "?y", "?z"]);
    // The second scan correlates on the repeated ?y through a join equality.
    match &rel {
        Relation::Join(j) => {
            assert_eq!(j.joiner.left_keys.len(), 1);
            assert_eq!(j.joiner.right_keys.len(), 1);
            assert!(matches!(j.joiner.left_keys[0], Keyword::User(_)));
            assert!(matches!(j.joiner.right_keys[0], Keyword::Synthetic(_)));
            assert!(matches!(j.left, Relation::Triple(_)));
            assert!(matches!(j.right, Relation::Triple(_)));
        },
        _ => panic!("expected a join at the root"),
    }
}

#[test]
fn self_referential_clause_rejected() {
    let payload = Json::Arr(vec![Json::Arr(vec![
        str_json("?x"),
        str_json("friend"),
        str_json("?x"),
    ])]);
    let e = compile(payload, 0).unwrap_err();
    match e {
        QueryClauseError::SelfReferential(Keyword::User(s)) => assert_eq!(s, "?x"),
        _ => panic!("expected the self-referential error"),
    }
}

#[test]
fn schema_is_exactly_the_distinct_variables() {
    let payload = Json::Arr(vec![
        Json::Arr(vec![Json::UInt(7), str_json("friend"), str_json("?y")]),
        Json::Arr(vec![str_json("?y"), str_json("age"), Json::UInt(30)]),
        Json::Arr(vec![str_json("?y"), str_json("friend"), str_json("?z")]),
    ]);
    let rel = compile(payload, 0).unwrap();
    let names = user_names(&rel.bindings());
    assert_eq!(names, vec!["?y", "?z"]);
}

#[test]
fn no_synthetic_binding_survives_compilation() {
    let payload = Json::Arr(vec![
        Json::Arr(vec![Json::UInt(1), str_json("age"), Json::UInt(2)]),
        Json::Arr(vec![str_json("?a"), str_json("friend"), str_json("?b")]),
        Json::Arr(vec![str_json("?b"), str_json("friend"), str_json("?a")]),
    ]);
    let rel = compile(payload, 0).unwrap();
    for b in rel.bindings() {
        assert!(!b.is_ignored_binding());
    }
    assert!(!rel.has_ignored_binding());
}

#[test]
fn every_triple_scan_shares_the_validity() {
    let payload = Json::Arr(vec![
        Json::Arr(vec![str_json("?a"), str_json("friend"), str_json("?b")]),
        Json::Arr(vec![str_json("?b"), str_json("age"), Json::UInt(9)]),
    ]);
    let rel = compile(payload, 77).unwrap();
    let mut stack = vec![&rel];
    let mut scans = 0;
    while let Some(r) = stack.pop() {
        match r {
            Relation::Join(j) => {
                stack.push(&j.left);
                stack.push(&j.right);
            },
            Relation::Triple(t) => {
                scans += 1;
                assert_eq!(t.vld, Validity(77));
            },
            _ => {},
        }
    }
    assert_eq!(scans, 2);
}
