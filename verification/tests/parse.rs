//! Clause-parser behaviour against a small in-memory catalog.

use cozo::attr::{Attribute, AttrValueType, Indexing};
use cozo::json::Json;
use cozo::keyword::Keyword;
use cozo::query::{Clause, MaybeVariable, QueryClauseError};
use cozo::transact::{SessionTx, UniqueIndexEntry};
use cozo::value::{DataValue, EntityId, Validity};

fn attr(name: &str, val_type: AttrValueType, indexing: Indexing) -> Attribute {
    Attribute { keyword: Keyword::User(name.to_string()), val_type, indexing }
}

fn fixture() -> SessionTx {
    let attributes = vec![
        attr("name", AttrValueType::Str, Indexing::Unique),
        attr("friend", AttrValueType::Ref, Indexing::NotIndexed),
        attr("age", AttrValueType::Int, Indexing::Indexed),
        attr("active", AttrValueType::Bool, Indexing::NotIndexed),
    ];
    let unique_index = vec![UniqueIndexEntry {
        attr_keyword: Keyword::User("name".to_string()),
        value: DataValue::Str("alice".to_string()),
        eid: EntityId(10),
        since: Validity(5),
    }];
    SessionTx::new(attributes, unique_index)
}

fn str_json(s: &str) -> Json {
    Json::Str(s.to_string())
}

#[test]
fn entity_variable() {
    let tx = fixture();
    let r = tx.parse_triple_clause_entity(&str_json("?who"), Validity(0)).unwrap();
    match r {
        MaybeVariable::Variable(Keyword::User(s)) => assert_eq!(s, "?who"),
        _ => panic!("expected a variable"),
    }
}

#[test]
fn entity_underscore_variable() {
    let tx = fixture();
    let r = tx.parse_triple_clause_entity(&str_json("_ignored"), Validity(0)).unwrap();
    assert!(matches!(r, MaybeVariable::Variable(Keyword::User(_))));
}

#[test]
fn entity_reserved_word_rejected() {
    let tx = fixture();
    let e = tx.parse_triple_clause_entity(&str_json("const"), Validity(0)).unwrap_err();
    match e {
        QueryClauseError::UnquotedReserved(s) => assert_eq!(s, "const"),
        _ => panic!("expected the reserved-word error"),
    }
}

#[test]
fn entity_plain_string_rejected() {
    let tx = fixture();
    let e = tx.parse_triple_clause_entity(&str_json("bob"), Validity(0)).unwrap_err();
    assert!(matches!(e, QueryClauseError::MalformedShape));
}

#[test]
fn entity_integer_literal() {
    let tx = fixture();
    let r = tx.parse_triple_clause_entity(&Json::UInt(42), Validity(0)).unwrap();
    match r {
        MaybeVariable::Const(e) => assert_eq!(e, EntityId(42)),
        _ => panic!("expected a constant"),
    }
}

#[test]
fn entity_unique_lookup_hit() {
    let tx = fixture();
    let m = Json::Obj(vec![("name".to_string(), str_json("alice"))]);
    let r = tx.parse_triple_clause_entity(&m, Validity(9)).unwrap();
    match r {
        MaybeVariable::Const(e) => assert_eq!(e, EntityId(10)),
        _ => panic!("expected a constant"),
    }
}

#[test]
fn entity_unique_lookup_miss_gives_sentinel() {
    let tx = fixture();
    let m = Json::Obj(vec![("name".to_string(), str_json("nobody"))]);
    let r = tx.parse_triple_clause_entity(&m, Validity(9)).unwrap();
    match r {
        MaybeVariable::Const(e) => assert_eq!(e, EntityId(0)),
        _ => panic!("expected the not-found sentinel"),
    }
}

#[test]
fn entity_unique_lookup_before_validity_gives_sentinel() {
    let tx = fixture();
    let m = Json::Obj(vec![("name".to_string(), str_json("alice"))]);
    let r = tx.parse_triple_clause_entity(&m, Validity(2)).unwrap();
    match r {
        MaybeVariable::Const(e) => assert_eq!(e, EntityId(0)),
        _ => panic!("expected the not-found sentinel"),
    }
}

#[test]
fn entity_lookup_on_non_unique_attribute_rejected() {
    let tx = fixture();
    let m = Json::Obj(vec![("age".to_string(), Json::UInt(3))]);
    let e = tx.parse_triple_clause_entity(&m, Validity(0)).unwrap_err();
    assert!(matches!(e, QueryClauseError::NotUniqueIndex(_)));
}

#[test]
fn entity_lookup_unknown_attribute_rejected() {
    let tx = fixture();
    let m = Json::Obj(vec![("salary".to_string(), Json::UInt(3))]);
    let e = tx.parse_triple_clause_entity(&m, Validity(0)).unwrap_err();
    match e {
        QueryClauseError::AttrNotFound(Keyword::User(s)) => assert_eq!(s, "salary"),
        _ => panic!("expected attribute-not-found"),
    }
}

#[test]
fn entity_two_field_object_rejected() {
    let tx = fixture();
    let m = Json::Obj(vec![
        ("name".to_string(), str_json("alice")),
        ("age".to_string(), Json::UInt(3)),
    ]);
    let e = tx.parse_triple_clause_entity(&m, Validity(0)).unwrap_err();
    assert!(matches!(e, QueryClauseError::MalformedShape));
}

#[test]
fn attr_lookup() {
    let tx = fixture();
    let a = tx.parse_triple_clause_attr(&str_json("age")).unwrap();
    assert_eq!(a.val_type, AttrValueType::Int);
    assert_eq!(a.indexing, Indexing::Indexed);
}

#[test]
fn attr_unknown_rejected() {
    let tx = fixture();
    let e = tx.parse_triple_clause_attr(&str_json("salary")).unwrap_err();
    assert!(matches!(e, QueryClauseError::AttrNotFound(_)));
}

#[test]
fn value_const_escape_bypasses_variable_detection() {
    let tx = fixture();
    let a = tx.parse_triple_clause_attr(&str_json("name")).unwrap();
    let v = Json::Obj(vec![("const".to_string(), str_json("?who"))]);
    let r = tx.parse_triple_clause_value(&v, &a, Validity(0)).unwrap();
    match r {
        MaybeVariable::Const(DataValue::Str(s)) => assert_eq!(s, "?who"),
        _ => panic!("expected a string constant"),
    }
}

#[test]
fn value_scalar_coercion() {
    let tx = fixture();
    let a = tx.parse_triple_clause_attr(&str_json("age")).unwrap();
    let r = tx.parse_triple_clause_value(&Json::UInt(30), &a, Validity(0)).unwrap();
    match r {
        MaybeVariable::Const(DataValue::Int(i)) => assert_eq!(i, 30),
        _ => panic!("expected an integer constant"),
    }
}

#[test]
fn value_variable_in_value_position() {
    let tx = fixture();
    let a = tx.parse_triple_clause_attr(&str_json("age")).unwrap();
    let r = tx.parse_triple_clause_value(&str_json("?n"), &a, Validity(0)).unwrap();
    assert!(matches!(r, MaybeVariable::Variable(Keyword::User(_))));
}

#[test]
fn value_integer_coercion_respects_the_signed_range() {
    let tx = fixture();
    let a = tx.parse_triple_clause_attr(&str_json("age")).unwrap();
    let ok = tx
        .parse_triple_clause_value(&Json::UInt(i64::MAX as u64), &a, Validity(0))
        .unwrap();
    assert!(matches!(ok, MaybeVariable::Const(DataValue::Int(i64::MAX))));
    let e = tx
        .parse_triple_clause_value(&Json::UInt(i64::MAX as u64 + 1), &a, Validity(0))
        .unwrap_err();
    assert!(matches!(e, QueryClauseError::TypeCoercion(_)));
    let neg = tx.parse_triple_clause_value(&Json::Int(-4), &a, Validity(0)).unwrap();
    assert!(matches!(neg, MaybeVariable::Const(DataValue::Int(-4))));
}

#[test]
fn value_coercion_type_mismatch_rejected() {
    let tx = fixture();
    let a = tx.parse_triple_clause_attr(&str_json("age")).unwrap();
    let e = tx.parse_triple_clause_value(&Json::Bool(true), &a, Validity(0)).unwrap_err();
    match e {
        QueryClauseError::TypeCoercion(t) => assert_eq!(t, AttrValueType::Int),
        _ => panic!("expected type-coercion failure"),
    }
}

#[test]
fn value_ref_typed_object_is_entity_lookup() {
    let tx = fixture();
    let a = tx.parse_triple_clause_attr(&str_json("friend")).unwrap();
    let v = Json::Obj(vec![("name".to_string(), str_json("alice"))]);
    let r = tx.parse_triple_clause_value(&v, &a, Validity(9)).unwrap();
    match r {
        MaybeVariable::Const(DataValue::EnId(e)) => assert_eq!(e, EntityId(10)),
        _ => panic!("expected an entity constant"),
    }
}

#[test]
fn parse_clauses_whole_payload() {
    let mut tx = fixture();
    let payload = Json::Arr(vec![
        Json::Arr(vec![str_json("?p"), str_json("friend"), str_json("?q")]),
        Json::Arr(vec![str_json("?p"), str_json("age"), Json::UInt(30)]),
    ]);
    let cs = tx.parse_clauses(&payload, Validity(0)).unwrap();
    assert_eq!(cs.len(), 2);
    let Clause::AttrTriple(c0) = &cs[0];
    assert!(matches!(c0.entity, MaybeVariable::Variable(_)));
    assert!(matches!(c0.value, MaybeVariable::Variable(_)));
    let Clause::AttrTriple(c1) = &cs[1];
    assert!(matches!(c1.value, MaybeVariable::Const(DataValue::Int(30))));
}

#[test]
fn parse_clauses_rejects_non_array_payload() {
    let mut tx = fixture();
    let e = tx.parse_clauses(&Json::UInt(1), Validity(0)).unwrap_err();
    assert!(matches!(e, QueryClauseError::MalformedShape));
}

#[test]
fn parse_clause_rejects_wrong_arity() {
    let tx = fixture();
    let c = Json::Arr(vec![str_json("?p"), str_json("friend")]);
    let e = tx.parse_clause(&c, Validity(0)).unwrap_err();
    assert!(matches!(e, QueryClauseError::MalformedShape));
}

#[test]
fn get_var_and_get_const() {
    let v: MaybeVariable<EntityId> = MaybeVariable::Variable(Keyword::User("?x".to_string()));
    assert!(v.get_var().is_some());
    assert!(v.get_const().is_none());
    let c: MaybeVariable<EntityId> = MaybeVariable::Const(EntityId(1));
    assert!(c.get_var().is_none());
    assert_eq!(c.get_const(), Some(&EntityId(1)));
}
