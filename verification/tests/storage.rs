//! Storage-tuple headers: kind prefixes and type-definition payloads.

use cozo::data::{DataError, DataKind, Tuple, Typing};

fn with_prefix(code: u8, rest: &[u8]) -> Tuple {
    let mut b = vec![0u8, 0, 0, code];
    b.extend_from_slice(rest);
    Tuple(b)
}

#[test]
fn every_kind_code_round_trips() {
    let kinds = [
        DataKind::Data,
        DataKind::Node,
        DataKind::Edge,
        DataKind::Assoc,
        DataKind::Index,
        DataKind::Value,
        DataKind::Type,
    ];
    for (code, kind) in kinds.iter().enumerate() {
        let t = with_prefix(code as u8, &[]);
        assert_eq!(t.data_kind().unwrap(), *kind);
    }
}

#[test]
fn unknown_kind_code_rejected() {
    let t = with_prefix(7, &[]);
    match t.data_kind().unwrap_err() {
        DataError::UndefinedDataKind(v) => assert_eq!(v, 7),
        _ => panic!("expected the undefined-kind error"),
    }
}

#[test]
fn prefix_is_big_endian() {
    let t = Tuple(vec![0, 0, 1, 0]);
    match t.data_kind().unwrap_err() {
        DataError::UndefinedDataKind(v) => assert_eq!(v, 256),
        _ => panic!("expected the undefined-kind error"),
    }
}

#[test]
fn short_tuple_rejected() {
    let t = Tuple(vec![0, 0]);
    match t.data_kind().unwrap_err() {
        DataError::BadDataFormat(b) => assert_eq!(b, vec![0, 0]),
        _ => panic!("expected the bad-format error"),
    }
}

#[test]
fn type_definition_tuples_parse() {
    let cases: [(&[u8], Typing); 4] = [
        (b"Any", Typing::Any),
        (b"Bool", Typing::Bool),
        (b"Int", Typing::Int),
        (b"Text", Typing::Text),
    ];
    for (name, typing) in cases {
        let mut rest = vec![6u8];
        rest.extend_from_slice(name);
        let t = with_prefix(6, &rest);
        assert_eq!(t.interpret_as_type().unwrap(), typing);
    }
}

#[test]
fn unknown_type_name_rejected() {
    let t = with_prefix(6, &[6, b'F', b'l', b'o']);
    match t.interpret_as_type().unwrap_err() {
        DataError::UndefinedTyping(b) => assert_eq!(b, b"Flo".to_vec()),
        _ => panic!("expected the undefined-typing error"),
    }
}

#[test]
fn non_text_element_rejected() {
    let t = with_prefix(6, &[9, 1, 2]);
    assert!(matches!(t.interpret_as_type().unwrap_err(), DataError::BadDataFormat(_)));
}
