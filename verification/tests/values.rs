//! The total order on data values, including the descending wrapper.

use cozo::keyword::{kw_eq, Keyword};
use cozo::value::{dv_cmp_exec, Cmp, DataValue, EntityId};

fn rev(v: DataValue) -> DataValue {
    DataValue::Rev(Box::new(v))
}

#[test]
fn integers_order_naturally() {
    let a = DataValue::Int(-3);
    let b = DataValue::Int(8);
    assert_eq!(dv_cmp_exec(&a, &b), Cmp::Lt);
    assert_eq!(dv_cmp_exec(&b, &a), Cmp::Gt);
    assert_eq!(dv_cmp_exec(&a, &a), Cmp::Eq);
}

#[test]
fn reversed_wrapper_inverts_the_order() {
    let a = rev(DataValue::Int(1));
    let b = rev(DataValue::Int(2));
    assert_eq!(dv_cmp_exec(&a, &b), Cmp::Gt);
    assert_eq!(dv_cmp_exec(&b, &a), Cmp::Lt);
    assert_eq!(dv_cmp_exec(&a, &a), Cmp::Eq);
}

#[test]
fn strings_order_lexicographically() {
    let a = DataValue::Str("abc".to_string());
    let b = DataValue::Str("abd".to_string());
    let c = DataValue::Str("ab".to_string());
    assert_eq!(dv_cmp_exec(&a, &b), Cmp::Lt);
    assert_eq!(dv_cmp_exec(&c, &a), Cmp::Lt);
    assert_eq!(dv_cmp_exec(&a, &a), Cmp::Eq);
}

#[test]
fn different_kinds_order_by_rank() {
    let e = DataValue::EnId(EntityId(99));
    let i = DataValue::Int(0);
    let s = DataValue::Str(String::new());
    let b = DataValue::Bool(false);
    assert_eq!(dv_cmp_exec(&e, &i), Cmp::Lt);
    assert_eq!(dv_cmp_exec(&i, &s), Cmp::Lt);
    assert_eq!(dv_cmp_exec(&s, &b), Cmp::Lt);
    assert_eq!(dv_cmp_exec(&b, &rev(DataValue::Int(0))), Cmp::Lt);
}

#[test]
fn duplication_preserves_comparison() {
    let v = DataValue::Rev(Box::new(DataValue::Str("deep".to_string())));
    let d = v.dup();
    assert_eq!(dv_cmp_exec(&v, &d), Cmp::Eq);
}

#[test]
fn keyword_equality_separates_user_and_synthetic_names() {
    let u = Keyword::User("x".to_string());
    let u2 = Keyword::User("x".to_string());
    let u3 = Keyword::User("y".to_string());
    let s = Keyword::Synthetic(0);
    let s2 = Keyword::Synthetic(0);
    assert!(kw_eq(&u, &u2));
    assert!(!kw_eq(&u, &u3));
    assert!(kw_eq(&s, &s2));
    assert!(!kw_eq(&u, &s));
    assert!(!u.is_ignored_binding());
    assert!(s.is_ignored_binding());
}
