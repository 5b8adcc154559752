use mongo_session::value::value_eq;
use mongo_session::{Document, Value};

fn sample() -> Document {
    let mut d = Document::new();
    d.set_field("id", Value::Int(13));
    d.set_field("title", Value::Str("entry".to_string()));
    d.set_field("flag", Value::Bool(true));
    d
}

#[test]
fn new_document_is_empty() {
    assert_eq!(Document::new().field_count(), 0);
}

#[test]
fn set_field_appends_then_replaces() {
    let mut d = sample();
    assert_eq!(d.field_count(), 3);
    d.set_field("id", Value::Int(14));
    assert_eq!(d.field_count(), 3);
    match d.get("id") {
        Some(Value::Int(i)) => assert_eq!(*i, 14),
        _ => panic!("the replaced field must hold the new value"),
    }
    d.set_field("extra", Value::Int(1));
    assert_eq!(d.field_count(), 4);
}

#[test]
fn get_of_missing_field_is_none() {
    let d = sample();
    assert!(d.get("missing").is_none());
}

#[test]
fn matches_field_compares_exactly() {
    let d = sample();
    assert!(d.matches_field("id", &Value::Int(13)));
    assert!(!d.matches_field("id", &Value::Int(14)));
    assert!(!d.matches_field("id", &Value::Str("13".to_string())));
    assert!(!d.matches_field("missing", &Value::Int(13)));
}

#[test]
fn value_eq_is_deep() {
    let a = Value::Arr(vec![Value::Int(1), Value::Str("x".to_string()), Value::Doc(sample())]);
    let b = Value::Arr(vec![Value::Int(1), Value::Str("x".to_string()), Value::Doc(sample())]);
    assert!(value_eq(&a, &b));
    let c = Value::Arr(vec![Value::Int(1), Value::Str("y".to_string()), Value::Doc(sample())]);
    assert!(!value_eq(&a, &c));
    assert!(!value_eq(&a, &Value::Int(1)));
    assert!(!value_eq(&Value::Bool(true), &Value::Bool(false)));
}

#[test]
fn clone_preserves_contents() {
    let d = sample();
    let copy = d.clone();
    assert_eq!(copy.field_count(), d.field_count());
    assert!(copy.matches_field("id", &Value::Int(13)));
    assert!(copy.matches_field("title", &Value::Str("entry".to_string())));
}
