use mongo_session::ingest::extract_group_documents;
use mongo_session::{Document, IngestError, Value};

fn group(name: &str, members: i64) -> Document {
    let mut d = Document::new();
    d.set_field("name", Value::Str(name.to_string()));
    d.set_field("members", Value::Int(members));
    d
}

#[test]
fn well_formed_input_yields_documents_in_order() {
    let mut input = Document::new();
    input.set_field(
        "groups",
        Value::Arr(vec![Value::Doc(group("alpha", 3)), Value::Doc(group("beta", 5))]),
    );
    let docs = extract_group_documents(&Value::Doc(input)).unwrap();
    assert_eq!(docs.len(), 2);
    assert!(docs[0].matches_field("name", &Value::Str("alpha".to_string())));
    assert!(docs[1].matches_field("name", &Value::Str("beta".to_string())));
}

#[test]
fn elements_that_are_not_objects_are_skipped() {
    let mut input = Document::new();
    input.set_field(
        "groups",
        Value::Arr(vec![
            Value::Int(1),
            Value::Doc(group("alpha", 3)),
            Value::Str("noise".to_string()),
        ]),
    );
    let docs = extract_group_documents(&Value::Doc(input)).unwrap();
    assert_eq!(docs.len(), 1);
    assert!(docs[0].matches_field("members", &Value::Int(3)));
}

#[test]
fn missing_groups_key_is_a_fatal_input_error() {
    let mut input = Document::new();
    input.set_field("teams", Value::Arr(vec![]));
    match extract_group_documents(&Value::Doc(input)) {
        Err(e) => assert_eq!(e, IngestError::MissingGroups),
        Ok(_) => panic!("an input without a groups key must be rejected"),
    }
    match extract_group_documents(&Value::Int(5)) {
        Err(e) => assert_eq!(e, IngestError::MissingGroups),
        Ok(_) => panic!("a non-object input must be rejected"),
    }
}

#[test]
fn non_array_groups_value_is_a_fatal_input_error() {
    let mut input = Document::new();
    input.set_field("groups", Value::Str("not an array".to_string()));
    match extract_group_documents(&Value::Doc(input)) {
        Err(e) => assert_eq!(e, IngestError::GroupsNotArray),
        Ok(_) => panic!("a non-array groups value must be rejected"),
    }
}

#[test]
fn empty_groups_array_yields_no_documents() {
    let mut input = Document::new();
    input.set_field("groups", Value::Arr(vec![]));
    let docs = extract_group_documents(&Value::Doc(input)).unwrap();
    assert_eq!(docs.len(), 0);
}
