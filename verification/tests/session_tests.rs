use mongo_session::{Document, MongoWrapper, SessionError, Value};

fn connect_targeted(db: &str, coll: &str) -> MongoWrapper {
    let mut session = MongoWrapper::create_mongo_connection("mongodb://localhost:27017")
        .expect("the address is well formed");
    session.set_database_and_collection_names(db, coll);
    session
}

fn record(id: i64, title: &str, author: &str, age: i64, flag: bool) -> Document {
    let mut d = Document::new();
    d.set_field("id", Value::Int(id));
    d.set_field("title", Value::Str(title.to_string()));
    d.set_field("author", Value::Str(author.to_string()));
    d.set_field("age", Value::Int(age));
    d.set_field("flag", Value::Bool(flag));
    d
}

#[test]
fn connect_accepts_well_formed_address() {
    assert!(MongoWrapper::create_mongo_connection("mongodb://localhost:27017").is_ok());
    assert!(MongoWrapper::create_mongo_connection("http://example.com:80").is_ok());
}

#[test]
fn connect_rejects_malformed_addresses() {
    let malformed = [
        "",
        "mongodb",
        "mongodb://",
        "mongodb://localhost",
        "mongodb://localhost:",
        "mongodb://localhost:27a17",
        "://localhost:27017",
        "mongodb:/localhost:27017",
        "mongodb://:27017",
    ];
    for address in malformed {
        match MongoWrapper::create_mongo_connection(address) {
            Err(e) => assert_eq!(e, SessionError::ConnectionError),
            Ok(_) => panic!("address {:?} must be rejected", address),
        }
    }
}

#[test]
fn operations_before_target_selection_fail_fast() {
    let mut session = MongoWrapper::create_mongo_connection("mongodb://localhost:27017").unwrap();
    assert_eq!(
        session.initiate_mongo_database(),
        Err(SessionError::PreconditionError)
    );
    assert_eq!(session.list_collections(), Err(SessionError::PreconditionError));
    assert_eq!(
        session.insert_single_document(record(1, "a", "b", 2, true)),
        Err(SessionError::PreconditionError)
    );
    assert_eq!(
        session.delete_single_document("id", &Value::Int(1)),
        Err(SessionError::PreconditionError)
    );
    match session.search_for_single_document("id", &Value::Int(1)) {
        Err(e) => assert_eq!(e, SessionError::PreconditionError),
        Ok(_) => panic!("search must fail before a target is selected"),
    }
    assert_eq!(session.count_documents(), Err(SessionError::PreconditionError));
}

#[test]
fn provisioning_is_idempotent() {
    let mut session = connect_targeted("test_database", "test_collection");
    assert_eq!(session.initiate_mongo_database(), Ok(()));
    let databases = session.list_databases().unwrap();
    let collections = session.list_collections().unwrap();
    assert_eq!(session.initiate_mongo_database(), Ok(()));
    assert_eq!(session.list_databases().unwrap(), databases);
    assert_eq!(session.list_collections().unwrap(), collections);
    assert_eq!(databases, vec!["test_database".to_string()]);
    assert_eq!(collections, vec!["test_collection".to_string()]);
}

#[test]
fn find_then_delete_removes_exactly_one() {
    let mut session = connect_targeted("db", "books");
    session.initiate_mongo_database().unwrap();
    session.insert_single_document(record(1, "one", "a", 30, true)).unwrap();
    session.insert_single_document(record(2, "two", "b", 33, false)).unwrap();
    session.insert_single_document(record(3, "three", "c", 35, true)).unwrap();
    let found = session.search_for_single_document("age", &Value::Int(33)).unwrap();
    match found.get("id") {
        Some(Value::Int(id)) => assert_eq!(*id, 2),
        _ => panic!("the matched document must carry its id"),
    }
    assert_eq!(session.delete_single_document("age", &Value::Int(33)), Ok(()));
    assert_eq!(session.count_documents(), Ok(2));
    match session.search_for_single_document("age", &Value::Int(33)) {
        Err(e) => assert_eq!(e, SessionError::NotFoundError),
        Ok(_) => panic!("the only match was deleted"),
    }
}

#[test]
fn delete_and_update_without_match_change_nothing() {
    let mut session = connect_targeted("db", "books");
    session.initiate_mongo_database().unwrap();
    session.insert_single_document(record(1, "one", "a", 30, true)).unwrap();
    assert_eq!(session.count_documents(), Ok(1));
    assert_eq!(
        session.delete_single_document("age", &Value::Int(99)),
        Err(SessionError::NotFoundError)
    );
    assert_eq!(
        session.update_single_document("age", &Value::Int(99), "age", &Value::Int(40)),
        Err(SessionError::NotFoundError)
    );
    assert_eq!(session.count_documents(), Ok(1));
    let kept = session.search_for_single_document("id", &Value::Int(1)).unwrap();
    match kept.get("age") {
        Some(Value::Int(age)) => assert_eq!(*age, 30),
        _ => panic!("the document must be unchanged"),
    }
}

#[test]
fn update_changes_only_the_named_field() {
    let mut session = connect_targeted("db", "books");
    session.initiate_mongo_database().unwrap();
    session.insert_single_document(record(7, "title7", "author7", 33, true)).unwrap();
    assert_eq!(
        session.update_single_document("age", &Value::Int(33), "age", &Value::Int(40)),
        Ok(())
    );
    let updated = session.search_for_single_document("id", &Value::Int(7)).unwrap();
    assert_eq!(updated.field_count(), 5);
    match updated.get("age") {
        Some(Value::Int(age)) => assert_eq!(*age, 40),
        _ => panic!("the target field must hold the new value"),
    }
    match updated.get("title") {
        Some(Value::Str(t)) => assert_eq!(t, "title7"),
        _ => panic!("sibling fields must be untouched"),
    }
    match updated.get("author") {
        Some(Value::Str(a)) => assert_eq!(a, "author7"),
        _ => panic!("sibling fields must be untouched"),
    }
    match updated.get("flag") {
        Some(Value::Bool(b)) => assert!(*b),
        _ => panic!("sibling fields must be untouched"),
    }
}

#[test]
fn update_appends_a_missing_target_field() {
    let mut session = connect_targeted("db", "books");
    session.initiate_mongo_database().unwrap();
    session.insert_single_document(record(7, "title7", "author7", 33, true)).unwrap();
    assert_eq!(
        session.update_single_document("id", &Value::Int(7), "rating", &Value::Int(5)),
        Ok(())
    );
    let updated = session.search_for_single_document("id", &Value::Int(7)).unwrap();
    assert_eq!(updated.field_count(), 6);
    match updated.get("rating") {
        Some(Value::Int(r)) => assert_eq!(*r, 5),
        _ => panic!("the new field must be present"),
    }
}

#[test]
fn insert_many_shows_collection_and_exact_count() {
    let mut session = connect_targeted("test_database", "test_collection");
    session.initiate_mongo_database().unwrap();
    let batch = vec![
        record(22, "first", "author", 31, true),
        record(23, "second", "author", 33, true),
        record(24, "third", "author", 35, false),
    ];
    assert_eq!(session.insert_multiple_documents(batch), Ok(()));
    let collections = session.list_collections().unwrap();
    assert!(collections.contains(&"test_collection".to_string()));
    assert_eq!(session.count_documents(), Ok(3));
}

#[test]
fn insert_into_missing_target_provisions_it() {
    let mut session = connect_targeted("fresh_db", "fresh_coll");
    assert_eq!(session.insert_single_document(record(1, "t", "a", 20, false)), Ok(()));
    let collections = session.list_collections().unwrap();
    assert_eq!(collections, vec!["fresh_coll".to_string()]);
    assert_eq!(session.count_documents(), Ok(1));
}

#[test]
fn provision_outcome_tolerates_the_benign_race() {
    assert_eq!(mongo_session::session::provision_outcome(false, false), Ok(()));
    assert_eq!(mongo_session::session::provision_outcome(true, true), Ok(()));
    assert_eq!(
        mongo_session::session::provision_outcome(true, false),
        Err(SessionError::ProvisionError)
    );
}

#[test]
fn select_target_is_pure_mutation() {
    let mut session = connect_targeted("db_a", "coll_a");
    session.initiate_mongo_database().unwrap();
    session.set_database_and_collection_names("db_b", "coll_b");
    // No I/O happened: only the provisioned database exists.
    assert_eq!(session.list_databases().unwrap(), vec!["db_a".to_string()]);
    // The new target has no collection yet.
    assert_eq!(session.list_collections().unwrap(), Vec::<String>::new());
}

#[test]
fn delete_with_two_matches_removes_only_the_first() {
    let mut session = connect_targeted("db", "books");
    session.initiate_mongo_database().unwrap();
    session.insert_single_document(record(1, "one", "a", 33, true)).unwrap();
    session.insert_single_document(record(2, "two", "b", 33, false)).unwrap();
    session.insert_single_document(record(3, "three", "c", 35, true)).unwrap();
    assert_eq!(session.delete_single_document("age", &Value::Int(33)), Ok(()));
    assert_eq!(session.count_documents(), Ok(2));
    // The second match is still there and is found now.
    let remaining = session.search_for_single_document("age", &Value::Int(33)).unwrap();
    match remaining.get("id") {
        Some(Value::Int(id)) => assert_eq!(*id, 2),
        _ => panic!("the second match must remain"),
    }
}
