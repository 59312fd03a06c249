use table_handlers::engine::{
    AttributeDefinition, CreateTableRequest, EngineCall, EngineError, EngineReply, Fault,
    KeySchemaElement, KeyType, ProvisionedThroughput, ScalarAttributeType, ScanPage,
    TableDescription,
};
use table_handlers::model::{ErrorKind, TableSpec};
use table_handlers::store::{
    create_table_request, matches_spec, CreateProgress, CreateTable, StoreError, StoreErrorKind,
    READ_CAPACITY_UNITS, WRITE_CAPACITY_UNITS,
};

fn spec(name: &str, key: &str) -> TableSpec {
    TableSpec::new(name.to_string(), key.to_string()).unwrap()
}

fn description(name: &str, keys: &[(&str, KeyType)], types: &[(&str, ScalarAttributeType)]) -> TableDescription {
    TableDescription {
        table_name: name.to_string(),
        key_schema: keys
            .iter()
            .map(|(name, key_type)| KeySchemaElement {
                attribute_name: name.to_string(),
                key_type: *key_type,
            })
            .collect(),
        attribute_definitions: types
            .iter()
            .map(|(name, attribute_type)| AttributeDefinition {
                attribute_name: name.to_string(),
                attribute_type: *attribute_type,
            })
            .collect(),
    }
}

fn failed(fault: Fault, message: &str) -> EngineReply {
    EngineReply::Failed(EngineError { fault, message: message.to_string() })
}

fn begun(name: &str, key: &str) -> CreateTable {
    match CreateTable::begin(spec(name, key)) {
        CreateProgress::Call(operation, _) => operation,
        CreateProgress::Done(_) => panic!("a creation ended before its first call"),
    }
}

fn confirming(name: &str, key: &str) -> CreateTable {
    match begun(name, key).advance(failed(Fault::AlreadyExists, "exists")) {
        CreateProgress::Call(operation, _) => operation,
        CreateProgress::Done(_) => panic!("a creation did not ask for the description"),
    }
}

fn done(progress: CreateProgress) -> Result<(), StoreError> {
    match progress {
        CreateProgress::Done(result) => result,
        CreateProgress::Call(_, call) => panic!("a creation asked for {:?}", call),
    }
}

fn store_error(kind: StoreErrorKind, detail: &str) -> Result<(), StoreError> {
    Err(StoreError { kind, detail: detail.to_string() })
}

#[test]
fn request_has_one_hash_key_of_type_string() {
    let request = create_table_request(&spec("users", "id"));
    assert_eq!(
        request,
        CreateTableRequest {
            table_name: "users".to_string(),
            key_schema: vec![KeySchemaElement {
                attribute_name: "id".to_string(),
                key_type: KeyType::Hash,
            }],
            attribute_definitions: vec![AttributeDefinition {
                attribute_name: "id".to_string(),
                attribute_type: ScalarAttributeType::S,
            }],
            provisioned_throughput: ProvisionedThroughput {
                read_capacity_units: 10,
                write_capacity_units: 5,
            },
        }
    );
    assert_eq!(READ_CAPACITY_UNITS, 10);
    assert_eq!(WRITE_CAPACITY_UNITS, 5);
}

#[test]
fn creation_begins_with_the_request() {
    match CreateTable::begin(spec("users", "id")) {
        CreateProgress::Call(operation, EngineCall::CreateTable(request)) => {
            assert_eq!(request, create_table_request(&spec("users", "id")));
            assert_eq!(operation.spec(), &spec("users", "id"));
        }
        other => panic!("unexpected start: {:?}", other),
    }
}

#[test]
fn created_table_ends_creation() {
    assert_eq!(done(begun("users", "id").advance(EngineReply::Created)), Ok(()));
}

#[test]
fn existing_table_is_described() {
    match begun("users", "id").advance(failed(Fault::AlreadyExists, "Table already exists: users")) {
        CreateProgress::Call(_, EngineCall::DescribeTable(name)) => assert_eq!(name, "users"),
        other => panic!("unexpected step: {:?}", other),
    }
}

#[test]
fn existing_table_with_same_key_is_success() {
    let described = description("users", &[("id", KeyType::Hash)], &[("id", ScalarAttributeType::S)]);
    assert_eq!(done(confirming("users", "id").advance(EngineReply::Described(described))), Ok(()));
}

#[test]
fn existing_table_with_other_key_is_conflict() {
    let described =
        description("users", &[("email", KeyType::Hash)], &[("email", ScalarAttributeType::S)]);
    assert_eq!(
        done(confirming("users", "id").advance(EngineReply::Described(described))),
        store_error(StoreErrorKind::Conflict, "users")
    );
}

#[test]
fn existing_table_with_range_key_is_conflict() {
    let described = description(
        "users",
        &[("id", KeyType::Hash), ("at", KeyType::Range)],
        &[("id", ScalarAttributeType::S), ("at", ScalarAttributeType::S)],
    );
    assert_eq!(
        done(confirming("users", "id").advance(EngineReply::Described(described))),
        store_error(StoreErrorKind::Conflict, "users")
    );
}

#[test]
fn existing_table_with_numeric_key_is_conflict() {
    let described = description("users", &[("id", KeyType::Hash)], &[("id", ScalarAttributeType::N)]);
    assert_eq!(
        done(confirming("users", "id").advance(EngineReply::Described(described))),
        store_error(StoreErrorKind::Conflict, "users")
    );
}

#[test]
fn description_of_another_table_is_decode_error() {
    let described = description("orders", &[("id", KeyType::Hash)], &[("id", ScalarAttributeType::S)]);
    assert_eq!(
        done(confirming("users", "id").advance(EngineReply::Described(described))),
        store_error(StoreErrorKind::DecodeError, "users")
    );
}

#[test]
fn matches_spec_compares_name_and_key() {
    let users = description("users", &[("id", KeyType::Hash)], &[("id", ScalarAttributeType::S)]);
    assert!(matches_spec(&users, &spec("users", "id")));
    assert!(!matches_spec(&users, &spec("users", "email")));
    assert!(!matches_spec(&users, &spec("orders", "id")));
    let ranged = description("users", &[("id", KeyType::Range)], &[("id", ScalarAttributeType::S)]);
    assert!(!matches_spec(&ranged, &spec("users", "id")));
    let bare = description("users", &[("id", KeyType::Hash)], &[]);
    assert!(!matches_spec(&bare, &spec("users", "id")));
}

#[test]
fn failed_calls_leave_store_unavailable() {
    for fault in [Fault::Timeout, Fault::Transport, Fault::Refused, Fault::NotFound] {
        assert_eq!(
            done(begun("users", "id").advance(failed(fault, "no luck"))),
            store_error(StoreErrorKind::StoreUnavailable, "no luck")
        );
    }
    for fault in
        [Fault::Timeout, Fault::Transport, Fault::Refused, Fault::NotFound, Fault::AlreadyExists]
    {
        assert_eq!(
            done(confirming("users", "id").advance(failed(fault, "no luck"))),
            store_error(StoreErrorKind::StoreUnavailable, "no luck")
        );
    }
}

#[test]
fn unreadable_answer_is_decode_error() {
    assert_eq!(
        done(begun("users", "id").advance(failed(Fault::Malformed, "bad json"))),
        store_error(StoreErrorKind::DecodeError, "bad json")
    );
    assert_eq!(
        done(confirming("users", "id").advance(failed(Fault::Malformed, "bad json"))),
        store_error(StoreErrorKind::DecodeError, "bad json")
    );
}

#[test]
fn reply_to_another_call_is_decode_error() {
    let page = ScanPage { items: Vec::new(), last_evaluated_key: None };
    assert_eq!(
        done(begun("users", "id").advance(EngineReply::Page(page.clone()))),
        store_error(StoreErrorKind::DecodeError, "users")
    );
    let described = description("users", &[("id", KeyType::Hash)], &[("id", ScalarAttributeType::S)]);
    assert_eq!(
        done(begun("users", "id").advance(EngineReply::Described(described))),
        store_error(StoreErrorKind::DecodeError, "users")
    );
    assert_eq!(
        done(confirming("users", "id").advance(EngineReply::Created)),
        store_error(StoreErrorKind::DecodeError, "users")
    );
    assert_eq!(
        done(confirming("users", "id").advance(EngineReply::Page(page))),
        store_error(StoreErrorKind::DecodeError, "users")
    );
}

#[test]
fn store_errors_from_engine_errors() {
    let error = |fault| EngineError { fault, message: "m".to_string() };
    let kind = |fault, reading| StoreError::from_engine(error(fault), reading).kind;
    assert_eq!(kind(Fault::NotFound, true), StoreErrorKind::NotFound);
    assert_eq!(kind(Fault::NotFound, false), StoreErrorKind::StoreUnavailable);
    assert_eq!(kind(Fault::Malformed, true), StoreErrorKind::DecodeError);
    assert_eq!(kind(Fault::Malformed, false), StoreErrorKind::DecodeError);
    assert_eq!(kind(Fault::Timeout, true), StoreErrorKind::StoreUnavailable);
    assert_eq!(kind(Fault::Transport, true), StoreErrorKind::StoreUnavailable);
    assert_eq!(kind(Fault::AlreadyExists, true), StoreErrorKind::StoreUnavailable);
    assert_eq!(kind(Fault::Refused, false), StoreErrorKind::StoreUnavailable);
    assert_eq!(StoreError::from_engine(error(Fault::Timeout), true).detail, "m");
    assert_eq!(
        StoreError::found(StoreErrorKind::Conflict, "users"),
        StoreError { kind: StoreErrorKind::Conflict, detail: "users".to_string() }
    );
}

#[test]
fn store_error_kinds_are_reported() {
    assert_eq!(StoreErrorKind::Conflict.error_kind(), ErrorKind::ConflictError);
    assert_eq!(StoreErrorKind::NotFound.error_kind(), ErrorKind::NotFound);
    assert_eq!(StoreErrorKind::StoreUnavailable.error_kind(), ErrorKind::StoreUnavailable);
    assert_eq!(StoreErrorKind::DecodeError.error_kind(), ErrorKind::DecodeError);
    assert_eq!(StoreErrorKind::LimitExceeded.error_kind(), ErrorKind::LimitExceeded);
}
