use table_handlers::model::{ErrorKind, Field, TableSpec};
use table_handlers::projection::Projection;
use table_handlers::record::Record;
use table_handlers::text::{contains_name, join_names, text_eq};

fn record(pairs: &[(&str, &str)]) -> Record {
    let mut record = Record::new();
    for (name, value) in pairs {
        record.insert(name.to_string(), value.to_string());
    }
    record
}

fn sorted(mut names: Vec<String>) -> Vec<String> {
    names.sort();
    names
}

#[test]
fn new_record_is_empty() {
    let record = Record::new();
    assert_eq!(record.len(), 0);
    assert!(record.names().is_empty());
    assert_eq!(record.get("name"), None);
    assert!(!record.contains("name"));
}

#[test]
fn insert_then_get() {
    let record = record(&[("id", "7"), ("name", "alice")]);
    assert_eq!(record.len(), 2);
    assert_eq!(record.get("id"), Some("7".to_string()));
    assert_eq!(record.get("name"), Some("alice".to_string()));
    assert_eq!(record.get("email"), None);
    assert!(record.contains("id"));
}

#[test]
fn insert_replaces_earlier_value() {
    let mut record = record(&[("id", "7"), ("name", "alice")]);
    record.insert("name".to_string(), "bob".to_string());
    assert_eq!(record.len(), 2);
    assert_eq!(record.get("name"), Some("bob".to_string()));
    assert_eq!(sorted(record.names()), vec!["id".to_string(), "name".to_string()]);
}

#[test]
fn restrict_keeps_named_attributes_only() {
    let record = record(&[("id", "7"), ("name", "alice"), ("email", "a@example.org")]);
    let kept = record.restrict(&vec!["name".to_string(), "phone".to_string()]);
    assert_eq!(kept.names(), vec!["name".to_string()]);
    assert_eq!(kept.get("name"), Some("alice".to_string()));
    assert_eq!(kept.get("id"), None);
    assert_eq!(record.len(), 3);
}

#[test]
fn clone_keeps_every_attribute() {
    let record = record(&[("id", "7"), ("name", "alice")]);
    let copy = record.clone();
    assert_eq!(copy.len(), 2);
    assert_eq!(copy.get("id"), Some("7".to_string()));
    assert_eq!(copy.get("name"), Some("alice".to_string()));
}

#[test]
fn parse_single_name() {
    assert_eq!(Projection::parse("name"), Some(Projection::Only(vec!["name".to_string()])));
}

#[test]
fn parse_trims_and_drops_repeats() {
    assert_eq!(
        Projection::parse("  name ,email,name, first name "),
        Some(Projection::Only(vec![
            "name".to_string(),
            "email".to_string(),
            "first name".to_string()
        ]))
    );
}

#[test]
fn parse_refuses_empty_names() {
    assert_eq!(Projection::parse(""), None);
    assert_eq!(Projection::parse("   "), None);
    assert_eq!(Projection::parse("name,"), None);
    assert_eq!(Projection::parse(",name"), None);
    assert_eq!(Projection::parse("name, ,email"), None);
}

#[test]
fn parse_counts_characters_not_bytes() {
    assert_eq!(
        Projection::parse(" städte , ключ"),
        Some(Projection::Only(vec!["städte".to_string(), "ключ".to_string()]))
    );
}

#[test]
fn expression_joins_names_with_commas() {
    assert_eq!(Projection::All.expression(), None);
    assert_eq!(
        Projection::Only(vec!["name".to_string()]).expression(),
        Some("name".to_string())
    );
    assert_eq!(
        Projection::Only(vec!["name".to_string(), "email".to_string(), "id".to_string()])
            .expression(),
        Some("name,email,id".to_string())
    );
}

#[test]
fn expression_of_parsed_list_parses_to_the_same() {
    let parsed = Projection::parse("name , email").unwrap();
    let expression = parsed.expression().unwrap();
    assert_eq!(expression, "name,email");
    assert_eq!(Projection::parse(&expression), Some(parsed));
}

#[test]
fn projection_admits() {
    let only = Projection::Only(vec!["name".to_string()]);
    assert!(only.admits("name"));
    assert!(!only.admits("id"));
    assert!(Projection::All.admits("id"));
}

#[test]
fn projection_applies_to_record() {
    let record = record(&[("id", "7"), ("name", "alice")]);
    let only = Projection::Only(vec!["name".to_string()]);
    let kept = only.apply(&record);
    assert_eq!(kept.names(), vec!["name".to_string()]);
    assert_eq!(kept.get("name"), Some("alice".to_string()));
    let all = Projection::All.apply(&record);
    assert_eq!(sorted(all.names()), vec!["id".to_string(), "name".to_string()]);
    assert_eq!(only.clone(), only);
}

#[test]
fn table_spec_needs_both_names() {
    assert!(TableSpec::new("".to_string(), "id".to_string()).is_none());
    assert!(TableSpec::new("users".to_string(), "".to_string()).is_none());
    let spec = TableSpec::new("users".to_string(), "id".to_string()).unwrap();
    assert_eq!(spec.name(), "users");
    assert_eq!(spec.partition_key(), "id");
    assert_eq!(spec.clone(), spec);
}

#[test]
fn field_names() {
    assert_eq!(Field::TableName.name(), "table_name");
    assert_eq!(Field::KeyName.name(), "key_name");
    assert_eq!(Field::Projection.name(), "projection");
}

#[test]
fn error_kind_names() {
    assert_eq!(ErrorKind::MalformedRequest.name(), "MalformedRequest");
    assert_eq!(ErrorKind::ConflictError.name(), "ConflictError");
    assert_eq!(ErrorKind::NotFound.name(), "NotFound");
    assert_eq!(ErrorKind::StoreUnavailable.name(), "StoreUnavailable");
    assert_eq!(ErrorKind::DecodeError.name(), "DecodeError");
    assert_eq!(ErrorKind::LimitExceeded.name(), "LimitExceeded");
}

#[test]
fn only_unavailable_store_is_retryable() {
    assert!(ErrorKind::StoreUnavailable.retryable());
    assert!(!ErrorKind::MalformedRequest.retryable());
    assert!(!ErrorKind::ConflictError.retryable());
    assert!(!ErrorKind::NotFound.retryable());
    assert!(!ErrorKind::DecodeError.retryable());
    assert!(!ErrorKind::LimitExceeded.retryable());
}

#[test]
fn client_errors() {
    assert!(ErrorKind::MalformedRequest.is_client_error());
    assert!(ErrorKind::ConflictError.is_client_error());
    assert!(ErrorKind::NotFound.is_client_error());
    assert!(!ErrorKind::StoreUnavailable.is_client_error());
    assert!(!ErrorKind::DecodeError.is_client_error());
    assert!(!ErrorKind::LimitExceeded.is_client_error());
}

#[test]
fn text_helpers() {
    assert!(text_eq("name", "name"));
    assert!(!text_eq("name", "Name"));
    let names = vec!["a".to_string(), "b".to_string()];
    assert!(contains_name(&names, "b"));
    assert!(!contains_name(&names, "c"));
    assert_eq!(join_names(&names), "a,b");
    assert_eq!(join_names(&Vec::new()), "");
}
