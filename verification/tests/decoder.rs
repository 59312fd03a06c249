use table_handlers::model::Field;
use table_handlers::projection::Projection;
use table_handlers::request::{
    decode_create, decode_read, Command, MalformedRequest, Payload, PayloadValue,
};

fn text(value: &str) -> PayloadValue {
    PayloadValue::Text(value.to_string())
}

fn payload(members: Vec<(&str, PayloadValue)>) -> Payload {
    let mut payload = Payload::new();
    for (key, value) in members {
        payload.set(key.to_string(), value);
    }
    payload
}

fn malformed(field: Field) -> Result<Command, MalformedRequest> {
    Err(MalformedRequest { field })
}

#[test]
fn create_needs_table_name() {
    let payload = payload(vec![("key_name", text("k1"))]);
    assert_eq!(decode_create(&payload), malformed(Field::TableName));
}

#[test]
fn create_needs_key_name() {
    let payload = payload(vec![("table_name", text("users"))]);
    assert_eq!(decode_create(&payload), malformed(Field::KeyName));
}

#[test]
fn create_names_table_first_when_both_are_missing() {
    assert_eq!(decode_create(&Payload::new()), malformed(Field::TableName));
}

#[test]
fn create_refuses_empty_names() {
    let no_table = payload(vec![("table_name", text("")), ("key_name", text("id"))]);
    assert_eq!(decode_create(&no_table), malformed(Field::TableName));
    let no_key = payload(vec![("table_name", text("users")), ("key_name", text(""))]);
    assert_eq!(decode_create(&no_key), malformed(Field::KeyName));
}

#[test]
fn create_refuses_values_that_are_no_strings() {
    let number = payload(vec![("table_name", PayloadValue::Other), ("key_name", text("id"))]);
    assert_eq!(decode_create(&number), malformed(Field::TableName));
    let null = payload(vec![("table_name", text("users")), ("key_name", PayloadValue::Null)]);
    assert_eq!(decode_create(&null), malformed(Field::KeyName));
}

#[test]
fn create_reads_both_names() {
    let payload = payload(vec![
        ("table_name", text("users")),
        ("key_name", text("id")),
        ("comment", PayloadValue::Other),
    ]);
    assert_eq!(
        decode_create(&payload),
        Ok(Command::CreateTable { table_name: "users".to_string(), key_name: "id".to_string() })
    );
}

#[test]
fn later_member_counts() {
    let payload = payload(vec![
        ("table_name", text("users")),
        ("key_name", text("id")),
        ("table_name", text("orders")),
    ]);
    assert_eq!(
        decode_create(&payload),
        Ok(Command::CreateTable { table_name: "orders".to_string(), key_name: "id".to_string() })
    );
    assert_eq!(payload.text("table_name"), Some("orders".to_string()));
    assert!(payload.has("key_name"));
    assert!(!payload.has("projection"));
}

#[test]
fn read_needs_table_name() {
    let payload = payload(vec![("projection", text("name"))]);
    assert_eq!(decode_read(&payload), malformed(Field::TableName));
}

#[test]
fn read_without_projection_asks_for_everything() {
    let payload = payload(vec![("table_name", text("users"))]);
    assert_eq!(
        decode_read(&payload),
        Ok(Command::ReadAll { table_name: "users".to_string(), projection: Projection::All })
    );
}

#[test]
fn read_with_null_projection_asks_for_everything() {
    let payload = payload(vec![("table_name", text("users")), ("projection", PayloadValue::Null)]);
    assert_eq!(
        decode_read(&payload),
        Ok(Command::ReadAll { table_name: "users".to_string(), projection: Projection::All })
    );
}

#[test]
fn read_with_single_attribute() {
    let payload = payload(vec![("table_name", text("newtable")), ("projection", text("name"))]);
    assert_eq!(
        decode_read(&payload),
        Ok(Command::ReadAll {
            table_name: "newtable".to_string(),
            projection: Projection::Only(vec!["name".to_string()]),
        })
    );
}

#[test]
fn read_parses_projection_list() {
    let payload =
        payload(vec![("table_name", text("users")), ("projection", text("name, email ,name"))]);
    assert_eq!(
        decode_read(&payload),
        Ok(Command::ReadAll {
            table_name: "users".to_string(),
            projection: Projection::Only(vec!["name".to_string(), "email".to_string()]),
        })
    );
}

#[test]
fn read_refuses_bad_projection() {
    let empty = payload(vec![("table_name", text("users")), ("projection", text(""))]);
    assert_eq!(decode_read(&empty), malformed(Field::Projection));
    let gap = payload(vec![("table_name", text("users")), ("projection", text("name,,email"))]);
    assert_eq!(decode_read(&gap), malformed(Field::Projection));
    let number = payload(vec![("table_name", text("users")), ("projection", PayloadValue::Other)]);
    assert_eq!(decode_read(&number), malformed(Field::Projection));
}
