use table_handlers::engine::{
    Attribute, AttributeValue, EngineCall, EngineError, EngineReply, Fault, Item, ScanPage,
    ScanRequest,
};
use table_handlers::projection::Projection;
use table_handlers::record::Record;
use table_handlers::store::{
    decode_row, is_key_like, Scan, ScanLimits, ScanProgress, StoreError, StoreErrorKind,
};

fn s(name: &str, value: &str) -> Attribute {
    Attribute { name: name.to_string(), value: AttributeValue::S(value.to_string()) }
}

fn user(id: &str, name: &str) -> Item {
    vec![s("id", id), s("name", name)]
}

fn key(id: &str) -> Item {
    vec![s("id", id)]
}

fn only(names: &[&str]) -> Projection {
    Projection::Only(names.iter().map(|name| name.to_string()).collect())
}

fn limits(max_pages: usize, max_rows: usize) -> ScanLimits {
    ScanLimits { max_pages, max_rows }
}

fn page(items: Vec<Item>, last_evaluated_key: Option<Item>) -> EngineReply {
    EngineReply::Page(ScanPage { items, last_evaluated_key })
}

fn begun(projection: Projection, limits: ScanLimits) -> Scan {
    match Scan::begin("users".to_string(), projection, limits) {
        ScanProgress::Call(operation, _) => operation,
        ScanProgress::Done(_) => panic!("a reading ended before its first call"),
    }
}

fn next(progress: ScanProgress) -> (Scan, ScanRequest) {
    match progress {
        ScanProgress::Call(operation, EngineCall::Scan(request)) => (operation, request),
        other => panic!("a reading did not go on: {:?}", other),
    }
}

fn done(progress: ScanProgress) -> Result<Vec<Record>, StoreError> {
    match progress {
        ScanProgress::Done(result) => result,
        ScanProgress::Call(_, call) => panic!("a reading asked for {:?}", call),
    }
}

fn failure(progress: ScanProgress) -> StoreError {
    match done(progress) {
        Err(failure) => failure,
        Ok(rows) => panic!("a reading returned {} rows", rows.len()),
    }
}

fn found(kind: StoreErrorKind) -> StoreError {
    StoreError { kind, detail: "users".to_string() }
}

fn pairs(record: &Record) -> Vec<(String, String)> {
    let mut pairs: Vec<(String, String)> = record
        .names()
        .into_iter()
        .map(|name| {
            let value = record.get(&name).unwrap();
            (name, value)
        })
        .collect();
    pairs.sort();
    pairs
}

fn pair(name: &str, value: &str) -> (String, String) {
    (name.to_string(), value.to_string())
}

#[test]
fn reading_begins_with_first_page() {
    match Scan::begin("users".to_string(), only(&["name", "email"]), limits(3, 10)) {
        ScanProgress::Call(_, EngineCall::Scan(request)) => assert_eq!(
            request,
            ScanRequest {
                table_name: "users".to_string(),
                projection_expression: Some("name,email".to_string()),
                exclusive_start_key: None,
            }
        ),
        other => panic!("unexpected start: {:?}", other),
    }
}

#[test]
fn reading_everything_sends_no_expression() {
    match Scan::begin("users".to_string(), Projection::All, limits(3, 10)) {
        ScanProgress::Call(_, EngineCall::Scan(request)) => {
            assert_eq!(request.projection_expression, None)
        }
        other => panic!("unexpected start: {:?}", other),
    }
}

#[test]
fn reading_without_pages_exceeds_limit() {
    assert_eq!(
        failure(Scan::begin("users".to_string(), Projection::All, limits(0, 10))),
        found(StoreErrorKind::LimitExceeded)
    );
}

#[test]
fn empty_table_gives_no_rows() {
    let rows = done(begun(only(&["name"]), limits(1, 0)).advance(page(Vec::new(), None))).unwrap();
    assert!(rows.is_empty());
}

#[test]
fn single_page_gives_projected_rows() {
    let reply = page(vec![user("1", "alice"), user("2", "bob")], None);
    let rows = done(begun(only(&["name"]), limits(1, 2)).advance(reply)).unwrap();
    assert_eq!(rows.len(), 2);
    assert_eq!(pairs(&rows[0]), vec![pair("name", "alice")]);
    assert_eq!(pairs(&rows[1]), vec![pair("name", "bob")]);
}

#[test]
fn pages_are_followed_until_exhausted() {
    let (operation, request) =
        next(begun(Projection::All, limits(3, 10)).advance(page(vec![user("1", "alice")], Some(key("1")))));
    assert_eq!(
        request,
        ScanRequest {
            table_name: "users".to_string(),
            projection_expression: None,
            exclusive_start_key: Some(key("1")),
        }
    );
    let (operation, request) =
        next(operation.advance(page(vec![user("2", "bob"), user("3", "carol")], Some(key("3")))));
    assert_eq!(request.exclusive_start_key, Some(key("3")));
    let rows = done(operation.advance(page(vec![user("4", "dave")], None))).unwrap();
    assert_eq!(rows.len(), 4);
    assert_eq!(pairs(&rows[0]), vec![pair("id", "1"), pair("name", "alice")]);
    assert_eq!(pairs(&rows[1]), vec![pair("id", "2"), pair("name", "bob")]);
    assert_eq!(pairs(&rows[2]), vec![pair("id", "3"), pair("name", "carol")]);
    assert_eq!(pairs(&rows[3]), vec![pair("id", "4"), pair("name", "dave")]);
}

#[test]
fn empty_page_with_token_goes_on() {
    let (operation, request) =
        next(begun(Projection::All, limits(2, 10)).advance(page(Vec::new(), Some(key("9")))));
    assert_eq!(request.exclusive_start_key, Some(key("9")));
    let rows = done(operation.advance(page(vec![user("1", "alice")], None))).unwrap();
    assert_eq!(rows.len(), 1);
}

#[test]
fn page_limit_ends_reading() {
    let (operation, _) =
        next(begun(Projection::All, limits(2, 10)).advance(page(vec![user("1", "alice")], Some(key("1")))));
    assert_eq!(
        failure(operation.advance(page(vec![user("2", "bob")], Some(key("2"))))),
        found(StoreErrorKind::LimitExceeded)
    );
}

#[test]
fn last_allowed_page_may_end_reading() {
    let (operation, _) =
        next(begun(Projection::All, limits(2, 10)).advance(page(vec![user("1", "alice")], Some(key("1")))));
    let rows = done(operation.advance(page(vec![user("2", "bob")], None))).unwrap();
    assert_eq!(rows.len(), 2);
}

#[test]
fn row_limit_ends_reading() {
    let (operation, _) = next(
        begun(Projection::All, limits(5, 3))
            .advance(page(vec![user("1", "alice"), user("2", "bob")], Some(key("2")))),
    );
    assert_eq!(
        failure(operation.advance(page(vec![user("3", "carol"), user("4", "dave")], None))),
        found(StoreErrorKind::LimitExceeded)
    );
}

#[test]
fn row_limit_is_inclusive() {
    let (operation, _) = next(
        begun(Projection::All, limits(5, 3))
            .advance(page(vec![user("1", "alice"), user("2", "bob")], Some(key("2")))),
    );
    let rows = done(operation.advance(page(vec![user("3", "carol")], None))).unwrap();
    assert_eq!(rows.len(), 3);
}

#[test]
fn timeout_gives_no_partial_result() {
    let (operation, _) =
        next(begun(Projection::All, limits(5, 10)).advance(page(vec![user("1", "alice")], Some(key("1")))));
    let reply = EngineReply::Failed(EngineError {
        fault: Fault::Timeout,
        message: "timed out".to_string(),
    });
    assert_eq!(
        done(operation.advance(reply)).map(|rows| rows.len()),
        Err(StoreError { kind: StoreErrorKind::StoreUnavailable, detail: "timed out".to_string() })
    );
}

#[test]
fn missing_table_is_not_found() {
    let reply = EngineReply::Failed(EngineError {
        fault: Fault::NotFound,
        message: "Requested resource not found".to_string(),
    });
    assert_eq!(
        failure(begun(Projection::All, limits(5, 10)).advance(reply)),
        StoreError {
            kind: StoreErrorKind::NotFound,
            detail: "Requested resource not found".to_string()
        }
    );
}

#[test]
fn unreadable_page_is_decode_error() {
    let reply =
        EngineReply::Failed(EngineError { fault: Fault::Malformed, message: "bad".to_string() });
    assert_eq!(
        failure(begun(Projection::All, limits(5, 10)).advance(reply)),
        StoreError { kind: StoreErrorKind::DecodeError, detail: "bad".to_string() }
    );
}

#[test]
fn reply_to_another_call_ends_reading() {
    assert_eq!(
        failure(begun(Projection::All, limits(5, 10)).advance(EngineReply::Created)),
        found(StoreErrorKind::DecodeError)
    );
}

#[test]
fn row_with_number_cannot_be_read() {
    let row = vec![
        s("id", "1"),
        Attribute { name: "age".to_string(), value: AttributeValue::N("41".to_string()) },
    ];
    assert_eq!(
        failure(begun(Projection::All, limits(5, 10)).advance(page(vec![user("0", "zed"), row], None))),
        found(StoreErrorKind::DecodeError)
    );
}

#[test]
fn number_outside_projection_does_not_matter() {
    let row = vec![
        s("name", "alice"),
        Attribute { name: "age".to_string(), value: AttributeValue::N("41".to_string()) },
        Attribute { name: "tags".to_string(), value: AttributeValue::Composite },
    ];
    let rows = done(begun(only(&["name"]), limits(5, 10)).advance(page(vec![row], None))).unwrap();
    assert_eq!(pairs(&rows[0]), vec![pair("name", "alice")]);
}

#[test]
fn token_must_be_a_key() {
    let token = vec![Attribute { name: "id".to_string(), value: AttributeValue::Null }];
    assert_eq!(
        failure(begun(Projection::All, limits(5, 10)).advance(page(Vec::new(), Some(token)))),
        found(StoreErrorKind::DecodeError)
    );
}

#[test]
fn decode_row_reads_strings() {
    let record = decode_row(&user("1", "alice"), &Projection::All).unwrap();
    assert_eq!(pairs(&record), vec![pair("id", "1"), pair("name", "alice")]);
    let projected = decode_row(&user("1", "alice"), &only(&["id", "email"])).unwrap();
    assert_eq!(pairs(&projected), vec![pair("id", "1")]);
    assert_eq!(decode_row(&Vec::new(), &Projection::All).unwrap().len(), 0);
}

#[test]
fn decode_row_refuses_what_it_cannot_read() {
    let values = [
        AttributeValue::N("1".to_string()),
        AttributeValue::B(vec![1, 2]),
        AttributeValue::Bool(true),
        AttributeValue::Null,
        AttributeValue::Composite,
    ];
    for value in values {
        let row = vec![s("id", "1"), Attribute { name: "x".to_string(), value }];
        assert!(decode_row(&row, &Projection::All).is_none());
        assert!(decode_row(&row, &only(&["x"])).is_none());
        assert!(decode_row(&row, &only(&["id"])).is_some());
    }
    let twice = vec![s("id", "1"), s("id", "2")];
    assert!(decode_row(&twice, &Projection::All).is_none());
    assert!(decode_row(&twice, &only(&["name"])).is_some());
}

#[test]
fn keys_hold_strings_numbers_and_bytes() {
    let scalar = vec![
        s("id", "1"),
        Attribute { name: "n".to_string(), value: AttributeValue::N("2".to_string()) },
        Attribute { name: "b".to_string(), value: AttributeValue::B(vec![3]) },
    ];
    assert!(is_key_like(&scalar));
    assert!(is_key_like(&Vec::new()));
    for value in [AttributeValue::Bool(false), AttributeValue::Null, AttributeValue::Composite] {
        assert!(!is_key_like(&vec![s("id", "1"), Attribute { name: "x".to_string(), value }]));
    }
}
