use table_handlers::engine::{
    Attribute, AttributeValue, EngineCall, EngineError, EngineReply, Fault, ScanPage,
};
use table_handlers::executor::{
    begin, respond, resume, start, CommandOutcome, Handler, Pending, Rejection, Response, Step,
    Terminal,
};
use table_handlers::model::{ErrorKind, Field, TableSpec};
use table_handlers::projection::Projection;
use table_handlers::request::{Command, Payload, PayloadValue};
use table_handlers::store::{create_table_request, ScanLimits, StoreError, StoreErrorKind};

const LIMITS: ScanLimits = ScanLimits { max_pages: 4, max_rows: 100 };

fn payload(members: &[(&str, &str)]) -> Payload {
    let mut payload = Payload::new();
    for (key, value) in members {
        payload.set(key.to_string(), PayloadValue::Text(value.to_string()));
    }
    payload
}

fn calling(step: Step) -> (Pending, EngineCall) {
    match step {
        Step::Call(pending, call) => (pending, call),
        Step::Finished(terminal) => panic!("the invocation ended in {:?}", terminal),
    }
}

fn finished(step: Step) -> Terminal {
    match step {
        Step::Finished(terminal) => terminal,
        Step::Call(_, call) => panic!("the invocation asked for {:?}", call),
    }
}

fn failed(fault: Fault, message: &str) -> EngineReply {
    EngineReply::Failed(EngineError { fault, message: message.to_string() })
}

fn failure_of(response: &Response) -> (ErrorKind, String) {
    match &response.outcome {
        CommandOutcome::Failure(kind, detail) => (*kind, detail.clone()),
        other => panic!("no failure: {:?}", other),
    }
}

#[test]
fn create_without_table_name_is_rejected() {
    let terminal = finished(begin(Handler::Create, &payload(&[("key_name", "k1")]), LIMITS));
    match terminal {
        Terminal::Rejected(rejection) => {
            assert_eq!(rejection, Rejection::MalformedRequest(Field::TableName))
        }
        other => panic!("not rejected: {:?}", other),
    }
}

#[test]
fn create_asks_engine_to_create() {
    let step = begin(Handler::Create, &payload(&[("table_name", "users"), ("key_name", "id")]), LIMITS);
    let (_, call) = calling(step);
    let spec = TableSpec::new("users".to_string(), "id".to_string()).unwrap();
    assert_eq!(call, EngineCall::CreateTable(create_table_request(&spec)));
}

#[test]
fn created_table_is_reported() {
    let step = begin(Handler::Create, &payload(&[("table_name", "users"), ("key_name", "id")]), LIMITS);
    let (pending, _) = calling(step);
    let terminal = finished(resume(pending, EngineReply::Created));
    let response = respond("req-1".to_string(), terminal);
    assert_eq!(response.req_id, "req-1");
    match &response.outcome {
        CommandOutcome::Created(spec) => {
            assert_eq!(spec.name(), "users");
            assert_eq!(spec.partition_key(), "id");
        }
        other => panic!("not created: {:?}", other),
    }
    assert_eq!(response.message(), Some("table  users created.".to_string()));
    assert_eq!(response.error_kind(), None);
}

#[test]
fn conflict_is_rejected() {
    let command =
        Command::CreateTable { table_name: "users".to_string(), key_name: "id".to_string() };
    let (pending, _) = calling(start(command, LIMITS));
    let (pending, call) = calling(resume(pending, failed(Fault::AlreadyExists, "in use")));
    assert_eq!(call, EngineCall::DescribeTable("users".to_string()));
    let other = TableSpec::new("users".to_string(), "email".to_string()).unwrap();
    let request = create_table_request(&other);
    let description = table_handlers::engine::TableDescription {
        table_name: request.table_name,
        key_schema: request.key_schema,
        attribute_definitions: request.attribute_definitions,
    };
    let terminal = finished(resume(pending, EngineReply::Described(description)));
    match &terminal {
        Terminal::Rejected(rejection) => {
            assert_eq!(rejection, &Rejection::ConflictError("users".to_string()))
        }
        other => panic!("not rejected: {:?}", other),
    }
    let response = respond("req-2".to_string(), terminal);
    assert_eq!(failure_of(&response), (ErrorKind::ConflictError, "users".to_string()));
    assert_eq!(response.error_kind(), Some(ErrorKind::ConflictError));
    assert_eq!(response.message(), None);
}

#[test]
fn failed_creation_is_failed_not_fatal() {
    let command =
        Command::CreateTable { table_name: "users".to_string(), key_name: "id".to_string() };
    let (pending, _) = calling(start(command, LIMITS));
    let terminal = finished(resume(pending, failed(Fault::Transport, "connection reset")));
    match &terminal {
        Terminal::Failed(failure) => assert_eq!(
            failure,
            &StoreError {
                kind: StoreErrorKind::StoreUnavailable,
                detail: "connection reset".to_string()
            }
        ),
        other => panic!("not failed: {:?}", other),
    }
    let response = respond("req-3".to_string(), terminal);
    assert_eq!(
        failure_of(&response),
        (ErrorKind::StoreUnavailable, "connection reset".to_string())
    );
}

#[test]
fn command_with_empty_name_is_rejected() {
    let no_table = Command::CreateTable { table_name: String::new(), key_name: "id".to_string() };
    match finished(start(no_table, LIMITS)) {
        Terminal::Rejected(rejection) => {
            assert_eq!(rejection, Rejection::MalformedRequest(Field::TableName))
        }
        other => panic!("not rejected: {:?}", other),
    }
    let no_key = Command::CreateTable { table_name: "users".to_string(), key_name: String::new() };
    match finished(start(no_key, LIMITS)) {
        Terminal::Rejected(rejection) => {
            assert_eq!(rejection, Rejection::MalformedRequest(Field::KeyName))
        }
        other => panic!("not rejected: {:?}", other),
    }
    let read = Command::ReadAll { table_name: String::new(), projection: Projection::All };
    match finished(start(read, LIMITS)) {
        Terminal::Rejected(rejection) => {
            assert_eq!(rejection, Rejection::MalformedRequest(Field::TableName))
        }
        other => panic!("not rejected: {:?}", other),
    }
}

#[test]
fn malformed_request_is_reported_with_its_field() {
    let terminal = finished(begin(Handler::Create, &payload(&[("key_name", "k1")]), LIMITS));
    let response = respond("req-4".to_string(), terminal);
    assert_eq!(response.req_id, "req-4");
    assert_eq!(failure_of(&response), (ErrorKind::MalformedRequest, "table_name".to_string()));
}

#[test]
fn read_returns_rows() {
    let step =
        begin(Handler::Read, &payload(&[("table_name", "users"), ("projection", "name")]), LIMITS);
    let (pending, call) = calling(step);
    match call {
        EngineCall::Scan(request) => {
            assert_eq!(request.table_name, "users");
            assert_eq!(request.projection_expression, Some("name".to_string()));
            assert_eq!(request.exclusive_start_key, None);
        }
        other => panic!("no scan: {:?}", other),
    }
    let item = vec![
        Attribute { name: "id".to_string(), value: AttributeValue::S("1".to_string()) },
        Attribute { name: "name".to_string(), value: AttributeValue::S("alice".to_string()) },
    ];
    let page = ScanPage { items: vec![item], last_evaluated_key: None };
    let response = respond("req-5".to_string(), finished(resume(pending, EngineReply::Page(page))));
    match &response.outcome {
        CommandOutcome::Rows(rows) => {
            assert_eq!(rows.len(), 1);
            assert_eq!(rows[0].names(), vec!["name".to_string()]);
            assert_eq!(rows[0].get("name"), Some("alice".to_string()));
        }
        other => panic!("no rows: {:?}", other),
    }
    assert_eq!(response.message(), None);
    assert_eq!(response.error_kind(), None);
}

#[test]
fn read_timeout_is_store_unavailable() {
    let step = begin(Handler::Read, &payload(&[("table_name", "users")]), LIMITS);
    let (pending, _) = calling(step);
    let item =
        vec![Attribute { name: "id".to_string(), value: AttributeValue::S("1".to_string()) }];
    let page = ScanPage { items: vec![item.clone()], last_evaluated_key: Some(item) };
    let (pending, _) = calling(resume(pending, EngineReply::Page(page)));
    let terminal = finished(resume(pending, failed(Fault::Timeout, "deadline exceeded")));
    match &terminal {
        Terminal::Failed(failure) => {
            assert_eq!(failure.kind, StoreErrorKind::StoreUnavailable);
            assert_eq!(failure.detail, "deadline exceeded");
        }
        other => panic!("not failed: {:?}", other),
    }
    let response = respond("req-6".to_string(), terminal);
    assert_eq!(
        failure_of(&response),
        (ErrorKind::StoreUnavailable, "deadline exceeded".to_string())
    );
}

#[test]
fn read_of_missing_table_is_not_found() {
    let step = begin(Handler::Read, &payload(&[("table_name", "users")]), LIMITS);
    let (pending, _) = calling(step);
    let terminal = finished(resume(pending, failed(Fault::NotFound, "no such table")));
    let response = respond("req-7".to_string(), terminal);
    assert_eq!(failure_of(&response), (ErrorKind::NotFound, "no such table".to_string()));
}

#[test]
fn read_with_bad_projection_is_rejected() {
    let step = begin(Handler::Read, &payload(&[("table_name", "users"), ("projection", "a,,b")]), LIMITS);
    let response = respond("req-8".to_string(), finished(step));
    assert_eq!(failure_of(&response), (ErrorKind::MalformedRequest, "projection".to_string()));
}

#[test]
fn outcome_of_each_terminal() {
    let created =
        Terminal::Succeeded(CommandOutcome::Created(TableSpec::new("t".to_string(), "k".to_string()).unwrap()));
    assert!(matches!(created.into_outcome(), CommandOutcome::Created(_)));
    let rows = Terminal::Succeeded(CommandOutcome::Rows(Vec::new()));
    assert!(matches!(rows.into_outcome(), CommandOutcome::Rows(rows) if rows.is_empty()));
    let kinds = [
        (StoreErrorKind::Conflict, ErrorKind::ConflictError),
        (StoreErrorKind::NotFound, ErrorKind::NotFound),
        (StoreErrorKind::StoreUnavailable, ErrorKind::StoreUnavailable),
        (StoreErrorKind::DecodeError, ErrorKind::DecodeError),
        (StoreErrorKind::LimitExceeded, ErrorKind::LimitExceeded),
    ];
    for (kind, reported) in kinds {
        let failed = Terminal::Failed(StoreError { kind, detail: "why".to_string() });
        match failed.into_outcome() {
            CommandOutcome::Failure(found, detail) => {
                assert_eq!(found, reported);
                assert_eq!(detail, "why");
            }
            other => panic!("no failure: {:?}", other),
        }
    }
    for field in [Field::TableName, Field::KeyName, Field::Projection] {
        match Terminal::Rejected(Rejection::MalformedRequest(field)).into_outcome() {
            CommandOutcome::Failure(found, detail) => {
                assert_eq!(found, ErrorKind::MalformedRequest);
                assert_eq!(detail, field.name());
            }
            other => panic!("no failure: {:?}", other),
        }
    }
}
