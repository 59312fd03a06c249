//! The table store client: what to ask of the backing engine to create a
//! table or to read one, and what to make of its replies.
//!
//! Both operations are state machines. `begin` names the first call; each
//! `advance` takes the reply to the call before and either names the next
//! call or ends with the operation's result. No reply is asked for twice.

use crate::engine::{
    AttributeDefinition, AttributeDefinitionView, AttributeValue, AttributeValueView,
    CreateTableRequest, CreateTableRequestView, EngineCall, EngineCallView, EngineError,
    EngineErrorView, EngineReply, EngineReplyView, Fault, Item, ItemView, KeySchemaElement,
    KeySchemaElementView, KeyType, ProvisionedThroughput, ScalarAttributeType, ScanRequest,
    ScanRequestView, TableDescription, TableDescriptionView,
};
use crate::model::{ErrorKind, TableSpec, TableSpecView};
use crate::projection::{Projection, ProjectionView};
use crate::record::Record;
use crate::text::{joined, text_eq, views};
use vstd::prelude::*;

verus! {

/// The capacity hint that every table is created with.
pub const READ_CAPACITY_UNITS: i64 = 10;

pub const WRITE_CAPACITY_UNITS: i64 = 5;

/// The ways in which the store can fail.
#[derive(Clone, Copy, PartialEq, Eq, Debug, Structural)]
pub enum StoreErrorKind {
    /// The table exists with another specification.
    Conflict,
    /// The table that was to be read does not exist.
    NotFound,
    /// The engine could not be reached or did not serve the call.
    StoreUnavailable,
    /// The engine answered with data that cannot be interpreted.
    DecodeError,
    /// The table is larger than the limits of the read allow.
    LimitExceeded,
}

impl StoreErrorKind {
    /// The kind under which an outcome reports the failure.
    pub open spec fn reported(self) -> ErrorKind {
        match self {
            StoreErrorKind::Conflict => ErrorKind::ConflictError,
            StoreErrorKind::NotFound => ErrorKind::NotFound,
            StoreErrorKind::StoreUnavailable => ErrorKind::StoreUnavailable,
            StoreErrorKind::DecodeError => ErrorKind::DecodeError,
            StoreErrorKind::LimitExceeded => ErrorKind::LimitExceeded,
        }
    }

    /// The kind under which an outcome reports the failure.
    pub fn error_kind(self) -> (kind: ErrorKind)
        ensures
            kind == self.reported(),
    {
        match self {
            StoreErrorKind::Conflict => ErrorKind::ConflictError,
            StoreErrorKind::NotFound => ErrorKind::NotFound,
            StoreErrorKind::StoreUnavailable => ErrorKind::StoreUnavailable,
            StoreErrorKind::DecodeError => ErrorKind::DecodeError,
            StoreErrorKind::LimitExceeded => ErrorKind::LimitExceeded,
        }
    }
}

/// A failure of the store. `detail` holds the engine's own words where the
/// engine reported the failure, and the table's name where the client found
/// it.
#[derive(Clone, Debug, PartialEq, Eq)]
pub struct StoreError {
    pub kind: StoreErrorKind,
    pub detail: String,
}

pub struct StoreErrorView {
    pub kind: StoreErrorKind,
    pub detail: Seq<char>,
}

impl View for StoreError {
    type V = StoreErrorView;

    open spec fn view(&self) -> StoreErrorView {
        StoreErrorView { kind: self.kind, detail: self.detail@ }
    }
}

/// The store's failure for a failed call. An engine that cannot be read
/// gives a decode error, a table that is missing when it is to be read is
/// not found, and everything else leaves the store unavailable.
pub open spec fn store_fault(error: EngineErrorView, reading: bool) -> StoreErrorView {
    StoreErrorView {
        kind: match error.fault {
            Fault::Malformed => StoreErrorKind::DecodeError,
            Fault::NotFound => if reading {
                StoreErrorKind::NotFound
            } else {
                StoreErrorKind::StoreUnavailable
            },
            _ => StoreErrorKind::StoreUnavailable,
        },
        detail: error.message,
    }
}

/// The failure that the client finds by itself on table `table`.
pub open spec fn found_fault(kind: StoreErrorKind, table: Seq<char>) -> StoreErrorView {
    StoreErrorView { kind, detail: table }
}

impl StoreError {
    /// The store's failure for a failed call.
    pub fn from_engine(error: EngineError, reading: bool) -> (failure: StoreError)
        ensures
            failure@ == store_fault(error@, reading),
    {
        let kind = match error.fault {
            Fault::Malformed => StoreErrorKind::DecodeError,
            Fault::NotFound => if reading {
                StoreErrorKind::NotFound
            } else {
                StoreErrorKind::StoreUnavailable
            },
            _ => StoreErrorKind::StoreUnavailable,
        };
        StoreError { kind, detail: error.message }
    }

    /// The failure that the client finds by itself on table `table`.
    pub fn found(kind: StoreErrorKind, table: &str) -> (failure: StoreError)
        ensures
            failure@ == found_fault(kind, table@),
    {
        StoreError { kind, detail: table.to_owned() }
    }
}

/// The key schema of a table with partition key `key`: that attribute alone,
/// as the hash key.
pub open spec fn key_schema_of(key: Seq<char>) -> Seq<KeySchemaElementView> {
    seq![KeySchemaElementView { attribute_name: key, key_type: KeyType::Hash }]
}

/// The attribute definitions of a table with partition key `key`: that
/// attribute alone, a string.
pub open spec fn definitions_of(key: Seq<char>) -> Seq<AttributeDefinitionView> {
    seq![AttributeDefinitionView { attribute_name: key, attribute_type: ScalarAttributeType::S }]
}

/// The call that creates the table that `spec` describes.
pub open spec fn creation_request(spec: TableSpecView) -> CreateTableRequestView {
    CreateTableRequestView {
        table_name: spec.name,
        key_schema: key_schema_of(spec.partition_key),
        attribute_definitions: definitions_of(spec.partition_key),
        provisioned_throughput: ProvisionedThroughput {
            read_capacity_units: READ_CAPACITY_UNITS,
            write_capacity_units: WRITE_CAPACITY_UNITS,
        },
    }
}

/// Whether a table that the engine describes is the table that `spec` asks
/// for: the same name, and the key that a creation from `spec` gives.
pub open spec fn describes(description: TableDescriptionView, spec: TableSpecView) -> bool {
    &&& description.table_name == spec.name
    &&& description.key_schema == key_schema_of(spec.partition_key)
    &&& description.attribute_definitions == definitions_of(spec.partition_key)
}

/// The call that creates the table that `spec` describes: one hash key of
/// type string, and the fixed capacity hint.
pub fn create_table_request(spec: &TableSpec) -> (request: CreateTableRequest)
    ensures
        request@ == creation_request(spec@),
{
    let mut key_schema: Vec<KeySchemaElement> = Vec::new();
    key_schema.push(
        KeySchemaElement {
            attribute_name: spec.partition_key().to_owned(),
            key_type: KeyType::Hash,
        },
    );
    let mut attribute_definitions: Vec<AttributeDefinition> = Vec::new();
    attribute_definitions.push(
        AttributeDefinition {
            attribute_name: spec.partition_key().to_owned(),
            attribute_type: ScalarAttributeType::S,
        },
    );
    let request = CreateTableRequest {
        table_name: spec.name().to_owned(),
        key_schema,
        attribute_definitions,
        provisioned_throughput: ProvisionedThroughput {
            read_capacity_units: READ_CAPACITY_UNITS,
            write_capacity_units: WRITE_CAPACITY_UNITS,
        },
    };
    proof {
        assert(request@.key_schema =~= key_schema_of(spec@.partition_key));
        assert(request@.attribute_definitions =~= definitions_of(spec@.partition_key));
    }
    request
}

/// Whether a table that the engine describes is the table that `spec` asks
/// for.
pub fn matches_spec(description: &TableDescription, spec: &TableSpec) -> (same: bool)
    ensures
        same == describes(description@, spec@),
{
    let named = text_eq(description.table_name.as_str(), spec.name());
    let keyed = description.key_schema.len() == 1 && text_eq(
        description.key_schema[0].attribute_name.as_str(),
        spec.partition_key(),
    ) && match description.key_schema[0].key_type {
        KeyType::Hash => true,
        KeyType::Range => false,
    };
    let typed = description.attribute_definitions.len() == 1 && text_eq(
        description.attribute_definitions[0].attribute_name.as_str(),
        spec.partition_key(),
    ) && match description.attribute_definitions[0].attribute_type {
        ScalarAttributeType::S => true,
        _ => false,
    };
    proof {
        let schema = description@.key_schema;
        let wanted = key_schema_of(spec@.partition_key);
        if keyed {
            assert(schema[0] == wanted[0]);
            assert(schema =~= wanted);
        } else if schema == wanted {
            assert(schema.len() == 1);
            assert(schema[0] == wanted[0]);
        }
        let definitions = description@.attribute_definitions;
        let defined = definitions_of(spec@.partition_key);
        if typed {
            assert(definitions[0] == defined[0]);
            assert(definitions =~= defined);
        } else if definitions == defined {
            assert(definitions.len() == 1);
            assert(definitions[0] == defined[0]);
        }
    }
    named && keyed && typed
}

/// Where the creation of a table stands.
#[derive(Clone, Copy, PartialEq, Eq, Debug, Structural)]
pub enum CreatePhase {
    /// The creation was asked for.
    Creating,
    /// The table existed already, and its description was asked for.
    Confirming,
}

/// The creation of a table, under way.
#[derive(Debug)]
pub struct CreateTable {
    spec: TableSpec,
    phase: CreatePhase,
}

pub struct CreateTableView {
    pub spec: TableSpecView,
    pub phase: CreatePhase,
}

impl View for CreateTable {
    type V = CreateTableView;

    closed spec fn view(&self) -> CreateTableView {
        CreateTableView { spec: self.spec@, phase: self.phase }
    }
}

/// The next thing to do in the creation of a table.
#[derive(Debug)]
pub enum CreateProgress {
    /// Make this call and come back with its reply.
    Call(CreateTable, EngineCall),
    /// The creation has ended.
    Done(Result<(), StoreError>),
}

pub enum CreateProgressView {
    Call(CreateTableView, EngineCallView),
    Done(Result<(), StoreErrorView>),
}

impl View for CreateProgress {
    type V = CreateProgressView;

    open spec fn view(&self) -> CreateProgressView {
        match self {
            CreateProgress::Call(operation, call) => CreateProgressView::Call(operation@, call@),
            CreateProgress::Done(Ok(())) => CreateProgressView::Done(Ok(())),
            CreateProgress::Done(Err(failure)) => CreateProgressView::Done(Err(failure@)),
        }
    }
}

/// How the creation of the table `spec` starts: with the call that creates
/// it.
pub open spec fn create_begin(spec: TableSpecView) -> CreateProgressView {
    CreateProgressView::Call(
        CreateTableView { spec, phase: CreatePhase::Creating },
        EngineCallView::CreateTable(creation_request(spec)),
    )
}

/// How the creation goes on after a reply.
///
/// A table that was created ends it well. One that exists already is
/// described, and ends it well where it is the table asked for, and in a
/// conflict where it is another. A failed call ends it with the store's
/// failure for it, and a reply that answers another call with a decode
/// error.
pub open spec fn create_advance(
    operation: CreateTableView,
    reply: EngineReplyView,
) -> CreateProgressView {
    let spec = operation.spec;
    match operation.phase {
        CreatePhase::Creating => match reply {
            EngineReplyView::Created => CreateProgressView::Done(Ok(())),
            EngineReplyView::Failed(error) => if error.fault == Fault::AlreadyExists {
                CreateProgressView::Call(
                    CreateTableView { spec, phase: CreatePhase::Confirming },
                    EngineCallView::DescribeTable(spec.name),
                )
            } else {
                CreateProgressView::Done(Err(store_fault(error, false)))
            },
            _ => CreateProgressView::Done(
                Err(found_fault(StoreErrorKind::DecodeError, spec.name)),
            ),
        },
        CreatePhase::Confirming => match reply {
            EngineReplyView::Described(description) => if description.table_name != spec.name {
                CreateProgressView::Done(Err(found_fault(StoreErrorKind::DecodeError, spec.name)))
            } else if describes(description, spec) {
                CreateProgressView::Done(Ok(()))
            } else {
                CreateProgressView::Done(Err(found_fault(StoreErrorKind::Conflict, spec.name)))
            },
            EngineReplyView::Failed(error) => CreateProgressView::Done(
                Err(store_fault(error, false)),
            ),
            _ => CreateProgressView::Done(
                Err(found_fault(StoreErrorKind::DecodeError, spec.name)),
            ),
        },
    }
}

impl CreateTable {
    /// Starts the creation of the table `spec`.
    pub fn begin(spec: TableSpec) -> (progress: CreateProgress)
        ensures
            progress@ == create_begin(spec@),
    {
        let request = create_table_request(&spec);
        CreateProgress::Call(
            CreateTable { spec, phase: CreatePhase::Creating },
            EngineCall::CreateTable(request),
        )
    }

    /// The table that is being created.
    pub fn spec(&self) -> (spec: &TableSpec)
        ensures
            spec@ == self@.spec,
    {
        &self.spec
    }

    /// Goes on with the reply to the call that was asked for last.
    pub fn advance(self, reply: EngineReply) -> (progress: CreateProgress)
        ensures
            progress@ == create_advance(self@, reply@),
    {
        let CreateTable { spec, phase } = self;
        match phase {
            CreatePhase::Creating => match reply {
                EngineReply::Created => CreateProgress::Done(Ok(())),
                EngineReply::Failed(error) => match error.fault {
                    Fault::AlreadyExists => {
                        let name = spec.name().to_owned();
                        CreateProgress::Call(
                            CreateTable { spec, phase: CreatePhase::Confirming },
                            EngineCall::DescribeTable(name),
                        )
                    },
                    _ => CreateProgress::Done(Err(StoreError::from_engine(error, false))),
                },
                _ => CreateProgress::Done(
                    Err(StoreError::found(StoreErrorKind::DecodeError, spec.name())),
                ),
            },
            CreatePhase::Confirming => match reply {
                EngineReply::Described(description) => {
                    if !text_eq(description.table_name.as_str(), spec.name()) {
                        CreateProgress::Done(
                            Err(StoreError::found(StoreErrorKind::DecodeError, spec.name())),
                        )
                    } else if matches_spec(&description, &spec) {
                        CreateProgress::Done(Ok(()))
                    } else {
                        CreateProgress::Done(
                            Err(StoreError::found(StoreErrorKind::Conflict, spec.name())),
                        )
                    }
                },
                EngineReply::Failed(error) => CreateProgress::Done(
                    Err(StoreError::from_engine(error, false)),
                ),
                _ => CreateProgress::Done(
                    Err(StoreError::found(StoreErrorKind::DecodeError, spec.name())),
                ),
            },
        }
    }
}

/// Whether a row can be read under `projection`: each attribute that the
/// projection lets through holds a string, and stands once.
pub open spec fn row_decodable(item: ItemView, projection: ProjectionView) -> bool {
    &&& forall|i: int|
        0 <= i < item.len() && projection.admits(#[trigger] item[i].name) ==> item[i].value is S
    &&& forall|i: int, j: int|
        0 <= i < j < item.len() && projection.admits(item[i].name) ==> item[i].name
            != item[j].name
}

/// Whether the row has an attribute `name`.
pub open spec fn row_names(item: ItemView, name: Seq<char>) -> bool {
    exists|i: int| 0 <= i < item.len() && #[trigger] item[i].name == name
}

/// The record that a row gives under `projection`: the attributes that the
/// projection lets through, each with its string.
pub open spec fn row_record(item: ItemView, projection: ProjectionView) -> Map<
    Seq<char>,
    Seq<char>,
> {
    Map::new(
        |name: Seq<char>| projection.admits(name) && row_names(item, name),
        |name: Seq<char>|
            item[choose|i: int| 0 <= i < item.len() && #[trigger] item[i].name == name].value->S_0,
    )
}

/// Whether every row of a page can be read under `projection`.
pub open spec fn page_decodable(items: Seq<ItemView>, projection: ProjectionView) -> bool {
    forall|k: int| 0 <= k < items.len() ==> row_decodable(#[trigger] items[k], projection)
}

/// The records that the rows of a page give under `projection`.
pub open spec fn page_records(items: Seq<ItemView>, projection: ProjectionView) -> Seq<
    Map<Seq<char>, Seq<char>>,
> {
    Seq::new(items.len(), |k: int| row_record(items[k], projection))
}

/// Whether a continuation token can be handed back: a key holds strings,
/// numbers and bytes only.
pub open spec fn key_like(token: ItemView) -> bool {
    forall|i: int|
        0 <= i < token.len() ==> ((#[trigger] token[i]).value is S || token[i].value is N
            || token[i].value is B)
}

/// Reads a row under `projection`.
pub fn decode_row(item: &Item, projection: &Projection) -> (record: Option<Record>)
    ensures
        record is Some <==> row_decodable(views(item@), projection@),
        record is Some ==> record.unwrap()@ == row_record(views(item@), projection@),
{
    let ghost row = views(item@);
    let mut record = Record::new();
    let mut i: usize = 0;
    while i < item.len()
        invariant
            i <= item@.len(),
            row == views(item@),
            forall|j: int|
                0 <= j < i && projection@.admits(#[trigger] row[j].name) ==> row[j].value is S,
            forall|j: int, k: int|
                0 <= j < k < i && projection@.admits(row[j].name) ==> row[j].name != row[k].name,
            forall|name: Seq<char>| #[trigger]
                record@.contains_key(name) ==> projection@.admits(name) && row_names(
                    row.take(i as int),
                    name,
                ),
            forall|name: Seq<char>|
                projection@.admits(name) && #[trigger] row_names(row.take(i as int), name)
                    ==> record@.contains_key(name),
            forall|j: int|
                0 <= j < i && projection@.admits(#[trigger] row[j].name) ==> record@[row[j].name]
                    == row[j].value->S_0,
        decreases item@.len() - i,
    {
        let ghost before = record@;
        let ghost name = row[i as int].name;
        proof {
            assert forall|other: Seq<char>|
                row_names(row.take(i + 1), other) <==> (row_names(row.take(i as int), other)
                    || other == name) by {
                if row_names(row.take(i + 1), other) {
                    let j = choose|j: int|
                        0 <= j < row.take(i + 1).len() && #[trigger] row.take(i + 1)[j].name
                            == other;
                    if j < i {
                        assert(row.take(i as int)[j].name == other);
                    }
                }
                if row_names(row.take(i as int), other) {
                    let j = choose|j: int|
                        0 <= j < row.take(i as int).len() && #[trigger] row.take(i as int)[j].name
                            == other;
                    assert(row.take(i + 1)[j].name == other);
                }
                if other == name {
                    assert(row.take(i + 1)[i as int].name == other);
                }
            }
        }
        if projection.admits(item[i].name.as_str()) {
            match &item[i].value {
                AttributeValue::S(text) => {
                    if record.contains(item[i].name.as_str()) {
                        proof {
                            assert(row_names(row.take(i as int), name));
                            let j = choose|j: int|
                                0 <= j < row.take(i as int).len() && #[trigger] row.take(
                                    i as int,
                                )[j].name == name;
                            assert(row[j].name == row[i as int].name);
                        }
                        return None;
                    }
                    record.insert(item[i].name.clone(), text.clone());
                    proof {
                        assert(record@ == before.insert(name, text@));
                        assert(row[i as int].value == AttributeValueView::S(text@));
                        assert forall|j: int, k: int|
                            0 <= j < k < i + 1 && projection@.admits(
                                row[j].name,
                            ) implies row[j].name != row[k].name by {
                            if k == i && row[j].name == name {
                                assert(row.take(i as int)[j].name == name);
                                assert(row_names(row.take(i as int), name));
                            }
                        }
                        assert forall|j: int|
                            0 <= j < i + 1 && projection@.admits(
                                #[trigger] row[j].name,
                            ) implies record@[row[j].name] == row[j].value->S_0 by {
                            if j < i {
                                assert(row.take(i as int)[j].name == row[j].name);
                                assert(row_names(row.take(i as int), row[j].name));
                                assert(before.contains_key(row[j].name));
                            }
                        }
                    }
                },
                _ => {
                    return None;
                },
            }
        }
        proof {
            assert forall|other: Seq<char>| #[trigger]
                record@.contains_key(other) implies projection@.admits(other) && row_names(
                row.take(i + 1),
                other,
            ) by {
                if other != name {
                    assert(before.contains_key(other));
                }
            }
            assert forall|other: Seq<char>|
                projection@.admits(other) && #[trigger] row_names(
                    row.take(i + 1),
                    other,
                ) implies record@.contains_key(other) by {
                if other != name {
                    assert(row_names(row.take(i as int), other));
                }
            }
        }
        i += 1;
    }
    proof {
        assert(row.take(i as int) =~= row);
        let wanted = row_record(row, projection@);
        assert forall|name: Seq<char>| record@.contains_key(name) implies record@[name]
            == wanted[name] by {
            assert(row_names(row, name));
            let j = choose|j: int| 0 <= j < row.len() && #[trigger] row[j].name == name;
            assert(projection@.admits(row[j].name));
        }
        assert(record@ =~= wanted);
    }
    Some(record)
}

/// Whether a continuation token can be handed back.
pub fn is_key_like(token: &Item) -> (like: bool)
    ensures
        like == key_like(views(token@)),
{
    let mut i: usize = 0;
    while i < token.len()
        invariant
            i <= token@.len(),
            forall|j: int|
                0 <= j < i ==> ((#[trigger] views(token@)[j]).value is S || views(
                    token@,
                )[j].value is N || views(token@)[j].value is B),
        decreases token@.len() - i,
    {
        match &token[i].value {
            AttributeValue::S(_) => {},
            AttributeValue::N(_) => {},
            AttributeValue::B(_) => {},
            _ => {
                assert(!(views(token@)[i as int].value is S));
                return false;
            },
        }
        i += 1;
    }
    true
}

/// How much of a table a read may fetch before it gives up.
#[derive(Clone, Copy, PartialEq, Eq, Debug, Structural)]
pub struct ScanLimits {
    /// The number of pages that may be asked for.
    pub max_pages: usize,
    /// The number of rows that may be held.
    pub max_rows: usize,
}

/// The reading of a table, under way.
#[derive(Debug)]
pub struct Scan {
    table: String,
    projection: Projection,
    limits: ScanLimits,
    pages: usize,
    rows: Vec<Record>,
}

pub struct ScanView {
    pub table: Seq<char>,
    pub projection: ProjectionView,
    pub limits: ScanLimits,
    /// The number of pages asked for so far.
    pub pages: nat,
    /// The records read so far.
    pub rows: Seq<Map<Seq<char>, Seq<char>>>,
}

impl ScanView {
    /// Whether the reading is within its limits.
    pub open spec fn within_limits(self) -> bool {
        1 <= self.pages <= self.limits.max_pages && self.rows.len() <= self.limits.max_rows
    }

    /// The number of pages that may still be asked for.
    pub open spec fn pages_left(self) -> nat {
        (self.limits.max_pages - self.pages) as nat
    }
}

impl View for Scan {
    type V = ScanView;

    closed spec fn view(&self) -> ScanView {
        ScanView {
            table: self.table@,
            projection: self.projection@,
            limits: self.limits,
            pages: self.pages as nat,
            rows: views(self.rows@),
        }
    }
}

/// The next thing to do in the reading of a table.
#[derive(Debug)]
pub enum ScanProgress {
    /// Make this call and come back with its reply.
    Call(Scan, EngineCall),
    /// The reading has ended.
    Done(Result<Vec<Record>, StoreError>),
}

pub enum ScanProgressView {
    Call(ScanView, EngineCallView),
    Done(Result<Seq<Map<Seq<char>, Seq<char>>>, StoreErrorView>),
}

impl View for ScanProgress {
    type V = ScanProgressView;

    open spec fn view(&self) -> ScanProgressView {
        match self {
            ScanProgress::Call(operation, call) => ScanProgressView::Call(operation@, call@),
            ScanProgress::Done(Ok(rows)) => ScanProgressView::Done(Ok(views(rows@))),
            ScanProgress::Done(Err(failure)) => ScanProgressView::Done(Err(failure@)),
        }
    }
}

/// The call that reads the page of `table` that follows `token`, or the
/// first page where there is no token.
pub open spec fn scan_request(
    table: Seq<char>,
    projection: ProjectionView,
    token: Option<ItemView>,
) -> ScanRequestView {
    ScanRequestView {
        table_name: table,
        projection_expression: match projection {
            ProjectionView::All => None,
            ProjectionView::Only(names) => Some(joined(names)),
        },
        exclusive_start_key: token,
    }
}

/// How the reading of `table` starts: with the call for its first page,
/// unless not even one page may be asked for.
pub open spec fn scan_begin(
    table: Seq<char>,
    projection: ProjectionView,
    limits: ScanLimits,
) -> ScanProgressView {
    if limits.max_pages == 0 {
        ScanProgressView::Done(Err(found_fault(StoreErrorKind::LimitExceeded, table)))
    } else {
        ScanProgressView::Call(
            ScanView { table, projection, limits, pages: 1, rows: Seq::empty() },
            EngineCallView::Scan(scan_request(table, projection, None)),
        )
    }
}

/// How the reading goes on after a reply.
///
/// A page is taken whole or not at all: it must fit into the limit on rows,
/// each of its rows must be readable under the projection, and its token, if
/// it has one, must be a key. The last page ends the reading with all the
/// records, in the order in which they came. A page with a token asks for the
/// next page, unless the limit on pages is reached. A failed call ends the
/// reading with the store's failure for it, whatever was read before, and a
/// reply that answers another call with a decode error.
pub open spec fn scan_advance(operation: ScanView, reply: EngineReplyView) -> ScanProgressView {
    let table = operation.table;
    match reply {
        EngineReplyView::Page(page) => if operation.rows.len() + page.items.len()
            > operation.limits.max_rows {
            ScanProgressView::Done(Err(found_fault(StoreErrorKind::LimitExceeded, table)))
        } else if !page_decodable(page.items, operation.projection) {
            ScanProgressView::Done(Err(found_fault(StoreErrorKind::DecodeError, table)))
        } else {
            let rows = operation.rows + page_records(page.items, operation.projection);
            match page.last_evaluated_key {
                None => ScanProgressView::Done(Ok(rows)),
                Some(token) => if !key_like(token) {
                    ScanProgressView::Done(Err(found_fault(StoreErrorKind::DecodeError, table)))
                } else if operation.pages >= operation.limits.max_pages {
                    ScanProgressView::Done(
                        Err(found_fault(StoreErrorKind::LimitExceeded, table)),
                    )
                } else {
                    ScanProgressView::Call(
                        ScanView {
                            table,
                            projection: operation.projection,
                            limits: operation.limits,
                            pages: operation.pages + 1,
                            rows,
                        },
                        EngineCallView::Scan(
                            scan_request(table, operation.projection, Some(token)),
                        ),
                    )
                },
            }
        },
        EngineReplyView::Failed(error) => ScanProgressView::Done(Err(store_fault(error, true))),
        _ => ScanProgressView::Done(Err(found_fault(StoreErrorKind::DecodeError, table))),
    }
}

/// Whether a reading that goes on is within its limits.
pub open spec fn progress_within_limits(progress: ScanProgressView) -> bool {
    match progress {
        ScanProgressView::Call(operation, _) => operation.within_limits(),
        ScanProgressView::Done(_) => true,
    }
}

impl Scan {
    #[verifier::type_invariant]
    spec fn well_formed(self) -> bool {
        1 <= self.pages <= self.limits.max_pages && self.rows@.len() <= self.limits.max_rows
    }

    /// Starts the reading of `table` under `projection`.
    pub fn begin(table: String, projection: Projection, limits: ScanLimits) -> (progress:
        ScanProgress)
        ensures
            progress@ == scan_begin(table@, projection@, limits),
            progress_within_limits(progress@),
    {
        if limits.max_pages == 0 {
            return ScanProgress::Done(
                Err(StoreError::found(StoreErrorKind::LimitExceeded, table.as_str())),
            );
        }
        let request = ScanRequest {
            table_name: table.clone(),
            projection_expression: projection.expression(),
            exclusive_start_key: None,
        };
        let operation = Scan { table, projection, limits, pages: 1, rows: Vec::new() };
        proof {
            assert(views(operation.rows@) =~= Seq::<Map<Seq<char>, Seq<char>>>::empty());
        }
        ScanProgress::Call(operation, EngineCall::Scan(request))
    }

    /// Goes on with the reply to the call that was asked for last.
    #[verifier::loop_isolation(false)]
    pub fn advance(self, reply: EngineReply) -> (progress: ScanProgress)
        ensures
            progress@ == scan_advance(self@, reply@),
            progress_within_limits(progress@),
    {
        proof {
            use_type_invariant(&self);
        }
        let ghost start = self@;
        let Scan { table, projection, limits, pages, rows } = self;
        let mut rows = rows;
        match reply {
            EngineReply::Page(page) => {
                if page.items.len() > limits.max_rows - rows.len() {
                    return ScanProgress::Done(
                        Err(StoreError::found(StoreErrorKind::LimitExceeded, table.as_str())),
                    );
                }
                let ghost items = page@.items;
                let mut k: usize = 0;
                while k < page.items.len()
                    invariant
                        k <= page.items@.len(),
                        items == page@.items,
                        start.rows.len() + items.len() <= limits.max_rows,
                        forall|m: int|
                            0 <= m < k ==> row_decodable(#[trigger] items[m], projection@),
                        views(rows@) == start.rows + page_records(items, projection@).take(
                            k as int,
                        ),
                    decreases page.items@.len() - k,
                {
                    assert(items[k as int] == views(page.items@[k as int]@));
                    match decode_row(&page.items[k], &projection) {
                        Some(record) => {
                            let ghost before = views(rows@);
                            rows.push(record);
                            proof {
                                let records = page_records(items, projection@);
                                assert(views(rows@) =~= before.push(record@));
                                assert(records.take(k + 1) =~= records.take(k as int).push(
                                    records[k as int],
                                ));
                                assert(views(rows@) =~= start.rows + records.take(k + 1));
                            }
                        },
                        None => {
                            assert(!row_decodable(items[k as int], projection@));
                            return ScanProgress::Done(
                                Err(
                                    StoreError::found(
                                        StoreErrorKind::DecodeError,
                                        table.as_str(),
                                    ),
                                ),
                            );
                        },
                    }
                    k += 1;
                }
                proof {
                    let records = page_records(items, projection@);
                    assert(records.take(k as int) =~= records);
                }
                match page.last_evaluated_key {
                    None => ScanProgress::Done(Ok(rows)),
                    Some(token) => {
                        if !is_key_like(&token) {
                            ScanProgress::Done(
                                Err(
                                    StoreError::found(
                                        StoreErrorKind::DecodeError,
                                        table.as_str(),
                                    ),
                                ),
                            )
                        } else if pages >= limits.max_pages {
                            ScanProgress::Done(
                                Err(
                                    StoreError::found(
                                        StoreErrorKind::LimitExceeded,
                                        table.as_str(),
                                    ),
                                ),
                            )
                        } else {
                            let request = ScanRequest {
                                table_name: table.clone(),
                                projection_expression: projection.expression(),
                                exclusive_start_key: Some(token),
                            };
                            ScanProgress::Call(
                                Scan { table, projection, limits, pages: pages + 1, rows },
                                EngineCall::Scan(request),
                            )
                        }
                    },
                }
            },
            EngineReply::Failed(error) => ScanProgress::Done(
                Err(StoreError::from_engine(error, true)),
            ),
            _ => ScanProgress::Done(
                Err(StoreError::found(StoreErrorKind::DecodeError, table.as_str())),
            ),
        }
    }
}

/// The reading asks for no more pages than its limit allows: each call that
/// it asks for leaves one page less to ask for.
pub proof fn reading_is_bounded(operation: ScanView, reply: EngineReplyView)
    requires
        operation.within_limits(),
    ensures
        match scan_advance(operation, reply) {
            ScanProgressView::Call(next, _) => next.within_limits() && next.pages_left()
                < operation.pages_left(),
            ScanProgressView::Done(_) => true,
        },
{
}

/// What a reading returns holds only attributes that the projection lets
/// through.
pub proof fn records_hold_projected_only(item: ItemView, projection: ProjectionView)
    ensures
        forall|name: Seq<char>|
            row_record(item, projection).contains_key(name) ==> projection.admits(name),
{
}

} // verus!
