//! An engine that keeps its tables in memory. It answers the calls of the
//! protocol as a backing engine does, page by page, and so lets a handler
//! run from its first call to its terminal state without a network.

use crate::engine::{
    Attribute, AttributeDefinition, AttributeValue, AttributeValueView, AttributeView,
    CreateTableRequest, CreateTableRequestView, EngineCall, EngineCallView, EngineError,
    EngineErrorView, EngineReply, EngineReplyView, Fault, Item, ItemView, KeySchemaElement,
    KeyType, ScalarAttributeType, ScanPage, ScanRequest, ScanRequestView, TableDescription,
    TableDescriptionView, item_views,
};
use crate::projection::ProjectionView;
use crate::record::Record;
use crate::store::{definitions_of, key_schema_of, row_decodable, row_names, row_record};
use crate::text::{text_eq, views};
use vstd::prelude::*;

verus! {

/// A table as the engine keeps it.
#[derive(Debug)]
struct MemoryTable {
    name: String,
    partition_key: String,
    rows: Vec<Record>,
}

/// A table as a value of the specification: its name, its partition key and
/// its rows in the order in which a read returns them.
pub struct TableView {
    pub name: Seq<char>,
    pub partition_key: Seq<char>,
    pub rows: Seq<Map<Seq<char>, Seq<char>>>,
}

impl TableView {
    /// Whether every row has the partition key, and no two rows the same
    /// value under it.
    pub open spec fn valid(self) -> bool {
        &&& self.name.len() > 0
        &&& self.partition_key.len() > 0
        &&& forall|i: int|
            0 <= i < self.rows.len() ==> (#[trigger] self.rows[i]).contains_key(
                self.partition_key,
            )
        &&& forall|i: int, j: int|
            0 <= i < j < self.rows.len() ==> (#[trigger] self.rows[i])[self.partition_key] != (
            #[trigger] self.rows[j])[self.partition_key]
    }

    /// Whether a row has the value `key` under the partition key.
    pub open spec fn has_key(self, key: Seq<char>) -> bool {
        exists|i: int|
            0 <= i < self.rows.len() && (#[trigger] self.rows[i])[self.partition_key] == key
    }

    /// The place of the row that has the value `key` under the partition key.
    pub open spec fn key_index(self, key: Seq<char>) -> int {
        choose|i: int|
            0 <= i < self.rows.len() && (#[trigger] self.rows[i])[self.partition_key] == key
    }

    /// The token that asks for the rows after `row`: the row's key.
    pub open spec fn token_after(self, row: Map<Seq<char>, Seq<char>>) -> ItemView {
        seq![
            AttributeView {
                name: self.partition_key,
                value: AttributeValueView::S(row[self.partition_key]),
            },
        ]
    }

    /// The place of the first row that a page after `token` holds, where the
    /// token is the key of a row.
    pub open spec fn page_start(self, token: Option<ItemView>) -> Option<int> {
        match token {
            None => Some(0),
            Some(key) => if key.len() == 1 && key[0].name == self.partition_key
                && key[0].value is S && self.has_key(key[0].value->S_0) {
                Some(self.key_index(key[0].value->S_0) + 1)
            } else {
                None
            },
        }
    }
}

impl View for MemoryTable {
    type V = TableView;

    closed spec fn view(&self) -> TableView {
        TableView { name: self.name@, partition_key: self.partition_key@, rows: views(self.rows@) }
    }
}

/// An engine as a value of the specification.
pub struct EngineView {
    pub tables: Seq<TableView>,
    /// The number of rows that a full page holds.
    pub page_size: nat,
}

impl EngineView {
    /// Whether the tables are valid and no two have the same name.
    pub open spec fn valid(self) -> bool {
        &&& self.page_size >= 1
        &&& forall|i: int| 0 <= i < self.tables.len() ==> (#[trigger] self.tables[i]).valid()
        &&& forall|i: int, j: int|
            0 <= i < j < self.tables.len() ==> (#[trigger] self.tables[i]).name != (
            #[trigger] self.tables[j]).name
    }

    /// Whether there is a table `name`.
    pub open spec fn has_table(self, name: Seq<char>) -> bool {
        exists|i: int| 0 <= i < self.tables.len() && (#[trigger] self.tables[i]).name == name
    }

    /// The place of the table `name`.
    pub open spec fn table_index(self, name: Seq<char>) -> int {
        choose|i: int| 0 <= i < self.tables.len() && (#[trigger] self.tables[i]).name == name
    }

    /// The table `name`.
    pub open spec fn table(self, name: Seq<char>) -> TableView {
        self.tables[self.table_index(name)]
    }

    /// The engine with one more table, which has no rows.
    pub open spec fn with_table(self, name: Seq<char>, partition_key: Seq<char>) -> EngineView {
        EngineView {
            tables: self.tables.push(TableView { name, partition_key, rows: Seq::empty() }),
            page_size: self.page_size,
        }
    }

    /// The engine with other rows in the table `name`.
    pub open spec fn with_rows(
        self,
        name: Seq<char>,
        rows: Seq<Map<Seq<char>, Seq<char>>>,
    ) -> EngineView {
        EngineView {
            tables: self.tables.update(
                self.table_index(name),
                TableView { name, partition_key: self.table(name).partition_key, rows },
            ),
            page_size: self.page_size,
        }
    }
}

/// The failure with which the engine answers a call on the table `table`.
pub open spec fn engine_failure(fault: Fault, table: Seq<char>) -> EngineErrorView {
    EngineErrorView { fault, message: table }
}

/// Whether the engine takes a request to create a table: the table has a
/// name, and its key is one named attribute, the hash key, of type string.
pub open spec fn acceptable(request: CreateTableRequestView) -> bool {
    &&& request.table_name.len() > 0
    &&& request.key_schema.len() == 1
    &&& request.key_schema[0].attribute_name.len() > 0
    &&& request.key_schema == key_schema_of(request.key_schema[0].attribute_name)
    &&& request.attribute_definitions == definitions_of(request.key_schema[0].attribute_name)
}

/// What a request to create a table does to the engine, and the reply.
pub open spec fn create_served(engine: EngineView, request: CreateTableRequestView) -> (
    EngineView,
    EngineReplyView,
) {
    if !acceptable(request) {
        (engine, EngineReplyView::Failed(engine_failure(Fault::Refused, request.table_name)))
    } else if engine.has_table(request.table_name) {
        (
            engine,
            EngineReplyView::Failed(engine_failure(Fault::AlreadyExists, request.table_name)),
        )
    } else {
        (
            engine.with_table(request.table_name, request.key_schema[0].attribute_name),
            EngineReplyView::Created,
        )
    }
}

/// The reply to a request for the description of the table `name`.
pub open spec fn describe_served(engine: EngineView, name: Seq<char>) -> EngineReplyView {
    if engine.has_table(name) {
        EngineReplyView::Described(
            TableDescriptionView {
                table_name: name,
                key_schema: key_schema_of(engine.table(name).partition_key),
                attribute_definitions: definitions_of(engine.table(name).partition_key),
            },
        )
    } else {
        EngineReplyView::Failed(engine_failure(Fault::NotFound, name))
    }
}

/// Whether an item holds a row: each attribute of the row once, with its
/// string, and nothing else.
pub open spec fn holds(item: ItemView, row: Map<Seq<char>, Seq<char>>) -> bool {
    row_decodable(item, ProjectionView::All) && row_record(item, ProjectionView::All) == row
}

/// The place behind the last row of the page that starts at `start`.
pub open spec fn page_end(table: TableView, start: int, page_size: nat) -> int {
    if start + page_size < table.rows.len() {
        start + page_size
    } else {
        table.rows.len() as int
    }
}

/// Whether `reply` answers a request for a page. The page holds the rows
/// from the start that the token gives, as many as fit; it has a token, the
/// key of its last row, where rows are left behind it. The rows come whole,
/// whatever projection the request asks for: a handler projects what it
/// reads, and so reads the same from an engine that projects by itself.
pub open spec fn scan_served(
    engine: EngineView,
    request: ScanRequestView,
    reply: EngineReplyView,
) -> bool {
    if !engine.has_table(request.table_name) {
        reply == EngineReplyView::Failed(engine_failure(Fault::NotFound, request.table_name))
    } else {
        let table = engine.table(request.table_name);
        match table.page_start(request.exclusive_start_key) {
            None => reply == EngineReplyView::Failed(
                engine_failure(Fault::Refused, request.table_name),
            ),
            Some(start) => {
                let end = page_end(table, start, engine.page_size);
                &&& reply matches EngineReplyView::Page(page)
                &&& page.items.len() == end - start
                &&& forall|k: int|
                    0 <= k < end - start ==> holds(#[trigger] page.items[k], table.rows[start + k])
                &&& page.last_evaluated_key == if end < table.rows.len() {
                    Some(table.token_after(table.rows[end - 1]))
                } else {
                    None
                }
            },
        }
    }
}

/// Whether the engine went from `before` to `after` on `call` with `reply`.
pub open spec fn served(
    before: EngineView,
    call: EngineCallView,
    after: EngineView,
    reply: EngineReplyView,
) -> bool {
    match call {
        EngineCallView::CreateTable(request) => (after, reply) == create_served(before, request),
        EngineCallView::DescribeTable(name) => after == before && reply == describe_served(
            before,
            name,
        ),
        EngineCallView::Scan(request) => after == before && scan_served(before, request, reply),
    }
}

/// What the writing of a row does to the engine, and whether it is done.
/// The row must have the table's partition key; it takes the place of the
/// row with the same key, or comes last.
pub open spec fn put_served(
    engine: EngineView,
    name: Seq<char>,
    row: Map<Seq<char>, Seq<char>>,
) -> (EngineView, Result<(), EngineErrorView>) {
    if !engine.has_table(name) {
        (engine, Err(engine_failure(Fault::NotFound, name)))
    } else {
        let table = engine.table(name);
        if !row.contains_key(table.partition_key) {
            (engine, Err(engine_failure(Fault::Refused, name)))
        } else if table.has_key(row[table.partition_key]) {
            (
                engine.with_rows(
                    name,
                    table.rows.update(table.key_index(row[table.partition_key]), row),
                ),
                Ok(()),
            )
        } else {
            (engine.with_rows(name, table.rows.push(row)), Ok(()))
        }
    }
}

/// In a valid engine, a table is found at its place.
pub proof fn lemma_table_at(engine: EngineView, i: int)
    requires
        engine.valid(),
        0 <= i < engine.tables.len(),
    ensures
        engine.has_table(engine.tables[i].name),
        engine.table_index(engine.tables[i].name) == i,
        engine.table(engine.tables[i].name) == engine.tables[i],
{
    let name = engine.tables[i].name;
    assert(engine.has_table(name));
    let j = engine.table_index(name);
    assert(engine.tables[j].name == engine.tables[i].name);
}

/// In a valid table, a row is found at its place by its key.
pub proof fn lemma_row_at(table: TableView, i: int)
    requires
        table.valid(),
        0 <= i < table.rows.len(),
    ensures
        table.has_key(table.rows[i][table.partition_key]),
        table.key_index(table.rows[i][table.partition_key]) == i,
{
    let key = table.rows[i][table.partition_key];
    assert(table.has_key(key));
    let j = table.key_index(key);
    assert(table.rows[j][table.partition_key] == table.rows[i][table.partition_key]);
}

/// The item that holds `record`: its attributes, each a string.
pub fn item_of(record: &Record) -> (item: Item)
    ensures
        holds(views(item@), record@),
{
    let names = record.names();
    let mut item: Vec<Attribute> = Vec::new();
    let mut i: usize = 0;
    while i < names.len()
        invariant
            i <= names@.len(),
            item@.len() == i,
            forall|j: int| 0 <= j < names@.len() ==> record@.contains_key(#[trigger] names@[j]@),
            forall|j: int|
                0 <= j < i ==> (#[trigger] views(item@)[j]) == (AttributeView {
                    name: names@[j]@,
                    value: AttributeValueView::S(record@[names@[j]@]),
                }),
        decreases names@.len() - i,
    {
        let value = record.get(names[i].as_str());
        assert(record@.contains_key(names@[i as int]@));
        let attribute = Attribute {
            name: names[i].clone(),
            value: AttributeValue::S(value.unwrap()),
        };
        let ghost before = views(item@);
        item.push(attribute);
        proof {
            assert(views(item@) =~= before.push(attribute@));
            assert(attribute@.name == names@[i as int]@);
        }
        i += 1;
    }
    proof {
        let row = views(item@);
        assert forall|name: Seq<char>| record@.contains_key(name) implies row_names(
            row,
            name,
        ) by {
            let j = choose|j: int| 0 <= j < names@.len() && #[trigger] names@[j]@ == name;
            assert(row[j].name == name);
        }
        assert forall|name: Seq<char>| row_names(row, name) implies record@.contains_key(
            name,
        ) by {
            let j = choose|j: int| 0 <= j < row.len() && #[trigger] row[j].name == name;
            assert(row[j].name == names@[j]@);
        }
        assert forall|j: int, k: int| 0 <= j < k < row.len() implies row[j].name
            != row[k].name by {
            assert(row[j].name == names@[j]@);
            assert(row[k].name == names@[k]@);
        }
        let decoded = row_record(row, ProjectionView::All);
        assert forall|name: Seq<char>| decoded.contains_key(name) implies decoded[name]
            == record@[name] by {
            let j = choose|j: int| 0 <= j < row.len() && #[trigger] row[j].name == name;
            assert(row[j].name == names@[j]@);
        }
        assert(decoded =~= record@);
    }
    item
}

/// Whether the engine takes a request to create a table.
pub fn accepts(request: &CreateTableRequest) -> (taken: bool)
    ensures
        taken == acceptable(request@),
{
    if request.table_name.as_str().unicode_len() == 0 || request.key_schema.len() != 1
        || request.attribute_definitions.len() != 1 {
        assert(request@.key_schema.len() == 1 ==> definitions_of(
            request@.key_schema[0].attribute_name,
        ).len() == 1);
        return false;
    }
    let key = request.key_schema[0].attribute_name.as_str();
    let hashed = match request.key_schema[0].key_type {
        KeyType::Hash => true,
        KeyType::Range => false,
    };
    let typed = text_eq(request.attribute_definitions[0].attribute_name.as_str(), key)
        && match request.attribute_definitions[0].attribute_type {
        ScalarAttributeType::S => true,
        _ => false,
    };
    proof {
        let schema = request@.key_schema;
        let wanted = key_schema_of(schema[0].attribute_name);
        if hashed {
            assert(schema[0] == wanted[0]);
            assert(schema =~= wanted);
        } else {
            assert(schema[0] != wanted[0]);
        }
        let definitions = request@.attribute_definitions;
        let defined = definitions_of(schema[0].attribute_name);
        if typed {
            assert(definitions[0] == defined[0]);
            assert(definitions =~= defined);
        } else {
            assert(definitions[0] != defined[0]);
        }
    }
    key.unicode_len() > 0 && hashed && typed
}

fn failure(fault: Fault, table: &str) -> (error: EngineError)
    ensures
        error@ == engine_failure(fault, table@),
{
    EngineError { fault, message: table.to_owned() }
}

fn key_position(table: &MemoryTable, key: &str) -> (found: Option<usize>)
    requires
        table@.valid(),
    ensures
        match found {
            Some(i) => i < table@.rows.len() && table@.has_key(key@) && table@.key_index(key@)
                == i,
            None => !table@.has_key(key@),
        },
{
    let mut i: usize = 0;
    while i < table.rows.len()
        invariant
            i <= table.rows@.len(),
            table@.valid(),
            forall|j: int| 0 <= j < i ==> (#[trigger] table@.rows[j])[table@.partition_key] != key@,
        decreases table.rows@.len() - i,
    {
        assert(table@.rows[i as int] == table.rows@[i as int]@);
        let value = table.rows[i].get(table.partition_key.as_str());
        if text_eq(value.unwrap().as_str(), key) {
            proof {
                lemma_row_at(table@, i as int);
            }
            return Some(i);
        }
        i += 1;
    }
    None
}

/// An engine that keeps its tables in memory.
#[derive(Debug)]
pub struct MemoryEngine {
    tables: Vec<MemoryTable>,
    page_size: usize,
}

impl View for MemoryEngine {
    type V = EngineView;

    closed spec fn view(&self) -> EngineView {
        EngineView { tables: views(self.tables@), page_size: self.page_size as nat }
    }
}

impl MemoryEngine {
    #[verifier::type_invariant]
    spec fn well_formed(self) -> bool {
        self@.valid()
    }

    /// An engine without tables that hands out pages of `page_size` rows, or
    /// of one row where `page_size` is 0.
    pub fn new(page_size: usize) -> (engine: MemoryEngine)
        ensures
            engine@.valid(),
            engine@.tables.len() == 0,
            engine@.page_size == if page_size == 0 {
                1
            } else {
                page_size as nat
            },
    {
        let size: usize = if page_size == 0 {
            1
        } else {
            page_size
        };
        MemoryEngine { tables: Vec::new(), page_size: size }
    }

    /// The number of rows that a full page holds; at least one.
    pub fn page_size(&self) -> (size: usize)
        ensures
            size == self@.page_size,
            self@.valid(),
    {
        proof {
            use_type_invariant(self);
        }
        self.page_size
    }

    fn find(&self, name: &str) -> (found: Option<usize>)
        ensures
            self@.valid(),
            match found {
                Some(i) => i < self@.tables.len() && self@.has_table(name@) && self@.table_index(
                    name@,
                ) == i,
                None => !self@.has_table(name@),
            },
    {
        proof {
            use_type_invariant(self);
        }
        let mut i: usize = 0;
        while i < self.tables.len()
            invariant
                i <= self.tables@.len(),
                self@.valid(),
                forall|j: int| 0 <= j < i ==> (#[trigger] self@.tables[j]).name != name@,
            decreases self.tables@.len() - i,
        {
            assert(self@.tables[i as int] == self.tables@[i as int]@);
            if text_eq(self.tables[i].name.as_str(), name) {
                proof {
                    lemma_table_at(self@, i as int);
                }
                return Some(i);
            }
            i += 1;
        }
        None
    }

    /// The number of rows in the table `name`, if there is such a table.
    pub fn row_count(&self, name: &str) -> (count: Option<usize>)
        ensures
            count is Some <==> self@.has_table(name@),
            count is Some ==> count.unwrap() == self@.table(name@).rows.len(),
    {
        match self.find(name) {
            Some(i) => {
                assert(self@.tables[i as int] == self.tables@[i as int]@);
                Some(self.tables[i].rows.len())
            },
            None => None,
        }
    }

    /// Answers a request to create a table.
    pub fn create_table(&mut self, request: &CreateTableRequest) -> (reply: EngineReply)
        ensures
            (final(self)@, reply@) == create_served(old(self)@, request@),
            final(self)@.valid(),
    {
        proof {
            use_type_invariant(&*self);
        }
        if !accepts(request) {
            return EngineReply::Failed(failure(Fault::Refused, request.table_name.as_str()));
        }
        if self.find(request.table_name.as_str()).is_some() {
            return EngineReply::Failed(
                failure(Fault::AlreadyExists, request.table_name.as_str()),
            );
        }
        let table = MemoryTable {
            name: request.table_name.clone(),
            partition_key: request.key_schema[0].attribute_name.clone(),
            rows: Vec::new(),
        };
        let ghost before = self@;
        let mut tables: Vec<MemoryTable> = Vec::new();
        core::mem::swap(&mut tables, &mut self.tables);
        tables.push(table);
        proof {
            let after = before.with_table(
                request@.table_name,
                request@.key_schema[0].attribute_name,
            );
            assert(table@.rows =~= Seq::<Map<Seq<char>, Seq<char>>>::empty());
            assert(views(tables@) =~= after.tables);
            assert forall|i: int, j: int| 0 <= i < j < after.tables.len() implies (
            #[trigger] after.tables[i]).name != (#[trigger] after.tables[j]).name by {
                assert(after.tables[i] == before.tables[i]);
                if j < before.tables.len() {
                    assert(after.tables[j] == before.tables[j]);
                }
            }
            assert forall|i: int| 0 <= i < after.tables.len() implies (
            #[trigger] after.tables[i]).valid() by {
                if i < before.tables.len() {
                    assert(after.tables[i] == before.tables[i]);
                }
            }
        }
        core::mem::swap(&mut tables, &mut self.tables);
        EngineReply::Created
    }

    /// Answers a request for the description of the table `name`.
    pub fn describe_table(&self, name: &str) -> (reply: EngineReply)
        ensures
            reply@ == describe_served(self@, name@),
    {
        match self.find(name) {
            Some(i) => {
                assert(self@.tables[i as int] == self.tables@[i as int]@);
                let table = &self.tables[i];
                let mut key_schema: Vec<KeySchemaElement> = Vec::new();
                key_schema.push(
                    KeySchemaElement {
                        attribute_name: table.partition_key.clone(),
                        key_type: KeyType::Hash,
                    },
                );
                let mut attribute_definitions: Vec<AttributeDefinition> = Vec::new();
                attribute_definitions.push(
                    AttributeDefinition {
                        attribute_name: table.partition_key.clone(),
                        attribute_type: ScalarAttributeType::S,
                    },
                );
                let description = TableDescription {
                    table_name: name.to_owned(),
                    key_schema,
                    attribute_definitions,
                };
                proof {
                    assert(description@.key_schema =~= key_schema_of(table@.partition_key));
                    assert(description@.attribute_definitions =~= definitions_of(
                        table@.partition_key,
                    ));
                }
                EngineReply::Described(description)
            },
            None => EngineReply::Failed(failure(Fault::NotFound, name)),
        }
    }

    /// Answers a request for a page of a table, with whole rows.
    pub fn scan(&self, request: &ScanRequest) -> (reply: EngineReply)
        ensures
            scan_served(self@, request@, reply@),
    {
        let name = request.table_name.as_str();
        let at = match self.find(name) {
            Some(at) => at,
            None => {
                return EngineReply::Failed(failure(Fault::NotFound, name));
            },
        };
        assert(self@.tables[at as int] == self.tables@[at as int]@);
        let table = &self.tables[at];
        let count = table.rows.len();
        let start: usize = match &request.exclusive_start_key {
            None => 0,
            Some(token) => {
                if token.len() != 1 || !text_eq(
                    token[0].name.as_str(),
                    table.partition_key.as_str(),
                ) {
                    return EngineReply::Failed(failure(Fault::Refused, name));
                }
                let found = match &token[0].value {
                    AttributeValue::S(key) => key_position(table, key.as_str()),
                    _ => None,
                };
                match found {
                    Some(i) => {
                        assert(table@.rows.len() == count);
                        i + 1
                    },
                    None => {
                        return EngineReply::Failed(failure(Fault::Refused, name));
                    },
                }
            },
        };
        let end: usize = if self.page_size < count - start {
            start + self.page_size
        } else {
            count
        };
        let mut items: Vec<Item> = Vec::new();
        let mut k: usize = start;
        while k < end
            invariant
                start <= k <= end <= table.rows@.len(),
                items@.len() == k - start,
                forall|m: int|
                    0 <= m < k - start ==> holds(
                        #[trigger] item_views(items@)[m],
                        table@.rows[start + m],
                    ),
            decreases end - k,
        {
            let item = item_of(&table.rows[k]);
            let ghost before = item_views(items@);
            items.push(item);
            proof {
                assert(item_views(items@) =~= before.push(views(item@)));
                assert(table@.rows[k as int] == table.rows@[k as int]@);
            }
            k += 1;
        }
        let last_evaluated_key: Option<Item> = if end < count {
            assert(table@.rows[end - 1] == table.rows@[end - 1]@);
            assert(table@.rows[end - 1].contains_key(table@.partition_key));
            let value = table.rows[end - 1].get(table.partition_key.as_str());
            let mut key: Vec<Attribute> = Vec::new();
            key.push(
                Attribute {
                    name: table.partition_key.clone(),
                    value: AttributeValue::S(value.unwrap()),
                },
            );
            assert(views(key@) =~= table@.token_after(table@.rows[end - 1]));
            Some(key)
        } else {
            None
        };
        EngineReply::Page(ScanPage { items, last_evaluated_key })
    }

    /// Answers a call.
    pub fn serve(&mut self, call: &EngineCall) -> (reply: EngineReply)
        ensures
            served(old(self)@, call@, final(self)@, reply@),
            old(self)@.valid(),
            final(self)@.valid(),
    {
        proof {
            use_type_invariant(&*self);
        }
        match call {
            EngineCall::CreateTable(request) => self.create_table(request),
            EngineCall::DescribeTable(name) => self.describe_table(name.as_str()),
            EngineCall::Scan(request) => self.scan(request),
        }
    }

    /// Writes a row into the table `name`.
    pub fn put(&mut self, name: &str, record: Record) -> (done: Result<(), EngineError>)
        ensures
            final(self)@.valid(),
            final(self)@ == put_served(old(self)@, name@, record@).0,
            match done {
                Ok(()) => put_served(old(self)@, name@, record@).1 == Ok::<(), EngineErrorView>(()),
                Err(error) => put_served(old(self)@, name@, record@).1 == Err::<
                    (),
                    EngineErrorView,
                >(error@),
            },
    {
        let at = match self.find(name) {
            Some(at) => at,
            None => {
                return Err(failure(Fault::NotFound, name));
            },
        };
        let ghost before = self@;
        let ghost old_table = before.tables[at as int];
        assert(self@.tables[at as int] == self.tables@[at as int]@);
        let key = match record.get(self.tables[at].partition_key.as_str()) {
            Some(key) => key,
            None => {
                return Err(failure(Fault::Refused, name));
            },
        };
        let found = key_position(&self.tables[at], key.as_str());
        let mut tables: Vec<MemoryTable> = Vec::new();
        core::mem::swap(&mut tables, &mut self.tables);
        let mut table = tables.remove(at);
        let ghost old_rows = views(table.rows@);
        let mut rows: Vec<Record> = Vec::new();
        core::mem::swap(&mut rows, &mut table.rows);
        match found {
            Some(i) => {
                rows.set(i, record);
                assert(views(rows@) =~= old_rows.update(i as int, record@));
            },
            None => {
                rows.push(record);
                assert(views(rows@) =~= old_rows.push(record@));
            },
        }
        core::mem::swap(&mut rows, &mut table.rows);
        proof {
            let new_rows = views(table.rows@);
            assert(table@ == (TableView {
                name: old_table.name,
                partition_key: old_table.partition_key,
                rows: new_rows,
            }));
            assert(old_table.valid());
            assert forall|i: int| 0 <= i < new_rows.len() implies (
            #[trigger] new_rows[i]).contains_key(old_table.partition_key) by {
                if i < old_rows.len() && !(found is Some && found.unwrap() == i) {
                    assert(new_rows[i] == old_rows[i]);
                }
            }
            assert forall|i: int, j: int| 0 <= i < j < new_rows.len() implies (
            #[trigger] new_rows[i])[old_table.partition_key] != (
            #[trigger] new_rows[j])[old_table.partition_key] by {
                match found {
                    Some(p) => {
                        assert(old_rows[p as int][old_table.partition_key] == key@);
                        assert(new_rows[i][old_table.partition_key]
                            == old_rows[i][old_table.partition_key]);
                        assert(new_rows[j][old_table.partition_key]
                            == old_rows[j][old_table.partition_key]);
                    },
                    None => {
                        assert(new_rows[i] == old_rows[i]);
                        if j < old_rows.len() {
                            assert(new_rows[j] == old_rows[j]);
                        } else {
                            assert(old_rows[i][old_table.partition_key] != key@);
                        }
                    },
                }
            }
            assert(table@.valid());
        }
        let ghost new_table = table@;
        tables.insert(at, table);
        proof {
            let after = views(tables@);
            assert(after =~= before.tables.update(at as int, new_table));
            assert forall|i: int| 0 <= i < after.len() implies (#[trigger] after[i]).valid() by {
                if i != at {
                    assert(after[i] == before.tables[i]);
                }
            }
            assert forall|i: int, j: int| 0 <= i < j < after.len() implies (
            #[trigger] after[i]).name != (#[trigger] after[j]).name by {
                assert(after[i].name == before.tables[i].name);
                assert(after[j].name == before.tables[j].name);
            }
        }
        core::mem::swap(&mut tables, &mut self.tables);
        Ok(())
    }
}

} // verus!
