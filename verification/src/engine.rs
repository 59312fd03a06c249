//! The backing engine's protocol as plain values: the calls that a handler
//! asks for and the replies that it takes.

use crate::text::{text_view, views};
use vstd::prelude::*;

verus! {

/// The role of an attribute in a table's key.
#[derive(Clone, Copy, PartialEq, Eq, Debug, Structural)]
pub enum KeyType {
    Hash,
    Range,
}

/// The scalar types that a key attribute can have.
#[derive(Clone, Copy, PartialEq, Eq, Debug, Structural)]
pub enum ScalarAttributeType {
    S,
    N,
    B,
}

/// One element of a table's key schema.
#[derive(Clone, Debug, PartialEq, Eq)]
pub struct KeySchemaElement {
    pub attribute_name: String,
    pub key_type: KeyType,
}

pub struct KeySchemaElementView {
    pub attribute_name: Seq<char>,
    pub key_type: KeyType,
}

impl View for KeySchemaElement {
    type V = KeySchemaElementView;

    open spec fn view(&self) -> KeySchemaElementView {
        KeySchemaElementView { attribute_name: self.attribute_name@, key_type: self.key_type }
    }
}

/// The type of one attribute that a table's key names.
#[derive(Clone, Debug, PartialEq, Eq)]
pub struct AttributeDefinition {
    pub attribute_name: String,
    pub attribute_type: ScalarAttributeType,
}

pub struct AttributeDefinitionView {
    pub attribute_name: Seq<char>,
    pub attribute_type: ScalarAttributeType,
}

impl View for AttributeDefinition {
    type V = AttributeDefinitionView;

    open spec fn view(&self) -> AttributeDefinitionView {
        AttributeDefinitionView {
            attribute_name: self.attribute_name@,
            attribute_type: self.attribute_type,
        }
    }
}

/// The capacity hint that goes with a table's creation.
#[derive(Clone, Copy, PartialEq, Eq, Debug, Structural)]
pub struct ProvisionedThroughput {
    pub read_capacity_units: i64,
    pub write_capacity_units: i64,
}

/// The call that creates a table.
#[derive(Clone, Debug, PartialEq, Eq)]
pub struct CreateTableRequest {
    pub table_name: String,
    pub key_schema: Vec<KeySchemaElement>,
    pub attribute_definitions: Vec<AttributeDefinition>,
    pub provisioned_throughput: ProvisionedThroughput,
}

pub struct CreateTableRequestView {
    pub table_name: Seq<char>,
    pub key_schema: Seq<KeySchemaElementView>,
    pub attribute_definitions: Seq<AttributeDefinitionView>,
    pub provisioned_throughput: ProvisionedThroughput,
}

impl View for CreateTableRequest {
    type V = CreateTableRequestView;

    open spec fn view(&self) -> CreateTableRequestView {
        CreateTableRequestView {
            table_name: self.table_name@,
            key_schema: views(self.key_schema@),
            attribute_definitions: views(self.attribute_definitions@),
            provisioned_throughput: self.provisioned_throughput,
        }
    }
}

/// What the engine tells of a table that exists.
#[derive(Clone, Debug, PartialEq, Eq)]
pub struct TableDescription {
    pub table_name: String,
    pub key_schema: Vec<KeySchemaElement>,
    pub attribute_definitions: Vec<AttributeDefinition>,
}

pub struct TableDescriptionView {
    pub table_name: Seq<char>,
    pub key_schema: Seq<KeySchemaElementView>,
    pub attribute_definitions: Seq<AttributeDefinitionView>,
}

impl View for TableDescription {
    type V = TableDescriptionView;

    open spec fn view(&self) -> TableDescriptionView {
        TableDescriptionView {
            table_name: self.table_name@,
            key_schema: views(self.key_schema@),
            attribute_definitions: views(self.attribute_definitions@),
        }
    }
}

/// The value of one attribute as the engine hands it out.
#[derive(Clone, Debug, PartialEq, Eq)]
pub enum AttributeValue {
    /// A string.
    S(String),
    /// A number, in decimal notation.
    N(String),
    /// Bytes.
    B(Vec<u8>),
    /// A truth value.
    Bool(bool),
    /// The null value.
    Null,
    /// A list, a map or a set.
    Composite,
}

pub enum AttributeValueView {
    S(Seq<char>),
    N(Seq<char>),
    B(Seq<u8>),
    Bool(bool),
    Null,
    Composite,
}

impl View for AttributeValue {
    type V = AttributeValueView;

    open spec fn view(&self) -> AttributeValueView {
        match self {
            AttributeValue::S(text) => AttributeValueView::S(text@),
            AttributeValue::N(digits) => AttributeValueView::N(digits@),
            AttributeValue::B(bytes) => AttributeValueView::B(bytes@),
            AttributeValue::Bool(b) => AttributeValueView::Bool(*b),
            AttributeValue::Null => AttributeValueView::Null,
            AttributeValue::Composite => AttributeValueView::Composite,
        }
    }
}

/// One attribute of an item: its name and its value.
#[derive(Clone, Debug, PartialEq, Eq)]
pub struct Attribute {
    pub name: String,
    pub value: AttributeValue,
}

pub struct AttributeView {
    pub name: Seq<char>,
    pub value: AttributeValueView,
}

impl View for Attribute {
    type V = AttributeView;

    open spec fn view(&self) -> AttributeView {
        AttributeView { name: self.name@, value: self.value@ }
    }
}

/// An item: the attributes of one row, or of one key.
pub type Item = Vec<Attribute>;

/// An item as a value of the specification.
pub type ItemView = Seq<AttributeView>;

/// The items of a page as values of the specification.
pub open spec fn item_views(items: Seq<Item>) -> Seq<ItemView> {
    items.map_values(|item: Item| views(item@))
}

/// A continuation token as a value of the specification.
pub open spec fn token_view(token: Option<Item>) -> Option<ItemView> {
    match token {
        Some(key) => Some(views(key@)),
        None => None,
    }
}

/// The call that reads one page of a table.
#[derive(Clone, Debug, PartialEq, Eq)]
pub struct ScanRequest {
    pub table_name: String,
    pub projection_expression: Option<String>,
    pub exclusive_start_key: Option<Item>,
}

pub struct ScanRequestView {
    pub table_name: Seq<char>,
    pub projection_expression: Option<Seq<char>>,
    pub exclusive_start_key: Option<ItemView>,
}

impl View for ScanRequest {
    type V = ScanRequestView;

    open spec fn view(&self) -> ScanRequestView {
        ScanRequestView {
            table_name: self.table_name@,
            projection_expression: text_view(self.projection_expression),
            exclusive_start_key: token_view(self.exclusive_start_key),
        }
    }
}

/// One page of a table's rows. Where the page is not the last,
/// `last_evaluated_key` is the token that asks for the next.
#[derive(Clone, Debug, PartialEq, Eq)]
pub struct ScanPage {
    pub items: Vec<Item>,
    pub last_evaluated_key: Option<Item>,
}

pub struct ScanPageView {
    pub items: Seq<ItemView>,
    pub last_evaluated_key: Option<ItemView>,
}

impl View for ScanPage {
    type V = ScanPageView;

    open spec fn view(&self) -> ScanPageView {
        ScanPageView {
            items: item_views(self.items@),
            last_evaluated_key: token_view(self.last_evaluated_key),
        }
    }
}

/// Why a call against the engine failed.
#[derive(Clone, Copy, PartialEq, Eq, Debug, Structural)]
pub enum Fault {
    /// The table to create exists already.
    AlreadyExists,
    /// The table that the call names does not exist.
    NotFound,
    /// The engine did not answer in time.
    Timeout,
    /// The call did not reach the engine, or its answer did not arrive.
    Transport,
    /// The engine's answer could not be read.
    Malformed,
    /// The engine refused the call for another reason.
    Refused,
}

/// A failed call: the reason and the engine's own words.
#[derive(Clone, Debug, PartialEq, Eq)]
pub struct EngineError {
    pub fault: Fault,
    pub message: String,
}

pub struct EngineErrorView {
    pub fault: Fault,
    pub message: Seq<char>,
}

impl View for EngineError {
    type V = EngineErrorView;

    open spec fn view(&self) -> EngineErrorView {
        EngineErrorView { fault: self.fault, message: self.message@ }
    }
}

/// A call to make against the engine.
#[derive(Clone, Debug, PartialEq, Eq)]
pub enum EngineCall {
    CreateTable(CreateTableRequest),
    /// Asks for the description of the table of this name.
    DescribeTable(String),
    Scan(ScanRequest),
}

pub enum EngineCallView {
    CreateTable(CreateTableRequestView),
    DescribeTable(Seq<char>),
    Scan(ScanRequestView),
}

impl View for EngineCall {
    type V = EngineCallView;

    open spec fn view(&self) -> EngineCallView {
        match self {
            EngineCall::CreateTable(request) => EngineCallView::CreateTable(request@),
            EngineCall::DescribeTable(name) => EngineCallView::DescribeTable(name@),
            EngineCall::Scan(request) => EngineCallView::Scan(request@),
        }
    }
}

/// What came back from a call.
#[derive(Clone, Debug, PartialEq, Eq)]
pub enum EngineReply {
    /// The table was created.
    Created,
    Described(TableDescription),
    Page(ScanPage),
    Failed(EngineError),
}

pub enum EngineReplyView {
    Created,
    Described(TableDescriptionView),
    Page(ScanPageView),
    Failed(EngineErrorView),
}

impl View for EngineReply {
    type V = EngineReplyView;

    open spec fn view(&self) -> EngineReplyView {
        match self {
            EngineReply::Created => EngineReplyView::Created,
            EngineReply::Described(description) => EngineReplyView::Described(description@),
            EngineReply::Page(page) => EngineReplyView::Page(page@),
            EngineReply::Failed(error) => EngineReplyView::Failed(error@),
        }
    }
}

} // verus!
