//! The request decoder: from an invocation payload to a typed command.

use crate::model::Field;
use crate::projection::{all_named, listed_names, Projection, ProjectionView};
use crate::text::{text_eq, text_view, views, without_repeats};
use vstd::prelude::*;

verus! {

/// A value of an invocation payload. The decoder reads strings only.
#[derive(Clone, Debug, PartialEq, Eq)]
pub enum PayloadValue {
    /// A string.
    Text(String),
    /// The null value.
    Null,
    /// A number, a truth value, a list or an object.
    Other,
}

pub enum PayloadValueView {
    Text(Seq<char>),
    Null,
    Other,
}

impl View for PayloadValue {
    type V = PayloadValueView;

    open spec fn view(&self) -> PayloadValueView {
        match self {
            PayloadValue::Text(text) => PayloadValueView::Text(text@),
            PayloadValue::Null => PayloadValueView::Null,
            PayloadValue::Other => PayloadValueView::Other,
        }
    }
}

/// One member of an invocation payload.
#[derive(Clone, Debug, PartialEq, Eq)]
pub struct PayloadField {
    pub key: String,
    pub value: PayloadValue,
}

pub struct PayloadFieldView {
    pub key: Seq<char>,
    pub value: PayloadValueView,
}

impl View for PayloadField {
    type V = PayloadFieldView;

    open spec fn view(&self) -> PayloadFieldView {
        PayloadFieldView { key: self.key@, value: self.value@ }
    }
}

/// The mapping that a list of members stands for. Where a key stands twice,
/// the later member counts.
pub open spec fn members(fields: Seq<PayloadFieldView>) -> Map<Seq<char>, PayloadValueView>
    decreases fields.len(),
{
    if fields.len() == 0 {
        Map::empty()
    } else {
        members(fields.drop_last()).insert(fields.last().key, fields.last().value)
    }
}

/// An invocation payload: a mapping from keys to values, written as the list
/// of its members.
#[derive(Clone, Debug, PartialEq, Eq)]
pub struct Payload {
    pub fields: Vec<PayloadField>,
}

impl View for Payload {
    type V = Map<Seq<char>, PayloadValueView>;

    open spec fn view(&self) -> Map<Seq<char>, PayloadValueView> {
        members(views(self.fields@))
    }
}

/// A key that no member from `from` on carries is looked up among the
/// members before `from`.
pub proof fn lemma_members_tail(fields: Seq<PayloadFieldView>, from: int, key: Seq<char>)
    requires
        0 <= from <= fields.len(),
        forall|j: int| from <= j < fields.len() ==> (#[trigger] fields[j]).key != key,
    ensures
        members(fields).contains_key(key) == members(fields.take(from)).contains_key(key),
        members(fields).contains_key(key) ==> members(fields)[key] == members(
            fields.take(from),
        )[key],
    decreases fields.len() - from,
{
    if from == fields.len() {
        assert(fields.take(from) =~= fields);
    } else {
        let shorter = fields.drop_last();
        assert(fields.last() == fields[fields.len() - 1]);
        assert forall|j: int| from <= j < shorter.len() implies (#[trigger] shorter[j]).key
            != key by {
            assert(shorter[j] == fields[j]);
        }
        lemma_members_tail(shorter, from, key);
        assert(shorter.take(from) =~= fields.take(from));
    }
}

impl Payload {
    /// The payload without members.
    pub fn new() -> (payload: Payload)
        ensures
            payload@ == Map::<Seq<char>, PayloadValueView>::empty(),
    {
        let payload = Payload { fields: Vec::new() };
        assert(views(payload.fields@) =~= Seq::<PayloadFieldView>::empty());
        payload
    }

    /// Sets `key` to `value`.
    pub fn set(&mut self, key: String, value: PayloadValue)
        ensures
            final(self)@ == old(self)@.insert(key@, value@),
    {
        let ghost before = views(self.fields@);
        let field = PayloadField { key, value };
        self.fields.push(field);
        proof {
            let after = views(self.fields@);
            assert(after =~= before.push(field@));
            assert(after.drop_last() =~= before);
        }
    }

    /// The string under `key`, where the payload has a non-empty one there.
    pub fn text(&self, key: &str) -> (text: Option<String>)
        ensures
            text_view(text) == text_of(self@, key@),
    {
        let mut i: usize = self.fields.len();
        while i > 0
            invariant
                i <= self.fields@.len(),
                forall|j: int|
                    i <= j < self.fields@.len() ==> (#[trigger] views(self.fields@)[j]).key
                        != key@,
            decreases i,
        {
            i -= 1;
            if text_eq(self.fields[i].key.as_str(), key) {
                proof {
                    let fields = views(self.fields@);
                    lemma_members_tail(fields, i + 1, key@);
                    let upto = fields.take(i + 1);
                    assert(upto.last() == fields[i as int]);
                    assert(members(upto) == members(upto.drop_last()).insert(
                        upto.last().key,
                        upto.last().value,
                    ));
                }
                return match &self.fields[i].value {
                    PayloadValue::Text(text) => {
                        if text.as_str().unicode_len() > 0 {
                            Some(text.clone())
                        } else {
                            None
                        }
                    },
                    _ => None,
                };
            }
        }
        proof {
            let fields = views(self.fields@);
            lemma_members_tail(fields, 0, key@);
            assert(fields.take(0) =~= Seq::<PayloadFieldView>::empty());
        }
        None
    }

    /// Whether the payload has a member `key` that is not null.
    pub fn has(&self, key: &str) -> (present: bool)
        ensures
            present == given(self@, key@),
    {
        let mut i: usize = self.fields.len();
        while i > 0
            invariant
                i <= self.fields@.len(),
                forall|j: int|
                    i <= j < self.fields@.len() ==> (#[trigger] views(self.fields@)[j]).key
                        != key@,
            decreases i,
        {
            i -= 1;
            if text_eq(self.fields[i].key.as_str(), key) {
                proof {
                    let fields = views(self.fields@);
                    lemma_members_tail(fields, i + 1, key@);
                    let upto = fields.take(i + 1);
                    assert(upto.last() == fields[i as int]);
                    assert(members(upto) == members(upto.drop_last()).insert(
                        upto.last().key,
                        upto.last().value,
                    ));
                }
                return match &self.fields[i].value {
                    PayloadValue::Null => false,
                    _ => true,
                };
            }
        }
        proof {
            let fields = views(self.fields@);
            lemma_members_tail(fields, 0, key@);
            assert(fields.take(0) =~= Seq::<PayloadFieldView>::empty());
        }
        false
    }
}

/// The non-empty string that `payload` has under `key`, if it has one.
pub open spec fn text_of(payload: Map<Seq<char>, PayloadValueView>, key: Seq<char>) -> Option<
    Seq<char>,
> {
    if payload.contains_key(key) {
        match payload[key] {
            PayloadValueView::Text(text) => if text.len() > 0 {
                Some(text)
            } else {
                None
            },
            _ => None,
        }
    } else {
        None
    }
}

/// Whether `payload` has a member `key` that is not null.
pub open spec fn given(payload: Map<Seq<char>, PayloadValueView>, key: Seq<char>) -> bool {
    payload.contains_key(key) && !(payload[key] is Null)
}

/// A command as a handler understands it.
#[derive(Clone, Debug, PartialEq)]
pub enum Command {
    /// Create the table `table_name` with the partition key `key_name`.
    CreateTable { table_name: String, key_name: String },
    /// Read every row of `table_name`, each under `projection`.
    ReadAll { table_name: String, projection: Projection },
}

pub enum CommandView {
    CreateTable { table_name: Seq<char>, key_name: Seq<char> },
    ReadAll { table_name: Seq<char>, projection: ProjectionView },
}

impl View for Command {
    type V = CommandView;

    open spec fn view(&self) -> CommandView {
        match self {
            Command::CreateTable { table_name, key_name } => CommandView::CreateTable {
                table_name: table_name@,
                key_name: key_name@,
            },
            Command::ReadAll { table_name, projection } => CommandView::ReadAll {
                table_name: table_name@,
                projection: projection@,
            },
        }
    }
}

/// A payload that no command can be read from: the field that is missing,
/// empty or of the wrong form.
#[derive(Clone, Copy, PartialEq, Eq, Debug, Structural)]
pub struct MalformedRequest {
    pub field: Field,
}

/// The create command that a payload holds, or the first field that is not
/// a non-empty string.
pub open spec fn create_command(payload: Map<Seq<char>, PayloadValueView>) -> Result<
    CommandView,
    MalformedRequest,
> {
    match text_of(payload, Field::TableName.key()) {
        None => Err(MalformedRequest { field: Field::TableName }),
        Some(table_name) => match text_of(payload, Field::KeyName.key()) {
            None => Err(MalformedRequest { field: Field::KeyName }),
            Some(key_name) => Ok(CommandView::CreateTable { table_name, key_name }),
        },
    }
}

/// The projection that a payload asks for: every attribute where it gives
/// none, else the names that its list gives.
pub open spec fn projection_of(payload: Map<Seq<char>, PayloadValueView>) -> Option<
    ProjectionView,
> {
    if !given(payload, Field::Projection.key()) {
        Some(ProjectionView::All)
    } else {
        match payload[Field::Projection.key()] {
            PayloadValueView::Text(list) => if all_named(listed_names(list)) {
                Some(ProjectionView::Only(without_repeats(listed_names(list))))
            } else {
                None
            },
            _ => None,
        }
    }
}

/// The read command that a payload holds, or the first field that is not
/// as it has to be.
pub open spec fn read_command(payload: Map<Seq<char>, PayloadValueView>) -> Result<
    CommandView,
    MalformedRequest,
> {
    match text_of(payload, Field::TableName.key()) {
        None => Err(MalformedRequest { field: Field::TableName }),
        Some(table_name) => match projection_of(payload) {
            None => Err(MalformedRequest { field: Field::Projection }),
            Some(projection) => Ok(CommandView::ReadAll { table_name, projection }),
        },
    }
}

/// A decoder's result as a value of the specification.
pub open spec fn decoded_view(decoded: Result<Command, MalformedRequest>) -> Result<
    CommandView,
    MalformedRequest,
> {
    match decoded {
        Ok(command) => Ok(command@),
        Err(malformed) => Err(malformed),
    }
}

/// Reads a create command: `table_name` and `key_name`, both non-empty
/// strings.
pub fn decode_create(payload: &Payload) -> (decoded: Result<Command, MalformedRequest>)
    ensures
        decoded_view(decoded) == create_command(payload@),
{
    let table_name = match payload.text("table_name") {
        Some(text) => text,
        None => {
            return Err(MalformedRequest { field: Field::TableName });
        },
    };
    let key_name = match payload.text("key_name") {
        Some(text) => text,
        None => {
            return Err(MalformedRequest { field: Field::KeyName });
        },
    };
    Ok(Command::CreateTable { table_name, key_name })
}

/// Reads a read command: `table_name`, a non-empty string, and optionally
/// `projection`, a comma-separated list of attribute names. Without
/// `projection` the command asks for every attribute.
pub fn decode_read(payload: &Payload) -> (decoded: Result<Command, MalformedRequest>)
    ensures
        decoded_view(decoded) == read_command(payload@),
{
    let table_name = match payload.text("table_name") {
        Some(text) => text,
        None => {
            return Err(MalformedRequest { field: Field::TableName });
        },
    };
    if !payload.has("projection") {
        return Ok(Command::ReadAll { table_name, projection: Projection::All });
    }
    let parsed = match payload.text("projection") {
        Some(list) => Projection::parse(list.as_str()),
        None => {
            proof {
                // An empty list names nothing.
                let key = Field::Projection.key();
                if payload@[key] is Text {
                    let list = payload@[key]->Text_0;
                    assert(list.len() == 0);
                    crate::projection::lemma_empty_list(list);
                }
            }
            None
        },
    };
    match parsed {
        Some(projection) => Ok(Command::ReadAll { table_name, projection }),
        None => Err(MalformedRequest { field: Field::Projection }),
    }
}

} // verus!
