//! The data that handlers speak of: table specifications and error kinds.

use vstd::prelude::*;

verus! {

/// A table as a caller asks for it: its name and its partition key, the
/// single hash-type attribute. Neither is empty.
#[derive(Debug, PartialEq, Eq)]
pub struct TableSpec {
    name: String,
    partition_key: String,
}

/// A table specification as a value of the specification.
pub struct TableSpecView {
    pub name: Seq<char>,
    pub partition_key: Seq<char>,
}

impl TableSpecView {
    /// Whether both names are non-empty.
    pub open spec fn valid(self) -> bool {
        self.name.len() > 0 && self.partition_key.len() > 0
    }
}

impl View for TableSpec {
    type V = TableSpecView;

    closed spec fn view(&self) -> TableSpecView {
        TableSpecView { name: self.name@, partition_key: self.partition_key@ }
    }
}

impl TableSpec {
    #[verifier::type_invariant]
    spec fn well_formed(self) -> bool {
        self.name@.len() > 0 && self.partition_key@.len() > 0
    }

    /// The specification of a table `name` with partition key
    /// `partition_key`, unless one of the two is empty.
    pub fn new(name: String, partition_key: String) -> (spec: Option<TableSpec>)
        ensures
            spec is Some <==> name@.len() > 0 && partition_key@.len() > 0,
            spec is Some ==> spec.unwrap()@ == (TableSpecView {
                name: name@,
                partition_key: partition_key@,
            }),
    {
        if name.as_str().unicode_len() == 0 || partition_key.as_str().unicode_len() == 0 {
            None
        } else {
            Some(TableSpec { name, partition_key })
        }
    }

    /// The table's name.
    pub fn name(&self) -> (name: &str)
        ensures
            name@ == self@.name,
            self@.valid(),
    {
        proof {
            use_type_invariant(self);
        }
        self.name.as_str()
    }

    /// The name of the table's partition key.
    pub fn partition_key(&self) -> (key: &str)
        ensures
            key@ == self@.partition_key,
            self@.valid(),
    {
        proof {
            use_type_invariant(self);
        }
        self.partition_key.as_str()
    }
}

impl Clone for TableSpec {
    fn clone(&self) -> (copy: TableSpec)
        ensures
            copy@ == self@,
    {
        proof {
            use_type_invariant(self);
        }
        TableSpec { name: self.name.clone(), partition_key: self.partition_key.clone() }
    }
}

/// The fields of an invocation payload that a handler reads.
#[derive(Clone, Copy, PartialEq, Eq, Debug, Structural)]
pub enum Field {
    TableName,
    KeyName,
    Projection,
}

impl Field {
    /// The key under which the field stands in a payload.
    pub open spec fn key(self) -> Seq<char> {
        match self {
            Field::TableName => "table_name"@,
            Field::KeyName => "key_name"@,
            Field::Projection => "projection"@,
        }
    }

    /// The key under which the field stands in a payload.
    pub fn name(self) -> (name: String)
        ensures
            name@ == self.key(),
    {
        match self {
            Field::TableName => "table_name".to_owned(),
            Field::KeyName => "key_name".to_owned(),
            Field::Projection => "projection".to_owned(),
        }
    }
}

/// The kinds of failure that an outcome can report.
#[derive(Clone, Copy, PartialEq, Eq, Debug, Structural)]
pub enum ErrorKind {
    /// The caller's input is invalid.
    MalformedRequest,
    /// The table exists with another specification.
    ConflictError,
    /// The table that was to be read does not exist.
    NotFound,
    /// The backing engine could not be reached or did not serve the call.
    StoreUnavailable,
    /// The backing engine answered with data that cannot be interpreted.
    DecodeError,
    /// The table is larger than the limits of the read allow.
    LimitExceeded,
}

impl ErrorKind {
    /// The kind's name as it is written in an error response.
    pub open spec fn label(self) -> Seq<char> {
        match self {
            ErrorKind::MalformedRequest => "MalformedRequest"@,
            ErrorKind::ConflictError => "ConflictError"@,
            ErrorKind::NotFound => "NotFound"@,
            ErrorKind::StoreUnavailable => "StoreUnavailable"@,
            ErrorKind::DecodeError => "DecodeError"@,
            ErrorKind::LimitExceeded => "LimitExceeded"@,
        }
    }

    /// The kind's name as it is written in an error response.
    pub fn name(self) -> (name: String)
        ensures
            name@ == self.label(),
    {
        match self {
            ErrorKind::MalformedRequest => "MalformedRequest".to_owned(),
            ErrorKind::ConflictError => "ConflictError".to_owned(),
            ErrorKind::NotFound => "NotFound".to_owned(),
            ErrorKind::StoreUnavailable => "StoreUnavailable".to_owned(),
            ErrorKind::DecodeError => "DecodeError".to_owned(),
            ErrorKind::LimitExceeded => "LimitExceeded".to_owned(),
        }
    }

    /// Whether the failure lies with the caller's input or with the state
    /// that the caller meets, as a client error of a request does, and not
    /// with the store.
    pub fn is_client_error(self) -> (client: bool)
        ensures
            client == (self == ErrorKind::MalformedRequest || self == ErrorKind::ConflictError
                || self == ErrorKind::NotFound),
    {
        match self {
            ErrorKind::MalformedRequest => true,
            ErrorKind::ConflictError => true,
            ErrorKind::NotFound => true,
            _ => false,
        }
    }

    /// Whether a caller may try the same invocation again later.
    pub fn retryable(self) -> (retry: bool)
        ensures
            retry == (self == ErrorKind::StoreUnavailable),
    {
        match self {
            ErrorKind::StoreUnavailable => true,
            _ => false,
        }
    }
}

} // verus!
