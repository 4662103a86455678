//! The record model: the typed values the concrete formats serialize.
//!
//! A record is an ordered list of named, typed fields.  Concrete
//! application types convert to and from records, so one verified codec
//! per format serves every record shape.

use vstd::prelude::*;

verus! {

/// One typed field value of a record.
#[derive(Debug, Clone, PartialEq)]
pub enum FieldValue {
    /// An unsigned 64-bit integer.
    U64(u64),
    /// A signed 64-bit integer.
    I64(i64),
    /// A boolean.
    Bool(bool),
    /// A unicode string.
    Text(String),
    /// A list of unicode strings.
    List(Vec<String>),
}

/// Spec-level mirror of `FieldValue`, with strings as character
/// sequences.
pub enum FieldV {
    U64(u64),
    I64(i64),
    Bool(bool),
    Text(Seq<char>),
    List(Seq<Seq<char>>),
}

impl View for FieldValue {
    type V = FieldV;

    open spec fn view(&self) -> FieldV {
        match self {
            FieldValue::U64(x) => FieldV::U64(*x),
            FieldValue::I64(x) => FieldV::I64(*x),
            FieldValue::Bool(b) => FieldV::Bool(*b),
            FieldValue::Text(s) => FieldV::Text(s@),
            FieldValue::List(l) => FieldV::List(l@.map_values(|s: String| s@)),
        }
    }
}

/// The kind of a field: which type of value it holds.
#[derive(Debug, Clone, Copy, PartialEq, Eq, Structural)]
pub enum FieldKind {
    /// An unsigned 64-bit integer.
    U64,
    /// A signed 64-bit integer.
    I64,
    /// A boolean.
    Bool,
    /// A unicode string.
    Text,
    /// A list of unicode strings.
    List,
}

/// The kind of a field value.
pub open spec fn kind_of(v: FieldV) -> FieldKind {
    match v {
        FieldV::U64(_) => FieldKind::U64,
        FieldV::I64(_) => FieldKind::I64,
        FieldV::Bool(_) => FieldKind::Bool,
        FieldV::Text(_) => FieldKind::Text,
        FieldV::List(_) => FieldKind::List,
    }
}

/// A record: an ordered list of named, typed field values.
#[derive(Debug, Clone, PartialEq)]
pub struct Record {
    /// The fields, in order: name and value.
    pub fields: Vec<(String, FieldValue)>,
}

/// Spec-level view of a record: named field values, in order.
pub type RecordV = Seq<(Seq<char>, FieldV)>;

impl View for Record {
    type V = RecordV;

    open spec fn view(&self) -> RecordV {
        self.fields@.map_values(|p: (String, FieldValue)| (p.0@, p.1@))
    }
}

impl Record {
    /// A record with no fields yet.
    pub fn new() -> (r: Self)
        ensures
            r@.len() == 0,
    {
        Record { fields: Vec::new() }
    }

    /// Append a named field value.
    pub fn push_field(&mut self, name: &str, value: FieldValue)
        ensures
            final(self)@ == old(self)@.push((name@, value@)),
    {
        self.fields.push((name.to_owned(), value));
        proof {
            assert(final(self)@ =~= old(self)@.push((name@, value@)));
        }
    }

    /// How many fields the record holds.
    pub fn len(&self) -> (r: usize)
        ensures
            r == self@.len(),
    {
        self.fields.len()
    }
}

/// A schema: the ordered, named field kinds a record must match.
#[derive(Debug, Clone, PartialEq)]
pub struct Schema {
    /// The fields, in order: name and kind.
    pub fields: Vec<(String, FieldKind)>,
}

/// Spec-level view of a schema.
pub type SchemaV = Seq<(Seq<char>, FieldKind)>;

impl View for Schema {
    type V = SchemaV;

    open spec fn view(&self) -> SchemaV {
        self.fields@.map_values(|p: (String, FieldKind)| (p.0@, p.1))
    }
}

impl Schema {
    /// A schema with no fields yet.
    pub fn new() -> (r: Self)
        ensures
            r@.len() == 0,
    {
        Schema { fields: Vec::new() }
    }

    /// Append a named field kind.
    pub fn push_field(&mut self, name: &str, kind: FieldKind)
        ensures
            final(self)@ == old(self)@.push((name@, kind)),
    {
        self.fields.push((name.to_owned(), kind));
        proof {
            assert(final(self)@ =~= old(self)@.push((name@, kind)));
        }
    }
}

/// Whether a record has exactly the field names and kinds of a schema.
pub open spec fn record_matches(schema: SchemaV, rec: RecordV) -> bool {
    &&& rec.len() == schema.len()
    &&& forall|i: int|
        0 <= i < rec.len() ==> rec[i].0 == schema[i].0 && kind_of(#[trigger] rec[i].1)
            == schema[i].1
}

} // verus!
