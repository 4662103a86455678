//! Core serialization traits: key encodings and value serializers.
//!
//! Key encodings must round-trip exactly: decoding the bytes produced for
//! a key yields that key again.  Value serializers state the same over
//! their own encodings, partial formats excepted.

use vstd::prelude::*;
use vstd::string::StringSliceAdditionalSpecFns;
use vstd::string::StrSliceExecFns;
use vstd::utf8::{valid_utf8, encode_utf8, encode_utf8_valid_utf8, encode_utf8_decode_utf8};
use crate::storage::error::StorageError;
use crate::storage::json;
use crate::storage::record::{kind_of, record_matches, FieldKind, FieldValue, Record, Schema};

verus! {

/// Relies on std's `str::from_utf8`: it succeeds exactly on valid UTF-8
/// bytes and views the same bytes as a string slice.
#[verifier::external_body]
pub(crate) fn str_from_utf8(bytes: &[u8]) -> (r: Option<&str>)
    ensures
        r is Some <==> valid_utf8(bytes@),
        r is Some ==> r->0.spec_bytes() == bytes@,
{
    core::str::from_utf8(bytes).ok()
}

/// Key serialization: a total byte encoding of the key.
pub trait IntoKeyBytes {
    /// The byte encoding of this key.
    spec fn spec_key_bytes(&self) -> Seq<u8>;

    /// Serialize the key to bytes.
    fn into_key_bytes(&self) -> (r: Vec<u8>)
        ensures
            r@ == self.spec_key_bytes(),
    ;
}

/// Key deserialization: recognizes well-formed encodings and says which
/// key they stand for.
pub trait FromKeyBytes: Sized {
    /// Whether `bytes` is a well-formed key encoding.
    spec fn key_decodable(bytes: Seq<u8>) -> bool;

    /// Whether `bytes` is the encoding of key `k`.
    spec fn key_decodes_to(bytes: Seq<u8>, k: Self) -> bool;

    /// Deserialize a key from bytes; fails exactly on bytes that encode
    /// no key.
    fn from_key_bytes(bytes: &[u8]) -> (r: Result<Self, StorageError>)
        ensures
            r is Ok <==> Self::key_decodable(bytes@),
            r is Ok ==> Self::key_decodes_to(bytes@, r->Ok_0),
    ;
}

impl IntoKeyBytes for u64 {
    /// Fixed-width little-endian encoding.
    open spec fn spec_key_bytes(&self) -> Seq<u8> {
        vstd::bytes::spec_u64_to_le_bytes(*self)
    }

    fn into_key_bytes(&self) -> (r: Vec<u8>) {
        vstd::bytes::u64_to_le_bytes(*self)
    }
}

impl FromKeyBytes for u64 {
    open spec fn key_decodable(bytes: Seq<u8>) -> bool {
        bytes.len() == 8
    }

    open spec fn key_decodes_to(bytes: Seq<u8>, k: Self) -> bool {
        bytes.len() == 8 && k == vstd::bytes::spec_u64_from_le_bytes(bytes)
    }

    fn from_key_bytes(bytes: &[u8]) -> (r: Result<Self, StorageError>) {
        if bytes.len() == 8 {
            Ok(vstd::bytes::u64_from_le_bytes(bytes))
        } else {
            Err(StorageError::Deserialization("Invalid u64 key length".to_owned()))
        }
    }
}

impl IntoKeyBytes for String {
    /// The string's UTF-8 bytes.
    open spec fn spec_key_bytes(&self) -> Seq<u8> {
        encode_utf8(self@)
    }

    fn into_key_bytes(&self) -> (r: Vec<u8>) {
        self.as_str().as_bytes_vec()
    }
}

impl FromKeyBytes for String {
    open spec fn key_decodable(bytes: Seq<u8>) -> bool {
        valid_utf8(bytes)
    }

    open spec fn key_decodes_to(bytes: Seq<u8>, k: Self) -> bool {
        encode_utf8(k@) == bytes
    }

    fn from_key_bytes(bytes: &[u8]) -> (r: Result<Self, StorageError>) {
        match str_from_utf8(bytes) {
            Some(s) => Ok(s.to_owned()),
            None => Err(StorageError::Deserialization("Invalid UTF-8 in string key".to_owned())),
        }
    }
}

impl<'a> IntoKeyBytes for &'a str {
    /// The string slice's UTF-8 bytes.
    open spec fn spec_key_bytes(&self) -> Seq<u8> {
        encode_utf8(self@)
    }

    fn into_key_bytes(&self) -> (r: Vec<u8>) {
        self.as_bytes_vec()
    }
}

/// Decoding a `u64` key's bytes yields the key again, and no other key
/// shares its encoding.
pub proof fn lemma_u64_key_round_trip(k: u64)
    ensures
        u64::key_decodable(k.spec_key_bytes()),
        u64::key_decodes_to(k.spec_key_bytes(), k),
        forall|other: u64| u64::key_decodes_to(k.spec_key_bytes(), other) ==> other == k,
{
    vstd::bytes::lemma_auto_spec_u64_to_from_le_bytes();
}

/// Decoding a string key's bytes yields a string with the same
/// characters, and no string with other characters shares its encoding.
pub proof fn lemma_string_key_round_trip(k: String)
    ensures
        String::key_decodable(k.spec_key_bytes()),
        String::key_decodes_to(k.spec_key_bytes(), k),
        forall|other: String| String::key_decodes_to(k.spec_key_bytes(), other) ==> other@ == k@,
{
    encode_utf8_valid_utf8(k@);
    assert forall|other: String| String::key_decodes_to(k.spec_key_bytes(), other) implies other@
        == k@ by {
        encode_utf8_decode_utf8(k@);
        encode_utf8_decode_utf8(other@);
    }
}

/// Value serialization: a partial byte encoding with exact recognition
/// of what decodes, and to what.
pub trait ValueSerializer<T: View> {
    /// The byte encoding of `v`, if this serializer can encode it.
    spec fn spec_serialize(&self, v: T) -> Option<Seq<u8>>;

    /// Whether this serializer accepts `bytes` as an encoding.
    spec fn spec_deserializable(&self, bytes: Seq<u8>) -> bool;

    /// Whether `bytes` is an encoding of value `v`.
    spec fn spec_deserializes_to(&self, bytes: Seq<u8>, v: T) -> bool;

    /// Serialize a value; fails exactly when the format cannot encode it.
    fn serialize(&self, value: &T) -> (r: Result<Vec<u8>, StorageError>)
        ensures
            match self.spec_serialize(*value) {
                Some(s) => r is Ok && r->Ok_0@ == s,
                None => r is Err,
            },
    ;

    /// Deserialize a value; fails exactly on bytes this serializer does
    /// not accept.
    fn deserialize(&self, bytes: &[u8]) -> (r: Result<T, StorageError>)
        ensures
            r is Ok <==> self.spec_deserializable(bytes@),
            r is Ok ==> self.spec_deserializes_to(bytes@, r->Ok_0),
    ;

    /// Deserializing a serialized value yields that value again.
    proof fn lemma_round_trip(&self, v: T)
        requires
            self.spec_serialize(v) is Some,
        ensures
            self.spec_deserializable(self.spec_serialize(v)->0),
            self.spec_deserializes_to(self.spec_serialize(v)->0, v),
    ;

    /// An encoding stands for at most one value, up to its view.
    proof fn lemma_deserialize_unique(&self, bytes: Seq<u8>, v1: T, v2: T)
        requires
            self.spec_deserializes_to(bytes, v1),
            self.spec_deserializes_to(bytes, v2),
        ensures
            v1@ == v2@,
    ;

    /// Deserialization is strict: bytes that deserialize to a value are
    /// exactly that value's own encoding.
    proof fn lemma_deserialize_exact(&self, bytes: Seq<u8>, v: T)
        requires
            self.spec_deserializes_to(bytes, v),
        ensures
            self.spec_serialize(v) == Some(bytes),
    ;
}

/// Simple JSON value serializer: canonical JSON text for every
/// supported type.
#[derive(Debug, Clone, Copy, PartialEq, Eq, Structural)]
pub struct JsonSerializer;

impl ValueSerializer<String> for JsonSerializer {
    /// A bare JSON string.
    open spec fn spec_serialize(&self, v: String) -> Option<Seq<u8>> {
        Some(json::spec_enc_str(v@))
    }

    open spec fn spec_deserializable(&self, bytes: Seq<u8>) -> bool {
        json::jdec_string(bytes, 0) matches Some(p) && p.1 == bytes.len()
    }

    open spec fn spec_deserializes_to(&self, bytes: Seq<u8>, v: String) -> bool {
        json::jdec_string(bytes, 0) == Some((v@, bytes.len() as int))
    }

    fn serialize(&self, value: &String) -> (r: Result<Vec<u8>, StorageError>) {
        let mut out: Vec<u8> = Vec::new();
        json::enc_str_into(value.as_str(), &mut out);
        Ok(out)
    }

    fn deserialize(&self, bytes: &[u8]) -> (r: Result<String, StorageError>) {
        match json::parse_string(bytes, 0) {
            Some((t, end)) => {
                if end == bytes.len() {
                    Ok(t)
                } else {
                    Err(StorageError::Deserialization("Trailing bytes after JSON text".to_owned()))
                }
            },
            None => Err(StorageError::Deserialization("Malformed JSON string".to_owned())),
        }
    }

    proof fn lemma_round_trip(&self, v: String) {
        let e = json::spec_enc_str(v@);
        assert(e.subrange(0, e.len() as int) =~= e);
        json::lemma_jdec_enc_str(e, 0, v@);
    }

    proof fn lemma_deserialize_unique(&self, bytes: Seq<u8>, v1: String, v2: String) {
    }

    proof fn lemma_deserialize_exact(&self, bytes: Seq<u8>, v: String) {
        json::lemma_jdec_string_exact(bytes, 0);
        assert(bytes.subrange(0, bytes.len() as int) =~= bytes);
    }
}

impl ValueSerializer<u64> for JsonSerializer {
    /// A bare JSON number.
    open spec fn spec_serialize(&self, v: u64) -> Option<Seq<u8>> {
        Some(json::spec_enc_u64(v as nat))
    }

    open spec fn spec_deserializable(&self, bytes: Seq<u8>) -> bool {
        json::jdec_u64(bytes, 0) matches Some(p) && p.1 == bytes.len()
    }

    open spec fn spec_deserializes_to(&self, bytes: Seq<u8>, v: u64) -> bool {
        json::jdec_u64(bytes, 0) == Some((v, bytes.len() as int))
    }

    fn serialize(&self, value: &u64) -> (r: Result<Vec<u8>, StorageError>) {
        let mut out: Vec<u8> = Vec::new();
        json::enc_u64_into(*value, &mut out);
        Ok(out)
    }

    fn deserialize(&self, bytes: &[u8]) -> (r: Result<u64, StorageError>) {
        match json::parse_u64(bytes, 0) {
            Some((n, end)) => {
                if end == bytes.len() {
                    Ok(n)
                } else {
                    Err(
                        StorageError::Deserialization(
                            "Trailing bytes after JSON number".to_owned(),
                        ),
                    )
                }
            },
            None => Err(StorageError::Deserialization("Malformed JSON number".to_owned())),
        }
    }

    proof fn lemma_round_trip(&self, v: u64) {
        let e = json::spec_enc_u64(v as nat);
        assert(e.subrange(0, e.len() as int) =~= e);
        json::lemma_jdec_enc_u64(e, 0, v);
    }

    proof fn lemma_deserialize_unique(&self, bytes: Seq<u8>, v1: u64, v2: u64) {
    }

    proof fn lemma_deserialize_exact(&self, bytes: Seq<u8>, v: u64) {
        json::lemma_jdec_u64_exact(bytes, 0);
        assert(bytes.subrange(0, bytes.len() as int) =~= bytes);
    }
}

/// JSON record serializer: a schema bound at construction directs
/// parsing, and only records matching the schema are encoded.
#[derive(Debug, Clone, PartialEq)]
pub struct JsonRecordSerializer {
    /// The named field kinds records must match.
    pub schema: Schema,
}

impl JsonRecordSerializer {
    /// A serializer for records of the given schema.
    pub fn new(schema: Schema) -> (r: Self)
        ensures
            r.schema@ == schema@,
    {
        JsonRecordSerializer { schema }
    }
}

impl ValueSerializer<Record> for JsonRecordSerializer {
    /// A JSON object with the record's fields in order.
    open spec fn spec_serialize(&self, v: Record) -> Option<Seq<u8>> {
        if record_matches(self.schema@, v@) {
            Some(json::spec_enc_record(v@))
        } else {
            None
        }
    }

    open spec fn spec_deserializable(&self, bytes: Seq<u8>) -> bool {
        json::jdec_record(self.schema@, bytes, 0) matches Some(p) && p.1 == bytes.len()
    }

    open spec fn spec_deserializes_to(&self, bytes: Seq<u8>, v: Record) -> bool {
        json::jdec_record(self.schema@, bytes, 0) == Some((v@, bytes.len() as int))
    }

    fn serialize(&self, value: &Record) -> (r: Result<Vec<u8>, StorageError>) {
        if !record_matches_schema(&self.schema, value) {
            return Err(
                StorageError::Serialization("Record does not match the schema".to_owned()),
            );
        }
        Ok(json::enc_record(value))
    }

    fn deserialize(&self, bytes: &[u8]) -> (r: Result<Record, StorageError>) {
        match json::parse_record(&self.schema, bytes, 0) {
            Some((rec, end)) => {
                if end == bytes.len() {
                    Ok(rec)
                } else {
                    Err(
                        StorageError::Deserialization(
                            "Trailing bytes after JSON object".to_owned(),
                        ),
                    )
                }
            },
            None => Err(StorageError::Deserialization("Malformed JSON object".to_owned())),
        }
    }

    proof fn lemma_round_trip(&self, v: Record) {
        json::lemma_json_round_trip(self.schema@, v@);
    }

    proof fn lemma_deserialize_unique(&self, bytes: Seq<u8>, v1: Record, v2: Record) {
    }

    proof fn lemma_deserialize_exact(&self, bytes: Seq<u8>, v: Record) {
        json::lemma_jdec_record_matches(self.schema@, bytes, 0);
        json::lemma_jdec_record_exact(self.schema@, bytes, 0);
        assert(bytes.subrange(0, bytes.len() as int) =~= bytes);
    }
}

/// Whether a record has exactly the field names and kinds of a schema.
pub fn record_matches_schema(schema: &Schema, rec: &Record) -> (r: bool)
    ensures
        r == record_matches(schema@, rec@),
{
    if schema.fields.len() != rec.fields.len() {
        assert(!record_matches(schema@, rec@));
        return false;
    }
    let n = schema.fields.len();
    let mut k: usize = 0;
    while k < n
        invariant
            0 <= k <= n,
            n == schema@.len() == rec@.len(),
            forall|m: int|
                0 <= m < k ==> rec@[m].0 == schema@[m].0 && kind_of(#[trigger] rec@[m].1)
                    == schema@[m].1,
        decreases n - k,
    {
        let name_ok = rec.fields[k].0 == schema.fields[k].0;
        let kind_ok = match (&rec.fields[k].1, schema.fields[k].1) {
            (FieldValue::U64(_), FieldKind::U64) => true,
            (FieldValue::I64(_), FieldKind::I64) => true,
            (FieldValue::Bool(_), FieldKind::Bool) => true,
            (FieldValue::Text(_), FieldKind::Text) => true,
            (FieldValue::List(_), FieldKind::List) => true,
            _ => false,
        };
        if !(name_ok && kind_ok) {
            assert(!(rec@[k as int].0 == schema@[k as int].0 && kind_of(rec@[k as int].1)
                == schema@[k as int].1));
            return false;
        }
        k = k + 1;
    }
    true
}

} // verus!
