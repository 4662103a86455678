//! Serialization format abstractions for keys and values.
//!
//! A key format must round-trip exactly over whatever it can encode.  A
//! value format encodes and offers a zero-copy view of stored bytes; a
//! plain format's view is the bytes unchanged, a zero-copy format's view
//! is the same buffer after validation.

use vstd::prelude::*;
use vstd::utf8::{valid_utf8, encode_utf8, encode_utf8_valid_utf8, encode_utf8_decode_utf8};
use vstd::string::StringSliceAdditionalSpecFns;
use vstd::string::StrSliceExecFns;
use crate::storage::codec::str_from_utf8;
use crate::storage::error::StorageError;

verus! {

/// Key serialization and deserialization.  Decoding must invert encoding
/// for every key the format can encode.
pub trait KeyFormat<K> {
    /// The byte encoding of `k`, if this format can encode it.
    spec fn spec_to_bytes(&self, k: K) -> Option<Seq<u8>>;

    /// Whether this format accepts `bytes` as a key encoding.
    spec fn spec_decodable(&self, bytes: Seq<u8>) -> bool;

    /// Whether `bytes` is the encoding of key `k`.
    spec fn spec_decodes_to(&self, bytes: Seq<u8>, k: K) -> bool;

    /// Serialize a key to bytes; fails exactly when the format cannot
    /// encode it.
    fn to_bytes(&self, key: &K) -> (r: Result<Vec<u8>, StorageError>)
        ensures
            match self.spec_to_bytes(*key) {
                Some(s) => r is Ok && r->Ok_0@ == s,
                None => r is Err,
            },
    ;

    /// Deserialize a key from bytes; fails exactly on bytes this format
    /// does not accept.
    fn from_bytes(&self, bytes: &[u8]) -> (r: Result<K, StorageError>)
        ensures
            r is Ok <==> self.spec_decodable(bytes@),
            r is Ok ==> self.spec_decodes_to(bytes@, r->Ok_0),
    ;

    /// Decoding is the exact left inverse of encoding.
    proof fn lemma_round_trip(&self, k: K)
        requires
            self.spec_to_bytes(k) is Some,
        ensures
            self.spec_decodable(self.spec_to_bytes(k)->0),
            self.spec_decodes_to(self.spec_to_bytes(k)->0, k),
    ;
}

/// Value serialization with zero-copy viewing.
pub trait ValueFormat<V> {
    /// The byte encoding of `v`, if this format can encode it.
    spec fn spec_to_bytes(&self, v: V) -> Option<Seq<u8>>;

    /// The window this format exposes over stored bytes, if they pass
    /// its checks.
    spec fn spec_view_bytes(&self, bytes: Seq<u8>) -> Option<Seq<u8>>;

    /// Serialize a value to bytes; fails exactly when the format cannot
    /// encode it.
    fn to_bytes(&self, value: &V) -> (r: Result<Vec<u8>, StorageError>)
        ensures
            match self.spec_to_bytes(*value) {
                Some(s) => r is Ok && r->Ok_0@ == s,
                None => r is Err,
            },
    ;

    /// A zero-copy window into stored bytes; fails exactly on bytes that
    /// do not pass this format's checks.
    fn view_bytes<'a>(&self, bytes: &'a [u8]) -> (r: Result<&'a [u8], StorageError>)
        ensures
            match self.spec_view_bytes(bytes@) {
                Some(s) => r is Ok && r->Ok_0@ == s,
                None => r is Err,
            },
    ;

    /// What this format encodes always passes its own view checks, and
    /// the window is the encoded buffer itself: validated access is a
    /// safe substitute for trusting the encoder.
    proof fn lemma_view_round_trip(&self, v: V)
        requires
            self.spec_to_bytes(v) is Some,
        ensures
            self.spec_view_bytes(self.spec_to_bytes(v)->0) == Some(self.spec_to_bytes(v)->0),
    ;
}

/// Fixed-width key format for `u64`: eight little-endian bytes.
#[derive(Debug, Clone, Copy, PartialEq, Eq, Structural)]
pub struct U64KeyFormat;

impl KeyFormat<u64> for U64KeyFormat {
    open spec fn spec_to_bytes(&self, k: u64) -> Option<Seq<u8>> {
        Some(vstd::bytes::spec_u64_to_le_bytes(k))
    }

    open spec fn spec_decodable(&self, bytes: Seq<u8>) -> bool {
        bytes.len() == 8
    }

    open spec fn spec_decodes_to(&self, bytes: Seq<u8>, k: u64) -> bool {
        bytes.len() == 8 && k == vstd::bytes::spec_u64_from_le_bytes(bytes)
    }

    fn to_bytes(&self, key: &u64) -> (r: Result<Vec<u8>, StorageError>) {
        Ok(vstd::bytes::u64_to_le_bytes(*key))
    }

    fn from_bytes(&self, bytes: &[u8]) -> (r: Result<u64, StorageError>) {
        if bytes.len() == 8 {
            Ok(vstd::bytes::u64_from_le_bytes(bytes))
        } else {
            Err(StorageError::Deserialization("Invalid u64 key length".to_owned()))
        }
    }

    proof fn lemma_round_trip(&self, k: u64) {
        vstd::bytes::lemma_auto_spec_u64_to_from_le_bytes();
    }
}

/// Key format for strings: their UTF-8 bytes.
#[derive(Debug, Clone, Copy, PartialEq, Eq, Structural)]
pub struct StringKeyFormat;

impl KeyFormat<String> for StringKeyFormat {
    open spec fn spec_to_bytes(&self, k: String) -> Option<Seq<u8>> {
        Some(encode_utf8(k@))
    }

    open spec fn spec_decodable(&self, bytes: Seq<u8>) -> bool {
        valid_utf8(bytes)
    }

    open spec fn spec_decodes_to(&self, bytes: Seq<u8>, k: String) -> bool {
        encode_utf8(k@) == bytes
    }

    fn to_bytes(&self, key: &String) -> (r: Result<Vec<u8>, StorageError>) {
        Ok(key.as_str().as_bytes_vec())
    }

    fn from_bytes(&self, bytes: &[u8]) -> (r: Result<String, StorageError>) {
        match str_from_utf8(bytes) {
            Some(s) => Ok(s.to_owned()),
            None => Err(StorageError::Deserialization("Invalid UTF-8 in string key".to_owned())),
        }
    }

    proof fn lemma_round_trip(&self, k: String) {
        encode_utf8_valid_utf8(k@);
        encode_utf8_decode_utf8(k@);
    }
}

} // verus!

pub mod flatbuffers;
pub mod rkyv;
