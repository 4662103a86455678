//! Columnar flat-schema value format.
//!
//! This format's encoder is a placeholder pending schema-driven code
//! generation: it surfaces a clear "not implemented" error rather than
//! encoding anything.  Its zero-copy view hands back the stored bytes
//! unchanged.

use vstd::prelude::*;
use crate::storage::error::StorageError;
use crate::storage::formats::ValueFormat;
use crate::storage::record::Record;

verus! {

/// Flat-schema serialization format (placeholder).
#[derive(Debug, Clone, Copy, PartialEq, Eq, Structural)]
pub struct FlatbuffersFormat;

impl FlatbuffersFormat {
    /// A new flat-schema format instance.
    pub fn new() -> (r: Self)
        ensures
            r == FlatbuffersFormat,
    {
        FlatbuffersFormat
    }
}

impl Default for FlatbuffersFormat {
    fn default() -> (r: Self)
        ensures
            r == FlatbuffersFormat,
    {
        FlatbuffersFormat
    }
}

impl ValueFormat<Record> for FlatbuffersFormat {
    /// No record can be encoded until a compiled schema drives the
    /// encoder.
    open spec fn spec_to_bytes(&self, v: Record) -> Option<Seq<u8>> {
        None
    }

    /// The identity view: the stored bytes unchanged.
    open spec fn spec_view_bytes(&self, bytes: Seq<u8>) -> Option<Seq<u8>> {
        Some(bytes)
    }

    fn to_bytes(&self, value: &Record) -> (r: Result<Vec<u8>, StorageError>) {
        Err(
            StorageError::Serialization(
                "Serialization is not implemented for the flat-schema format".to_owned(),
            ),
        )
    }

    fn view_bytes<'a>(&self, bytes: &'a [u8]) -> (r: Result<&'a [u8], StorageError>) {
        Ok(bytes)
    }

    proof fn lemma_view_round_trip(&self, v: Record) {
    }
}

} // verus!
