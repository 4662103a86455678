//! Zero-copy archive value format.

use vstd::prelude::*;
use crate::storage::archive::{
    arch_encode,
    arch_validate,
    rec_values,
    spec_arch_enc,
    spec_arch_encodable,
    wf_archive,
};
use crate::storage::error::StorageError;
use crate::storage::formats::ValueFormat;
use crate::storage::record::Record;

verus! {

/// Zero-copy archive serialization format.  Its encoder lays a record
/// out so that each field can be read at a fixed offset from the buffer
/// start; its view validates the layout and hands the same buffer back.
#[derive(Debug, Clone, Copy, PartialEq, Eq, Structural)]
pub struct RkyvFormat;

impl RkyvFormat {
    /// A new archive format instance.
    pub fn new() -> (r: Self)
        ensures
            r == RkyvFormat,
    {
        RkyvFormat
    }
}

impl Default for RkyvFormat {
    fn default() -> (r: Self)
        ensures
            r == RkyvFormat,
    {
        RkyvFormat
    }
}

impl ValueFormat<Record> for RkyvFormat {
    /// The archive encoding of the record's field values, where the
    /// format can hold them.
    open spec fn spec_to_bytes(&self, v: Record) -> Option<Seq<u8>> {
        if spec_arch_encodable(rec_values(v@)) {
            Some(spec_arch_enc(rec_values(v@)))
        } else {
            None
        }
    }

    /// The validated window: the same buffer, exactly when it is a
    /// well-formed archive.
    open spec fn spec_view_bytes(&self, bytes: Seq<u8>) -> Option<Seq<u8>> {
        if wf_archive(bytes) {
            Some(bytes)
        } else {
            None
        }
    }

    fn to_bytes(&self, value: &Record) -> (r: Result<Vec<u8>, StorageError>) {
        arch_encode(value)
    }

    fn view_bytes<'a>(&self, bytes: &'a [u8]) -> (r: Result<&'a [u8], StorageError>) {
        if arch_validate(bytes) {
            Ok(bytes)
        } else {
            Err(StorageError::Deserialization("Archive validation failed".to_owned()))
        }
    }

    proof fn lemma_view_round_trip(&self, v: Record) {
        crate::storage::archive::lemma_arch_round_trip(rec_values(v@));
    }
}

} // verus!
