//! Zero-copy access protocol over archived records, and the remaining
//! value serializers.
//!
//! Two access modes are offered.  Validated access structurally checks
//! the buffer before exposing fields and is the required mode for bytes
//! that are not fully trusted.  Unchecked access skips the check; it is
//! sound exactly when the buffer is a well-formed archive, which is
//! stated as the caller's precondition.  Validated access is always a
//! safe substitute for unchecked access: on well-formed bytes both hand
//! out views that read the same field values.

use vstd::prelude::*;
use crate::storage::archive::{
    arch_encode,
    arch_validate,
    rec_values,
    spec_arch_enc,
    spec_arch_encodable,
    wf_archive,
    ArchivedRecord,
};
use crate::storage::error::StorageError;
use crate::storage::record::Record;

verus! {

/// Serialize a record into its archive encoding.  Fails exactly when
/// the archive format cannot hold the record.
pub fn serialize_rkyv(data: &Record) -> (r: Result<Vec<u8>, StorageError>)
    ensures
        r is Ok <==> spec_arch_encodable(rec_values(data@)),
        r is Ok ==> r->Ok_0@ == spec_arch_enc(rec_values(data@)),
{
    arch_encode(data)
}

/// Validated access: structurally check the buffer, then hand out a
/// typed, borrowed view.  Fails exactly on bytes that are not a
/// well-formed archive; a failure is recoverable and must be, since the
/// bytes may come from an untrusted source.
pub fn access_rkyv_safe<'a>(bytes: &'a [u8]) -> (r: Result<ArchivedRecord<'a>, StorageError>)
    ensures
        r is Ok <==> wf_archive(bytes@),
        r is Ok ==> r->Ok_0.bytes@ == bytes@,
{
    if arch_validate(bytes) {
        Ok(ArchivedRecord { bytes })
    } else {
        Err(StorageError::Deserialization("Archive validation failed".to_owned()))
    }
}

/// Unchecked access: interpret the buffer directly, skipping the
/// structural check.  The caller must guarantee that the bytes were
/// produced by this format's encoder and have not been truncated or
/// corrupted; that obligation is the precondition.
pub fn access_rkyv_unsafe<'a>(bytes: &'a [u8]) -> (r: ArchivedRecord<'a>)
    requires
        wf_archive(bytes@),
    ensures
        r.bytes@ == bytes@,
{
    ArchivedRecord { bytes }
}

/// Read access with a chosen mode: validated when `validate` is set,
/// unchecked otherwise (in which case well-formedness is the caller's
/// obligation).
pub fn read_rkyv<'a>(bytes: &'a [u8], validate: bool) -> (r: Result<ArchivedRecord<'a>, StorageError>)
    requires
        !validate ==> wf_archive(bytes@),
    ensures
        r is Ok <==> wf_archive(bytes@),
        r is Ok ==> r->Ok_0.bytes@ == bytes@,
{
    if validate {
        access_rkyv_safe(bytes)
    } else {
        Ok(access_rkyv_unsafe(bytes))
    }
}

/// Batch validated access: one optional view per buffer, in input
/// order.  A buffer that fails validation yields `None` and does not
/// abort the processing of the others (per-item-partial semantics).
pub fn access_rkyv_batch<'a>(buffers: &'a Vec<Vec<u8>>) -> (r: Vec<Option<ArchivedRecord<'a>>>)
    ensures
        r@.len() == buffers@.len(),
        forall|i: int|
            0 <= i < r@.len() ==> match #[trigger] r@[i] {
                Some(view) => wf_archive(buffers@[i]@) && view.bytes@ == buffers@[i]@,
                None => !wf_archive(buffers@[i]@),
            },
{
    let mut out: Vec<Option<ArchivedRecord<'a>>> = Vec::new();
    let mut idx: usize = 0;
    while idx < buffers.len()
        invariant
            0 <= idx <= buffers@.len(),
            out@.len() == idx,
            forall|i: int|
                0 <= i < idx ==> match #[trigger] out@[i] {
                    Some(view) => wf_archive(buffers@[i]@) && view.bytes@ == buffers@[i]@,
                    None => !wf_archive(buffers@[i]@),
                },
        decreases buffers@.len() - idx,
    {
        let entry = &buffers[idx];
        match access_rkyv_safe(entry.as_slice()) {
            Ok(view) => out.push(Some(view)),
            Err(_) => out.push(None),
        }
        idx = idx + 1;
    }
    out
}

/// Buffer-reusing archive serializer: repeated encodes reuse one
/// growable buffer, so callers that need the bytes to outlive the next
/// call must copy them out first.
pub struct RkyvSerializer {
    buffer: Vec<u8>,
}

impl RkyvSerializer {
    /// A serializer with a fresh buffer.
    pub fn new() -> (r: Self) {
        RkyvSerializer { buffer: Vec::new() }
    }

    /// A serializer whose buffer starts with the given capacity.
    pub fn with_capacity(capacity: usize) -> (r: Self) {
        RkyvSerializer { buffer: Vec::with_capacity(capacity) }
    }

    /// Serialize with buffer reuse; the returned slice borrows this
    /// serializer's buffer and is overwritten by the next call.
    pub fn serialize<'a>(&'a mut self, data: &Record) -> (r: Result<&'a [u8], StorageError>)
        ensures
            r is Ok <==> spec_arch_encodable(rec_values(data@)),
            r is Ok ==> r->Ok_0@ == spec_arch_enc(rec_values(data@)),
    {
        let encoded = arch_encode(data)?;
        self.buffer = encoded;
        Ok(self.buffer.as_slice())
    }

    /// Serialize to owned bytes.
    pub fn serialize_to_vec(&mut self, data: &Record) -> (r: Result<Vec<u8>, StorageError>)
        ensures
            r is Ok <==> spec_arch_encodable(rec_values(data@)),
            r is Ok ==> r->Ok_0@ == spec_arch_enc(rec_values(data@)),
    {
        arch_encode(data)
    }
}

/// Serializer for externally compiled flat-schema buffers: values are
/// already serialized bytes, stored as they are.  Decoding needs the
/// compiled schema and is not implemented; it fails with a clear error
/// rather than panicking.
pub struct FlatbuffersSerializer;

impl FlatbuffersSerializer {
    /// A new flat-schema serializer.
    pub fn new() -> (r: Self) {
        FlatbuffersSerializer
    }

    /// Store pre-serialized flat-schema bytes unchanged.
    pub fn serialize(&self, value: &Vec<u8>) -> (r: Result<Vec<u8>, StorageError>)
        ensures
            r is Ok,
            r->Ok_0@ == value@,
    {
        Ok(value.clone())
    }

    /// Decoding requires the externally compiled schema; not
    /// implemented.
    pub fn deserialize(&self, bytes: &[u8]) -> (r: Result<Vec<u8>, StorageError>)
        ensures
            r is Err,
    {
        Err(
            StorageError::Deserialization(
                "Deserialization is not implemented for the flat-schema format".to_owned(),
            ),
        )
    }
}

} // verus!
