//! Database backend abstractions.

use vstd::prelude::*;
use crate::storage::error::StorageError;
use crate::storage::redb_backend::StoreContents;

verus! {

/// The capability set a storage engine must expose to this layer.
pub trait StorageBackend {
    /// The tables the backend holds: name to byte-key/byte-value
    /// contents.
    spec fn spec_tables(&self) -> StoreContents;

    /// Compact the backing store.  Whether it succeeds or fails, no
    /// table's contents change.
    fn compact(&mut self) -> (r: Result<(), StorageError>)
        ensures
            final(self).spec_tables() == old(self).spec_tables(),
    ;
}

} // verus!

pub mod redb;
