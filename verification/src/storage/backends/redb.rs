//! The concrete backend and its tables, atop the byte-level engine.

use vstd::prelude::*;
use std::marker::PhantomData;
use crate::storage::backends::StorageBackend;
use crate::storage::config::StorageConfig;
use crate::storage::error::StorageError;
use crate::storage::formats::{KeyFormat, ValueFormat};
use crate::storage::redb_backend::{RedbBackend, StoreContents};
use crate::storage::table::Table;

verus! {

/// The production backend: one embedded transactional database.
pub struct RedbStorage {
    /// The byte-level engine handle.
    pub db: RedbBackend,
}

impl View for RedbStorage {
    type V = StoreContents;

    open spec fn view(&self) -> StoreContents {
        self.db@
    }
}

impl RedbStorage {
    /// Open (or create) the database at the configured path.  An
    /// existing file keeps its tables, so nothing is known of the
    /// contents afterwards.
    pub fn new(config: StorageConfig) -> (r: Result<Self, StorageError>) {
        let db = RedbBackend::new(config.path.as_str())?;
        Ok(RedbStorage { db })
    }

    /// Compact the backing store; contents are unchanged either way.
    pub fn compact(&mut self) -> (r: Result<(), StorageError>)
        ensures
            final(self)@ == old(self)@,
    {
        self.db.compact()
    }

    /// Delete every table; on success the store holds nothing.
    pub fn clear_all_tables(&mut self) -> (r: Result<(), StorageError>)
        ensures
            r is Ok ==> final(self)@ == crate::storage::redb_backend::store_empty(),
    {
        self.db.clear_all_tables()
    }

    /// A typed table handle over this backend, bound to a name and to
    /// key and value formats.  Handles are cheap and independent:
    /// creating one twice for the same name addresses the same physical
    /// table.  Fails exactly on an empty name, which the engine refuses.
    pub fn create_table<K, V, KF: KeyFormat<K>, VF: ValueFormat<V>>(
        &self,
        name: &str,
        key_format: KF,
        value_format: VF,
    ) -> (r: Result<RedbTable<K, V, KF, VF>, StorageError>)
        ensures
            r is Ok <==> name@.len() > 0,
            r is Ok ==> r->Ok_0.name@ == name@ && r->Ok_0.key_format == key_format
                && r->Ok_0.value_format == value_format,
    {
        if name.is_empty() {
            Err(StorageError::TableOperation("Table name cannot be empty".to_owned()))
        } else {
            Ok(RedbTable::new(name, key_format, value_format))
        }
    }
}

impl StorageBackend for RedbStorage {
    open spec fn spec_tables(&self) -> StoreContents {
        self@
    }

    fn compact(&mut self) -> (r: Result<(), StorageError>) {
        self.db.compact()
    }
}

/// A typed table over the concrete backend: a name plus the two formats
/// that translate keys and values to bytes at the boundary.
pub struct RedbTable<K, V, KF: KeyFormat<K>, VF: ValueFormat<V>> {
    /// The table's name in the store.
    pub name: String,
    /// How keys become bytes and back.
    pub key_format: KF,
    /// How values become bytes, and how stored bytes are viewed.
    pub value_format: VF,
    /// Marker binding the key and value types.
    pub _phantom: PhantomData<(K, V)>,
}

impl<K, V, KF: KeyFormat<K>, VF: ValueFormat<V>> RedbTable<K, V, KF, VF> {
    /// A handle bound to `name` and the given formats.
    pub fn new(name: &str, key_format: KF, value_format: VF) -> (r: Self)
        ensures
            r.name@ == name@,
            r.key_format == key_format,
            r.value_format == value_format,
    {
        RedbTable { name: name.to_owned(), key_format, value_format, _phantom: PhantomData }
    }
}

impl<K, V, KF: KeyFormat<K>, VF: ValueFormat<V>> Table<K, V> for RedbTable<K, V, KF, VF> {
    open spec fn spec_name(&self) -> Seq<char> {
        self.name@
    }

    open spec fn spec_key_bytes(&self, k: K) -> Option<Seq<u8>> {
        self.key_format.spec_to_bytes(k)
    }

    open spec fn spec_value_bytes(&self, v: V) -> Option<Seq<u8>> {
        self.value_format.spec_to_bytes(v)
    }

    open spec fn spec_view_bytes(&self, bytes: Seq<u8>) -> Option<Seq<u8>> {
        self.value_format.spec_view_bytes(bytes)
    }

    fn get(&self, store: &RedbStorage, key: &K) -> (r: Result<Option<Vec<u8>>, StorageError>) {
        if self.name.as_str().is_empty() {
            return Err(StorageError::TableOperation("Table name cannot be empty".to_owned()));
        }
        let key_bytes = self.key_format.to_bytes(key)?;
        match store.db.get(self.name.as_str(), key_bytes.as_slice())? {
            Some(stored) => {
                let window = self.value_format.view_bytes(stored.as_slice())?;
                Ok(Some(vstd::slice::slice_to_vec(window)))
            },
            None => Ok(None),
        }
    }

    fn put(&self, store: &mut RedbStorage, key: &K, value: &V) -> (r: Result<(), StorageError>) {
        if self.name.as_str().is_empty() {
            return Err(StorageError::TableOperation("Table name cannot be empty".to_owned()));
        }
        let key_bytes = self.key_format.to_bytes(key)?;
        let value_bytes = self.value_format.to_bytes(value)?;
        store.db.set(self.name.as_str(), key_bytes.as_slice(), value_bytes.as_slice())
    }

    fn delete(&self, store: &mut RedbStorage, key: &K) -> (r: Result<bool, StorageError>) {
        if self.name.as_str().is_empty() {
            return Err(StorageError::TableOperation("Table name cannot be empty".to_owned()));
        }
        let key_bytes = self.key_format.to_bytes(key)?;
        store.db.remove(self.name.as_str(), key_bytes.as_slice())
    }
}

} // verus!
