//! Top-level storage lifecycle: configuration in, `Storage` out.

use vstd::prelude::*;
use crate::storage::backends::redb::RedbStorage;
use crate::storage::codec::{IntoKeyBytes, ValueSerializer};
use crate::storage::config::{DatabaseBackend, Recreate, StorageConfig};
use crate::storage::error::StorageError;
use crate::storage::formats::{KeyFormat, ValueFormat};
use crate::storage::redb_backend::{store_empty, StoreContents};
use crate::storage::table::TableBuilder;
use crate::storage::typed_table::TypedTable;

verus! {

/// Builder for creating storage instances with a fluent API.
#[derive(Debug)]
pub struct StorageBuilder {
    config: StorageConfig,
}

impl StorageBuilder {
    /// The configuration accumulated so far.
    pub closed spec fn spec_config(&self) -> StorageConfig {
        self.config
    }

    /// A builder for a store at the given database path, with the
    /// default backend and recreation policy.
    pub fn new(path: &str) -> (r: Self)
        ensures
            r.spec_config().path@ == path@,
            r.spec_config().backend == DatabaseBackend::Redb,
            r.spec_config().recreate == Recreate::IfMissing,
    {
        StorageBuilder { config: StorageConfig::new(path) }
    }

    /// Set the database backend.
    pub fn with_backend(self, backend: DatabaseBackend) -> (r: Self)
        ensures
            r.spec_config().path@ == self.spec_config().path@,
            r.spec_config().backend == backend,
            r.spec_config().recreate == self.spec_config().recreate,
    {
        StorageBuilder { config: self.config.with_backend(backend) }
    }

    /// Set the database recreation policy.
    pub fn with_recreate(self, recreate: Recreate) -> (r: Self)
        ensures
            r.spec_config().path@ == self.spec_config().path@,
            r.spec_config().backend == self.spec_config().backend,
            r.spec_config().recreate == recreate,
    {
        StorageBuilder { config: self.config.with_recreate(recreate) }
    }

    /// Build the storage instance: validate the configuration, open the
    /// backend, and apply the recreation policy before handing the store
    /// out.  With `Recreate::Always` a successfully built store holds no
    /// tables at all; every other policy keeps whatever the path already
    /// held.  An invalid configuration fails before the backend is
    /// touched.
    pub fn build(self) -> (r: Result<Storage, StorageError>)
        ensures
            !self.spec_config().spec_valid() ==> r is Err,
            r is Ok && self.spec_config().recreate == Recreate::Always ==> r->Ok_0@
                == store_empty(),
    {
        self.config.validate()?;
        let recreate = self.config.recreate;
        let backend = match self.config.backend {
            DatabaseBackend::Redb => RedbStorage::new(self.config)?,
        };
        let mut storage = Storage { backend };
        match recreate {
            Recreate::Always => {
                // The engine owns the store exclusively, so destroying
                // the existing contents is done through it: every table
                // is dropped before the store is handed out.
                storage.backend.clear_all_tables()?;
            },
            Recreate::IfMissing => {},
            Recreate::OnVersionBump | Recreate::OnValidationFail => {
                // Reserved policies: currently identical to `IfMissing`.
            },
        }
        Ok(storage)
    }
}

/// Main storage interface: owns exactly one backend instance.
pub struct Storage {
    /// The backend the store runs on.
    pub backend: RedbStorage,
}

impl View for Storage {
    type V = StoreContents;

    open spec fn view(&self) -> StoreContents {
        self.backend@
    }
}

impl Storage {
    /// Open (or create) a store at `path` directly, with the default
    /// configuration: no recreation, so an existing store keeps its
    /// contents.
    pub fn new(path: &str) -> (r: Result<Self, StorageError>) {
        let backend = RedbStorage::new(StorageConfig::new(path))?;
        Ok(Storage { backend })
    }

    /// A builder for a typed table of this store, with no formats set
    /// yet.
    pub fn new_table<K, V, KF: KeyFormat<K>, VF: ValueFormat<V>>(&self, name: &str) -> (r:
        TableBuilder<K, V, KF, VF>)
        ensures
            r.spec_name() == name@,
            r.spec_key_format() is None,
            r.spec_value_format() is None,
    {
        TableBuilder::new(name)
    }

    /// A typed table handle over this store, bound to a name and a
    /// value serializer; the handle holds no resource.
    pub fn table<K: IntoKeyBytes, V: View, S: ValueSerializer<V>>(&self, name: &str, serializer: S) -> (r:
        TypedTable<K, V, S>)
        ensures
            r.spec_table_name() == name@,
            r.spec_serializer() == serializer,
    {
        TypedTable::new(name, serializer)
    }

    /// Compact the database; contents are unchanged either way.
    pub fn compact(&mut self) -> (r: Result<(), StorageError>)
        ensures
            final(self)@ == old(self)@,
    {
        self.backend.compact()
    }

    /// The backend, for table creation.
    pub fn backend(&self) -> (r: &RedbStorage)
        ensures
            r@ == self@,
    {
        &self.backend
    }
}

} // verus!
