//! Storage configuration: path, backend selection, recreation policy.

use vstd::prelude::*;
use crate::storage::error::StorageError;

verus! {

/// Database backend selection.
#[derive(Debug, Clone, Copy, PartialEq, Eq, Structural)]
pub enum DatabaseBackend {
    /// The embedded transactional engine.
    Redb,
}

impl Default for DatabaseBackend {
    fn default() -> (r: Self)
        ensures
            r == DatabaseBackend::Redb,
    {
        DatabaseBackend::Redb
    }
}

/// Database recreation policy: what happens to an existing store before
/// the backend is opened.  The policy is evaluated exactly once, at build
/// time.
#[derive(Debug, Clone, Copy, PartialEq, Eq, Structural)]
pub enum Recreate {
    /// Always recreate the database: any existing contents are destroyed.
    Always,
    /// Open or create, never destroy existing contents.
    IfMissing,
    /// Recreate on version bump (reserved; currently behaves as `IfMissing`).
    OnVersionBump,
    /// Recreate if validation fails (reserved; currently behaves as `IfMissing`).
    OnValidationFail,
}

impl Default for Recreate {
    fn default() -> (r: Self)
        ensures
            r == Recreate::IfMissing,
    {
        Recreate::IfMissing
    }
}

/// Complete storage configuration.  Immutable once built; validated before
/// use.
#[derive(Debug, Clone)]
pub struct StorageConfig {
    /// Path to the database file.
    pub path: String,
    /// Database backend to use.
    pub backend: DatabaseBackend,
    /// Recreation policy.
    pub recreate: Recreate,
}

impl StorageConfig {
    /// A configuration for the given path, with the default backend and
    /// the default recreation policy.
    pub fn new(path: &str) -> (r: Self)
        ensures
            r.path@ == path@,
            r.backend == DatabaseBackend::Redb,
            r.recreate == Recreate::IfMissing,
    {
        StorageConfig {
            path: path.to_owned(),
            backend: DatabaseBackend::default(),
            recreate: Recreate::default(),
        }
    }

    /// Set the database backend.
    pub fn with_backend(self, backend: DatabaseBackend) -> (r: Self)
        ensures
            r.path@ == self.path@,
            r.backend == backend,
            r.recreate == self.recreate,
    {
        StorageConfig { backend, ..self }
    }

    /// Set the recreation policy.
    pub fn with_recreate(self, recreate: Recreate) -> (r: Self)
        ensures
            r.path@ == self.path@,
            r.backend == self.backend,
            r.recreate == recreate,
    {
        StorageConfig { recreate, ..self }
    }

    /// Whether this configuration is acceptable: the path must not be
    /// empty.
    pub open spec fn spec_valid(self) -> bool {
        self.path@.len() > 0
    }

    /// Validate the configuration.  Fails with `InvalidConfiguration`
    /// exactly when the path is empty.
    pub fn validate(&self) -> (r: Result<(), StorageError>)
        ensures
            r is Ok <==> self.spec_valid(),
    {
        if self.path.as_str().is_empty() {
            Err(
                StorageError::InvalidConfiguration(
                    "Database path cannot be empty".to_owned(),
                ),
            )
        } else {
            Ok(())
        }
    }
}

} // verus!
