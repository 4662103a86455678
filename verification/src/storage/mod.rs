//! The storage subsystem: configuration and lifecycle of a database
//! instance, the byte-level backend, serialization formats, typed
//! tables, and the zero-copy access protocol.

pub mod archive;
pub mod backends;
pub mod builder;
pub mod codec;
pub mod config;
pub mod error;
pub mod example;
pub mod formats;
pub mod json;
pub mod record;
pub mod redb_backend;
pub mod serializers;
pub mod table;
pub mod typed_table;

pub use builder::{Storage, StorageBuilder};
pub use config::{DatabaseBackend, Recreate, StorageConfig};
pub use error::StorageError;
pub use record::{FieldKind, FieldValue, Record, Schema};
pub use typed_table::TypedTable;
