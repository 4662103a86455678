//! The error taxonomy of the storage layer.

use vstd::prelude::*;
use vstd::string::StringExecFns;

verus! {

/// Errors that can occur during storage operations.
#[derive(Debug, Clone, PartialEq, Eq)]
pub enum StorageError {
    /// Database-specific errors: open, transaction, commit.
    Database(String),
    /// Serialization errors when converting data to bytes.
    Serialization(String),
    /// Deserialization errors when converting bytes back to data.
    Deserialization(String),
    /// Configuration validation errors.
    InvalidConfiguration(String),
    /// I/O errors distinct from database-specific errors.
    Io(String),
    /// Missing required format (key or value) in a table builder.
    MissingFormat(String),
    /// Failure opening or operating on a named table.
    TableOperation(String),
}

impl StorageError {
    /// The message of this error, prefixed with its kind.
    pub open spec fn spec_message(self) -> Seq<char> {
        match self {
            StorageError::Database(m) => "Database error: "@ + m@,
            StorageError::Serialization(m) => "Serialization error: "@ + m@,
            StorageError::Deserialization(m) => "Deserialization error: "@ + m@,
            StorageError::InvalidConfiguration(m) => "Invalid configuration: "@ + m@,
            StorageError::Io(m) => "I/O error: "@ + m@,
            StorageError::MissingFormat(m) => "Missing format: "@ + m@,
            StorageError::TableOperation(m) => "Table operation error: "@ + m@,
        }
    }

    /// Render the error as a human-readable message.
    pub fn message(&self) -> (r: String)
        ensures
            r@ == self.spec_message(),
    {
        match self {
            StorageError::Database(m) => String::from_str("Database error: ").concat(m.as_str()),
            StorageError::Serialization(m) => String::from_str("Serialization error: ").concat(
                m.as_str(),
            ),
            StorageError::Deserialization(m) => String::from_str("Deserialization error: ").concat(
                m.as_str(),
            ),
            StorageError::InvalidConfiguration(m) => String::from_str(
                "Invalid configuration: ",
            ).concat(m.as_str()),
            StorageError::Io(m) => String::from_str("I/O error: ").concat(m.as_str()),
            StorageError::MissingFormat(m) => String::from_str("Missing format: ").concat(
                m.as_str(),
            ),
            StorageError::TableOperation(m) => String::from_str("Table operation error: ").concat(
                m.as_str(),
            ),
        }
    }
}

} // verus!
