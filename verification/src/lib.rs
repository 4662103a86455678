//! An embedded, transactional key-value storage layer.
//!
//! Callers store strongly typed records under pluggable serialization
//! strategies: a textual JSON format that always round-trips, and a
//! zero-copy archive format whose stored bytes can be read field by field
//! without a decode pass.  The durable engine underneath is an embedded
//! transactional database consumed strictly at its byte-level boundary.

pub mod storage;
