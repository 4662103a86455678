//! Table abstractions and the table builder.

use vstd::prelude::*;
use std::marker::PhantomData;
use crate::storage::backends::redb::{RedbStorage, RedbTable};
use crate::storage::error::StorageError;
use crate::storage::formats::{KeyFormat, ValueFormat};
use crate::storage::redb_backend::{store_contains, store_lookup, store_put, store_remove};

verus! {

/// The narrow capability set a table exposes to application code: `get`,
/// `put`, `delete`, each one backend transaction on the encoded bytes.
pub trait Table<K, V> {
    /// The table's name in the store.
    spec fn spec_name(&self) -> Seq<char>;

    /// The bytes this table's key format writes for `k`, if it can
    /// encode it.
    spec fn spec_key_bytes(&self, k: K) -> Option<Seq<u8>>;

    /// The bytes this table's value format writes for `v`, if it can
    /// encode it.
    spec fn spec_value_bytes(&self, v: V) -> Option<Seq<u8>>;

    /// The window this table's value format exposes over stored bytes,
    /// if they pass its checks.
    spec fn spec_view_bytes(&self, bytes: Seq<u8>) -> Option<Seq<u8>>;

    /// Get the bytes stored under `key`, passed through the value
    /// format's view; `None` when the key is absent.
    fn get(&self, store: &RedbStorage, key: &K) -> (r: Result<Option<Vec<u8>>, StorageError>)
        ensures
            match r {
                Ok(found) => {
                    &&& self.spec_key_bytes(*key) is Some
                    &&& match found {
                        Some(b) => {
                            &&& store_lookup(
                                store@,
                                self.spec_name(),
                                self.spec_key_bytes(*key)->0,
                            ) is Some
                            &&& self.spec_view_bytes(
                                store_lookup(
                                    store@,
                                    self.spec_name(),
                                    self.spec_key_bytes(*key)->0,
                                )->0,
                            ) == Some(b@)
                        },
                        None => store@.contains_key(self.spec_name()) && store_lookup(
                            store@,
                            self.spec_name(),
                            self.spec_key_bytes(*key)->0,
                        ) is None,
                    }
                },
                Err(_) => true,
            },
    ;

    /// Put a key-value pair; an encoding failure commits nothing.
    fn put(&self, store: &mut RedbStorage, key: &K, value: &V) -> (r: Result<(), StorageError>)
        ensures
            r is Ok ==> {
                &&& self.spec_key_bytes(*key) is Some
                &&& self.spec_value_bytes(*value) is Some
                &&& final(store)@ == store_put(
                    old(store)@,
                    self.spec_name(),
                    self.spec_key_bytes(*key)->0,
                    self.spec_value_bytes(*value)->0,
                )
            },
            r is Err ==> final(store)@ == old(store)@ || (self.spec_key_bytes(*key) is Some
                && self.spec_value_bytes(*value) is Some && final(store)@ == store_put(
                old(store)@,
                self.spec_name(),
                self.spec_key_bytes(*key)->0,
                self.spec_value_bytes(*value)->0,
            )),
            self.spec_key_bytes(*key) is None ==> r is Err && final(store)@ == old(store)@,
            self.spec_value_bytes(*value) is None ==> r is Err && final(store)@ == old(store)@,
    ;

    /// Delete a key-value pair; reports whether the key existed.
    /// Deleting an absent key is a no-op that reports `false`.
    fn delete(&self, store: &mut RedbStorage, key: &K) -> (r: Result<bool, StorageError>)
        ensures
            r is Ok ==> {
                &&& self.spec_key_bytes(*key) is Some
                &&& r->Ok_0 == store_contains(
                    old(store)@,
                    self.spec_name(),
                    self.spec_key_bytes(*key)->0,
                )
                &&& final(store)@ == store_remove(
                    old(store)@,
                    self.spec_name(),
                    self.spec_key_bytes(*key)->0,
                )
            },
            r is Err ==> final(store)@ == old(store)@ || (self.spec_key_bytes(*key) is Some
                && final(store)@ == store_remove(
                old(store)@,
                self.spec_name(),
                self.spec_key_bytes(*key)->0,
            )),
    ;
}

/// Builder for a typed table: accumulates a key format and a value
/// format, then binds them to a name.  `build` is the only point where
/// the backend is asked for the table, and it refuses to build while
/// either format is missing.
pub struct TableBuilder<K, V, KF: KeyFormat<K>, VF: ValueFormat<V>> {
    name: String,
    key_format: Option<KF>,
    value_format: Option<VF>,
    _phantom: PhantomData<(K, V)>,
}

impl<K, V, KF: KeyFormat<K>, VF: ValueFormat<V>> TableBuilder<K, V, KF, VF> {
    /// The name the table will be bound to.
    pub closed spec fn spec_name(&self) -> Seq<char> {
        self.name@
    }

    /// The key format set so far, if any.
    pub closed spec fn spec_key_format(&self) -> Option<KF> {
        self.key_format
    }

    /// The value format set so far, if any.
    pub closed spec fn spec_value_format(&self) -> Option<VF> {
        self.value_format
    }

    /// A builder for the named table, with no formats set yet.
    pub fn new(name: &str) -> (r: Self)
        ensures
            r.spec_name() == name@,
            r.spec_key_format() is None,
            r.spec_value_format() is None,
    {
        TableBuilder {
            name: name.to_owned(),
            key_format: None,
            value_format: None,
            _phantom: PhantomData,
        }
    }

    /// Set the key format; the last call wins.
    pub fn with_key_format(self, format: KF) -> (r: Self)
        ensures
            r.spec_name() == self.spec_name(),
            r.spec_key_format() == Some(format),
            r.spec_value_format() == self.spec_value_format(),
    {
        TableBuilder { key_format: Some(format), ..self }
    }

    /// Set the value format; the last call wins.
    pub fn with_value_format(self, format: VF) -> (r: Self)
        ensures
            r.spec_name() == self.spec_name(),
            r.spec_key_format() == self.spec_key_format(),
            r.spec_value_format() == Some(format),
    {
        TableBuilder { value_format: Some(format), ..self }
    }

    /// Build the table.  Fails with `MissingFormat` naming the key
    /// format when none is set, then the value format; with a
    /// `TableOperation` error on an empty table name; otherwise yields a
    /// table bound to the name and both formats.
    pub fn build(self, store: &RedbStorage) -> (r: Result<RedbTable<K, V, KF, VF>, StorageError>)
        ensures
            self.spec_key_format() is None ==> (r matches Err(StorageError::MissingFormat(m))
                && m@ == "Key format is required"@),
            self.spec_key_format() is Some && self.spec_value_format() is None ==> (r matches Err(
                StorageError::MissingFormat(m),
            ) && m@ == "Value format is required"@),
            self.spec_key_format() is Some && self.spec_value_format() is Some ==> (r is Ok <==>
                self.spec_name().len() > 0),
            r is Ok ==> {
                &&& r->Ok_0.name@ == self.spec_name()
                &&& Some(r->Ok_0.key_format) == self.spec_key_format()
                &&& Some(r->Ok_0.value_format) == self.spec_value_format()
            },
    {
        let TableBuilder { name, key_format, value_format, _phantom } = self;
        let key_format = match key_format {
            Some(f) => f,
            None => {
                return Err(StorageError::MissingFormat("Key format is required".to_owned()));
            },
        };
        let value_format = match value_format {
            Some(f) => f,
            None => {
                return Err(StorageError::MissingFormat("Value format is required".to_owned()));
            },
        };
        store.create_table(name.as_str(), key_format, value_format)
    }
}

} // verus!
