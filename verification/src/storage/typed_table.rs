//! Type-safe table access over the byte-level backend.
//!
//! A `TypedTable` binds a table name, a key encoding and a value
//! serializer; every operation is one backend transaction on the encoded
//! bytes.

use vstd::prelude::*;
use std::marker::PhantomData;
use crate::storage::codec::{IntoKeyBytes, JsonSerializer, ValueSerializer};
use crate::storage::error::StorageError;
use crate::storage::redb_backend::{
    RedbBackend,
    StoreContents,
    store_contains,
    store_lookup,
    store_put,
    store_remove,
};

verus! {

/// Type-safe table wrapper: a table name, a key encoding chosen by `K`,
/// and a value serializer `S` for values of type `V`.
pub struct TypedTable<K: IntoKeyBytes, V: View, S: ValueSerializer<V>> {
    table_name: String,
    serializer: S,
    _phantom: PhantomData<(K, V)>,
}

impl<K: IntoKeyBytes, V: View, S: ValueSerializer<V>> TypedTable<K, V, S> {
    /// The name of the table this handle addresses.
    pub closed spec fn spec_table_name(&self) -> Seq<char> {
        self.table_name@
    }

    /// The serializer this handle encodes values with.
    pub closed spec fn spec_serializer(&self) -> S {
        self.serializer
    }

    /// A handle on the named table.  The handle holds no resource; the
    /// backend is passed to each operation.
    pub fn new(table_name: &str, serializer: S) -> (r: Self)
        ensures
            r.spec_table_name() == table_name@,
            r.spec_serializer() == serializer,
    {
        TypedTable { table_name: table_name.to_owned(), serializer, _phantom: PhantomData }
    }

    /// Get the value stored under `key`, deserialized; `None` when the
    /// key is absent.  Fails when the table has never been created, when
    /// the stored bytes do not deserialize, or when the engine fails.
    pub fn get(&self, db: &RedbBackend, key: &K) -> (r: Result<Option<V>, StorageError>)
        ensures
            !db@.contains_key(self.spec_table_name()) ==> r is Err,
            match r {
                Ok(found) => match found {
                    Some(v) => {
                        &&& store_lookup(db@, self.spec_table_name(), key.spec_key_bytes())
                            is Some
                        &&& self.spec_serializer().spec_deserializes_to(
                            store_lookup(db@, self.spec_table_name(), key.spec_key_bytes())->0,
                            v,
                        )
                    },
                    None => db@.contains_key(self.spec_table_name()) && store_lookup(
                        db@,
                        self.spec_table_name(),
                        key.spec_key_bytes(),
                    ) is None,
                },
                Err(_) => true,
            },
    {
        if self.table_name.as_str().is_empty() {
            return Err(StorageError::TableOperation("Table name cannot be empty".to_owned()));
        }
        let key_bytes = key.into_key_bytes();
        match db.get(self.table_name.as_str(), key_bytes.as_slice())? {
            Some(value_bytes) => {
                let v = self.serializer.deserialize(value_bytes.as_slice())?;
                Ok(Some(v))
            },
            None => Ok(None),
        }
    }

    /// Insert or update the value stored under `key`.  A value the
    /// serializer cannot encode fails before any transaction is begun and
    /// changes nothing; otherwise the write commits atomically.
    pub fn set(&self, db: &mut RedbBackend, key: &K, value: &V) -> (r: Result<(), StorageError>)
        ensures
            r is Ok ==> self.spec_serializer().spec_serialize(*value) is Some && db_after_set(
                old(db)@,
                final(db)@,
                self.spec_table_name(),
                key.spec_key_bytes(),
                self.spec_serializer().spec_serialize(*value)->0,
            ),
            r is Err ==> final(db)@ == old(db)@ || (
            self.spec_serializer().spec_serialize(*value) is Some && db_after_set(
                old(db)@,
                final(db)@,
                self.spec_table_name(),
                key.spec_key_bytes(),
                self.spec_serializer().spec_serialize(*value)->0,
            )),
            self.spec_serializer().spec_serialize(*value) is None ==> r is Err && final(db)@
                == old(db)@,
    {
        if self.table_name.as_str().is_empty() {
            return Err(StorageError::TableOperation("Table name cannot be empty".to_owned()));
        }
        let key_bytes = key.into_key_bytes();
        let value_bytes = self.serializer.serialize(value)?;
        db.set(self.table_name.as_str(), key_bytes.as_slice(), value_bytes.as_slice())
    }

    /// Remove the value stored under `key`; report whether the key was
    /// present.  Removing an absent key is a no-op that reports `false`.
    pub fn remove(&self, db: &mut RedbBackend, key: &K) -> (r: Result<bool, StorageError>)
        ensures
            r is Ok ==> r->Ok_0 == store_contains(
                old(db)@,
                self.spec_table_name(),
                key.spec_key_bytes(),
            ) && final(db)@ == store_remove(
                old(db)@,
                self.spec_table_name(),
                key.spec_key_bytes(),
            ),
            r is Err ==> final(db)@ == old(db)@ || final(db)@ == store_remove(
                old(db)@,
                self.spec_table_name(),
                key.spec_key_bytes(),
            ),
    {
        if self.table_name.as_str().is_empty() {
            return Err(StorageError::TableOperation("Table name cannot be empty".to_owned()));
        }
        let key_bytes = key.into_key_bytes();
        db.remove(self.table_name.as_str(), key_bytes.as_slice())
    }

    /// Whether the table holds `key`.  Fails when the table has never
    /// been created or the engine fails.
    pub fn contains_key(&self, db: &RedbBackend, key: &K) -> (r: Result<bool, StorageError>)
        ensures
            !db@.contains_key(self.spec_table_name()) ==> r is Err,
            r is Ok ==> r->Ok_0 == store_contains(
                db@,
                self.spec_table_name(),
                key.spec_key_bytes(),
            ),
    {
        if self.table_name.as_str().is_empty() {
            return Err(StorageError::TableOperation("Table name cannot be empty".to_owned()));
        }
        let key_bytes = key.into_key_bytes();
        db.contains_key(self.table_name.as_str(), key_bytes.as_slice())
    }
}

impl<K: IntoKeyBytes, V: View> TypedTable<K, V, JsonSerializer> where JsonSerializer: ValueSerializer<V> {
    /// A handle on the named table with JSON serialization.
    pub fn json(table_name: &str) -> (r: Self)
        ensures
            r.spec_table_name() == table_name@,
            r.spec_serializer() == JsonSerializer,
    {
        TypedTable::new(table_name, JsonSerializer)
    }
}

/// What one committed typed write does to the store.
pub open spec fn db_after_set(
    before: StoreContents,
    after: StoreContents,
    t: Seq<char>,
    k: Seq<u8>,
    v: Seq<u8>,
) -> bool {
    after == store_put(before, t, k, v)
}

/// Last write wins, with nothing left of the first value: writing `v1`
/// and then `v2` under one key, then reading that key back and
/// deserializing, yields exactly `v2` (up to its view), whatever the
/// store held before.
pub proof fn lemma_put_put_get<V: View, S: ValueSerializer<V>>(
    ser: &S,
    s: StoreContents,
    t: Seq<char>,
    kb: Seq<u8>,
    v1: V,
    v2: V,
    got: V,
)
    requires
        ser.spec_serialize(v1) is Some,
        ser.spec_serialize(v2) is Some,
        ser.spec_deserializes_to(
            store_lookup(
                store_put(store_put(s, t, kb, ser.spec_serialize(v1)->0), t, kb, ser.spec_serialize(
                    v2,
                )->0),
                t,
                kb,
            )->0,
            got,
        ),
    ensures
        got@ == v2@,
{
    let b2 = ser.spec_serialize(v2)->0;
    let after = store_put(store_put(s, t, kb, ser.spec_serialize(v1)->0), t, kb, b2);
    assert(store_lookup(after, t, kb) == Some(b2));
    ser.lemma_round_trip(v2);
    ser.lemma_deserialize_unique(b2, got, v2);
}

/// Delete semantics: removing a key leaves every other key of every
/// table unchanged; the removed key reads back as absent; and on a key
/// that was absent, no lookup anywhere changes at all.
pub proof fn lemma_delete_semantics(s: StoreContents, t: Seq<char>, k: Seq<u8>)
    ensures
        store_lookup(store_remove(s, t, k), t, k) is None,
        forall|t2: Seq<char>, k2: Seq<u8>|
            !(t2 == t && k2 == k) ==> #[trigger] store_lookup(store_remove(s, t, k), t2, k2)
                == store_lookup(s, t2, k2),
        !store_contains(s, t, k) ==> forall|t2: Seq<char>, k2: Seq<u8>|
            #[trigger] store_lookup(store_remove(s, t, k), t2, k2) == store_lookup(s, t2, k2),
{
}

} // verus!
