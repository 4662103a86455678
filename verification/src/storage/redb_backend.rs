//! Byte-level wrapper around the embedded transactional engine.
//!
//! `RedbBackend` is the only place the library touches the engine.  Its
//! contents are modelled as a map from table name to a byte-key/byte-value
//! map, and every operation is specified against that model.  Each
//! operation runs in one engine transaction.

use vstd::prelude::*;
use redb::ReadableDatabase;
use crate::storage::codec::IntoKeyBytes;
use crate::storage::error::StorageError;

verus! {

/// What one named table holds: byte keys to byte values.
pub type TableContents = Map<Seq<u8>, Seq<u8>>;

/// What the whole store holds: table names to their contents.  A name
/// absent from the map is a table that has never been created.
pub type StoreContents = Map<Seq<char>, TableContents>;

/// The contents of table `t` in store `s`, an empty map when the table
/// does not exist.
pub open spec fn table_of(s: StoreContents, t: Seq<char>) -> TableContents {
    if s.contains_key(t) {
        s[t]
    } else {
        Map::empty()
    }
}

/// The value stored under key `k` of table `t`, if any.
pub open spec fn store_lookup(s: StoreContents, t: Seq<char>, k: Seq<u8>) -> Option<Seq<u8>> {
    if s.contains_key(t) && s[t].contains_key(k) {
        Some(s[t][k])
    } else {
        None
    }
}

/// A store holding no tables at all.
pub open spec fn store_empty() -> StoreContents {
    Map::empty()
}

/// Whether table `t` holds key `k`.
pub open spec fn store_contains(s: StoreContents, t: Seq<char>, k: Seq<u8>) -> bool {
    s.contains_key(t) && s[t].contains_key(k)
}

/// The store after writing `v` under key `k` of table `t`, creating the
/// table when missing.
pub open spec fn store_put(s: StoreContents, t: Seq<char>, k: Seq<u8>, v: Seq<u8>) -> StoreContents {
    s.insert(t, table_of(s, t).insert(k, v))
}

/// The store after removing key `k` from table `t`.  The write
/// transaction creates the table when missing, so the table exists
/// afterwards either way.
pub open spec fn store_remove(s: StoreContents, t: Seq<char>, k: Seq<u8>) -> StoreContents {
    s.insert(t, table_of(s, t).remove(k))
}

/// The store after writing every pair of `items`, in order, into table
/// `t` within one transaction.  A later pair with the same key wins.
pub open spec fn store_put_all(
    s: StoreContents,
    t: Seq<char>,
    items: Seq<(Seq<u8>, Seq<u8>)>,
) -> StoreContents
    decreases items.len(),
{
    if items.len() == 0 {
        s.insert(t, table_of(s, t))
    } else {
        store_put_all(store_put(s, t, items[0].0, items[0].1), t, items.skip(1))
    }
}

#[verifier::external_type_specification]
#[verifier::external_body]
pub struct ExDatabase(redb::Database);

/// Byte-level database handle: named tables of byte keys and byte values.
/// One operation is one engine transaction.
pub struct RedbBackend {
    db: redb::Database,
}

/// The tables the handle's database holds, as a map from table name to
/// its byte-key/byte-value contents.  The trusted operations below say
/// how each engine call reads or transforms this map; nothing else is
/// assumed of the engine.
pub uninterp spec fn db_tables(b: &RedbBackend) -> StoreContents;

impl View for RedbBackend {
    type V = StoreContents;

    open spec fn view(&self) -> StoreContents {
        db_tables(self)
    }
}

impl RedbBackend {
    /// Open the file at `path` as a database, creating it when missing.
    /// Relies on `redb::Database::create`; an existing file keeps whatever
    /// tables it holds, so nothing is known of the contents afterwards.
    #[verifier::external_body]
    pub fn new(path: &str) -> (r: Result<Self, StorageError>) {
        match redb::Database::create(path) {
            Ok(db) => Ok(RedbBackend { db }),
            Err(e) => Err(StorageError::Database(format!("{e}"))),
        }
    }

    /// Open an existing database at `path`; fails when there is none.
    /// Relies on `redb::Database::open`; nothing is known of the contents
    /// afterwards.
    #[verifier::external_body]
    pub fn open(path: &str) -> (r: Result<Self, StorageError>) {
        match redb::Database::open(path) {
            Ok(db) => Ok(RedbBackend { db }),
            Err(e) => Err(StorageError::Database(format!("{e}"))),
        }
    }

    /// Read the value stored under `key` in table `table_name`, in one
    /// read transaction.  Relies on `redb`: a read transaction sees the
    /// committed contents, `ReadOnlyTable::get` returns the value stored
    /// under the key, and opening a table that does not exist fails.  The
    /// name must not be empty: the engine's table definition refuses it.
    #[verifier::external_body]
    pub fn get(&self, table_name: &str, key: &[u8]) -> (r: Result<Option<Vec<u8>>, StorageError>)
        requires
            table_name@.len() > 0,
        ensures
            !db_tables(self).contains_key(table_name@) ==> r is Err,
            match r {
                Ok(found) => match found {
                    Some(v) => store_lookup(db_tables(self), table_name@, key@) == Some(v@),
                    None => db_tables(self).contains_key(table_name@) && store_lookup(
                        db_tables(self),
                        table_name@,
                        key@,
                    ) is None,
                },
                Err(_) => true,
            },
    {
        let td: redb::TableDefinition<&[u8], &[u8]> = redb::TableDefinition::new(table_name);
        let txn = self.db.begin_read().map_err(|e| StorageError::Database(format!("{e}")))?;
        let table = txn.open_table(td).map_err(|e| StorageError::TableOperation(format!("{e}")))?;
        match table.get(key) {
            Ok(Some(guard)) => Ok(Some(guard.value().to_vec())),
            Ok(None) => Ok(None),
            Err(e) => Err(StorageError::Database(format!("{e}"))),
        }
    }

    /// Write `value` under `key` in table `table_name`, in one write
    /// transaction, creating the table when missing.  Relies on `redb`:
    /// `Table::insert` replaces any present value, and a commit applies
    /// the transaction atomically -- on an error the store holds either
    /// its prior contents or the fully applied transaction, never a part
    /// of it.
    #[verifier::external_body]
    pub fn set(&mut self, table_name: &str, key: &[u8], value: &[u8]) -> (r: Result<
        (),
        StorageError,
    >)
        requires
            table_name@.len() > 0,
        ensures
            r is Ok ==> db_tables(final(self)) == store_put(db_tables(old(self)), table_name@, key@, value@),
            r is Err ==> db_tables(final(self)) == db_tables(old(self)) || db_tables(final(self))
                == store_put(db_tables(old(self)), table_name@, key@, value@),
    {
        let td: redb::TableDefinition<&[u8], &[u8]> = redb::TableDefinition::new(table_name);
        let txn = self.db.begin_write().map_err(|e| StorageError::Database(format!("{e}")))?;
        {
            let mut table = txn.open_table(td).map_err(
                |e| StorageError::TableOperation(format!("{e}")),
            )?;
            table.insert(key, value).map_err(|e| StorageError::Database(format!("{e}")))?;
        }
        txn.commit().map_err(|e| StorageError::Database(format!("{e}")))
    }

    /// Remove `key` from table `table_name`, in one write transaction,
    /// and report whether the key was present.  Relies on `redb`:
    /// `Table::remove` returns the old value exactly when the key was
    /// present, a write transaction creates the table when missing, and a
    /// commit applies atomically as in `set`.
    #[verifier::external_body]
    pub fn remove(&mut self, table_name: &str, key: &[u8]) -> (r: Result<bool, StorageError>)
        requires
            table_name@.len() > 0,
        ensures
            r is Ok ==> r->Ok_0 == store_contains(db_tables(old(self)), table_name@, key@)
                && db_tables(final(self)) == store_remove(db_tables(old(self)), table_name@, key@),
            r is Err ==> db_tables(final(self)) == db_tables(old(self)) || db_tables(final(self))
                == store_remove(db_tables(old(self)), table_name@, key@),
    {
        let td: redb::TableDefinition<&[u8], &[u8]> = redb::TableDefinition::new(table_name);
        let txn = self.db.begin_write().map_err(|e| StorageError::Database(format!("{e}")))?;
        let existed = {
            let mut table = txn.open_table(td).map_err(
                |e| StorageError::TableOperation(format!("{e}")),
            )?;
            let old_value = table.remove(key).map_err(
                |e| StorageError::Database(format!("{e}")),
            )?;
            old_value.is_some()
        };
        txn.commit().map_err(|e| StorageError::Database(format!("{e}")))?;
        Ok(existed)
    }

    /// Write every pair of `items` into table `table_name` within one
    /// write transaction, creating the table when missing.  Relies on
    /// `redb` as in `set`; the loop only feeds each pair to
    /// `Table::insert`, so later pairs replace earlier ones with the same
    /// key, and the commit applies all of them atomically or none.
    #[verifier::external_body]
    pub fn put_batch(&mut self, table_name: &str, items: &Vec<(Vec<u8>, Vec<u8>)>) -> (r: Result<
        (),
        StorageError,
    >)
        requires
            table_name@.len() > 0,
        ensures
            r is Ok ==> db_tables(final(self)) == store_put_all(
                db_tables(old(self)),
                table_name@,
                items@.map_values(|p: (Vec<u8>, Vec<u8>)| (p.0@, p.1@)),
            ),
            r is Err ==> db_tables(final(self)) == db_tables(old(self)) || db_tables(final(self))
                == store_put_all(
                db_tables(old(self)),
                table_name@,
                items@.map_values(|p: (Vec<u8>, Vec<u8>)| (p.0@, p.1@)),
            ),
    {
        let td: redb::TableDefinition<&[u8], &[u8]> = redb::TableDefinition::new(table_name);
        let txn = self.db.begin_write().map_err(|e| StorageError::Database(format!("{e}")))?;
        {
            let mut table = txn.open_table(td).map_err(
                |e| StorageError::TableOperation(format!("{e}")),
            )?;
            for (key, value) in items {
                table.insert(key.as_slice(), value.as_slice()).map_err(
                    |e| StorageError::Database(format!("{e}")),
                )?;
            }
        }
        txn.commit().map_err(|e| StorageError::Database(format!("{e}")))
    }

    /// Delete every table, in one write transaction.  Relies on `redb`:
    /// `WriteTransaction::list_tables` yields a handle for each table and
    /// `delete_table` removes one; after deleting them all and
    /// committing, the store holds no tables.  The commit applies
    /// atomically as in `set`.
    #[verifier::external_body]
    pub fn clear_all_tables(&mut self) -> (r: Result<(), StorageError>)
        ensures
            r is Ok ==> db_tables(final(self)) == store_empty(),
            r is Err ==> db_tables(final(self)) == db_tables(old(self)) || db_tables(final(self))
                == store_empty(),
    {
        let txn = self.db.begin_write().map_err(|e| StorageError::Database(format!("{e}")))?;
        let handles: Vec<redb::UntypedTableHandle> = txn.list_tables().map_err(
            |e| StorageError::Database(format!("{e}")),
        )?.collect();
        for handle in handles {
            txn.delete_table(handle).map_err(|e| StorageError::TableOperation(format!("{e}")))?;
        }
        txn.commit().map_err(|e| StorageError::Database(format!("{e}")))
    }

    /// Compact the database file.  Relies on `redb::Database::compact`,
    /// which repacks the file without changing any table's contents.
    #[verifier::external_body]
    pub fn compact(&mut self) -> (r: Result<(), StorageError>)
        ensures
            r is Ok ==> db_tables(final(self)) == db_tables(old(self)),
            r is Err ==> db_tables(final(self)) == db_tables(old(self)),
    {
        match self.db.compact() {
            Ok(_) => Ok(()),
            Err(e) => Err(StorageError::Database(format!("{e}"))),
        }
    }

    /// Whether table `table_name` holds `key`, in one read transaction.
    pub fn contains_key(&self, table_name: &str, key: &[u8]) -> (r: Result<bool, StorageError>)
        requires
            table_name@.len() > 0,
        ensures
            !db_tables(self).contains_key(table_name@) ==> r is Err,
            r is Ok ==> r->Ok_0 == store_contains(self@, table_name@, key@),
    {
        match self.get(table_name, key)? {
            Some(_) => Ok(true),
            None => Ok(false),
        }
    }
}

/// A batch of writes against one table, committed in a single
/// transaction.
pub struct WriteBatch {
    table_name: String,
    buffer: Vec<(Vec<u8>, Vec<u8>)>,
}

impl WriteBatch {
    /// The table the batch will write to.
    pub closed spec fn spec_table_name(&self) -> Seq<char> {
        self.table_name@
    }

    /// The key/value pairs buffered so far, in order.
    pub closed spec fn spec_buffer(&self) -> Seq<(Seq<u8>, Seq<u8>)> {
        self.buffer@.map_values(|p: (Vec<u8>, Vec<u8>)| (p.0@, p.1@))
    }

    /// An empty batch against the named table.
    pub fn new(table_name: &str) -> (r: Self)
        ensures
            r.spec_table_name() == table_name@,
            r.spec_buffer() == Seq::<(Seq<u8>, Seq<u8>)>::empty(),
    {
        let r = WriteBatch { table_name: table_name.to_owned(), buffer: Vec::new() };
        proof {
            assert(r.spec_buffer() =~= Seq::<(Seq<u8>, Seq<u8>)>::empty());
        }
        r
    }

    /// Buffer one write: the encoded key and the given value bytes.
    pub fn put_raw<K: IntoKeyBytes>(&mut self, key: &K, value_bytes: Vec<u8>) -> (r: Result<
        (),
        StorageError,
    >)
        ensures
            r is Ok,
            final(self).spec_table_name() == old(self).spec_table_name(),
            final(self).spec_buffer() == old(self).spec_buffer().push(
                (key.spec_key_bytes(), value_bytes@),
            ),
    {
        let key_bytes = key.into_key_bytes();
        let ghost before = self.buffer@;
        self.buffer.push((key_bytes, value_bytes));
        proof {
            assert(final(self).spec_buffer() =~= old(self).spec_buffer().push(
                (key.spec_key_bytes(), value_bytes@),
            ));
        }
        Ok(())
    }

    /// Commit the batch: all buffered writes are applied to the table
    /// in order within one transaction, or none are (a failed commit
    /// may also have fully applied).
    pub fn commit(self, db: &mut RedbBackend) -> (r: Result<(), StorageError>)
        ensures
            r is Ok ==> db_tables(final(db)) == store_put_all(
                db_tables(old(db)),
                self.spec_table_name(),
                self.spec_buffer(),
            ),
            r is Err ==> db_tables(final(db)) == db_tables(old(db)) || db_tables(final(db))
                == store_put_all(
                db_tables(old(db)),
                self.spec_table_name(),
                self.spec_buffer(),
            ),
            self.spec_table_name().len() == 0 ==> r is Err && db_tables(final(db)) == db_tables(
                old(db),
            ),
    {
        if self.table_name.as_str().is_empty() {
            return Err(StorageError::TableOperation("Table name cannot be empty".to_owned()));
        }
        db.put_batch(self.table_name.as_str(), &self.buffer)
    }
}

} // verus!
