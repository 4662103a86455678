use typedstore::storage::builder::{Storage, StorageBuilder};
use typedstore::storage::codec::{JsonRecordSerializer, JsonSerializer};
use typedstore::storage::config::{DatabaseBackend, Recreate, StorageConfig};
use typedstore::storage::error::StorageError;
use typedstore::storage::formats::rkyv::RkyvFormat;
use typedstore::storage::formats::U64KeyFormat;
use typedstore::storage::record::{FieldKind, FieldValue, Record, Schema};
use typedstore::storage::redb_backend::{RedbBackend, WriteBatch};
use typedstore::storage::serializers::access_rkyv_safe;
use typedstore::storage::table::Table;
use typedstore::storage::typed_table::TypedTable;

fn user_schema() -> Schema {
    let mut schema = Schema::new();
    schema.push_field("id", FieldKind::U64);
    schema.push_field("name", FieldKind::Text);
    schema.push_field("active", FieldKind::Bool);
    schema
}

fn user(id: u64, name: &str, active: bool) -> Record {
    let mut rec = Record::new();
    rec.push_field("id", FieldValue::U64(id));
    rec.push_field("name", FieldValue::Text(name.to_string()));
    rec.push_field("active", FieldValue::Bool(active));
    rec
}

/// Table "users": u64 fixed-width keys, JSON values of
/// `{id, name, active}`; puts, overwrites, deletes.
#[test]
fn test_users_table_scenario() {
    let dir = tempfile::tempdir().unwrap();
    let path = dir.path().join("users.db");
    let mut db = RedbBackend::new(path.to_str().unwrap()).unwrap();

    let users: TypedTable<u64, Record, JsonRecordSerializer> =
        TypedTable::new("users", JsonRecordSerializer::new(user_schema()));

    users.set(&mut db, &1, &user(1, "Alice", true)).unwrap();
    assert_eq!(users.get(&db, &1).unwrap(), Some(user(1, "Alice", true)));

    users.set(&mut db, &1, &user(1, "Alice2", false)).unwrap();
    assert_eq!(users.get(&db, &1).unwrap(), Some(user(1, "Alice2", false)));

    assert_eq!(users.remove(&mut db, &1).unwrap(), true);
    assert_eq!(users.get(&db, &1).unwrap(), None);
    assert_eq!(users.remove(&mut db, &1).unwrap(), false);
}

/// Last write wins and delete semantics on a present and an absent key.
#[test]
fn test_put_and_delete_semantics() {
    let dir = tempfile::tempdir().unwrap();
    let path = dir.path().join("semantics.db");
    let mut db = RedbBackend::new(path.to_str().unwrap()).unwrap();

    let settings: TypedTable<String, String, JsonSerializer> = TypedTable::json("settings");

    // deleting an absent key is a no-op reporting false
    settings.set(&mut db, &"seed".to_string(), &"x".to_string()).unwrap();
    assert_eq!(settings.remove(&mut db, &"absent".to_string()).unwrap(), false);
    assert_eq!(settings.get(&db, &"seed".to_string()).unwrap(), Some("x".to_string()));

    // last write wins, no residue of the first value
    settings.set(&mut db, &"theme".to_string(), &"light".to_string()).unwrap();
    settings.set(&mut db, &"theme".to_string(), &"dark".to_string()).unwrap();
    assert_eq!(settings.get(&db, &"theme".to_string()).unwrap(), Some("dark".to_string()));

    // deleting a present key reports true and leaves the key absent
    assert_eq!(settings.remove(&mut db, &"theme".to_string()).unwrap(), true);
    assert_eq!(settings.get(&db, &"theme".to_string()).unwrap(), None);
    assert_eq!(settings.contains_key(&db, &"seed".to_string()).unwrap(), true);
    assert_eq!(settings.contains_key(&db, &"theme".to_string()).unwrap(), false);
}

/// Table "events" with archive-format values: three records written,
/// the middle one read back through validated zero-copy access.
#[test]
fn test_events_zero_copy_scenario() {
    let dir = tempfile::tempdir().unwrap();
    let path = dir.path().join("events.db");
    let mut storage = Storage::new(path.to_str().unwrap()).unwrap();

    let events = storage
        .new_table::<u64, Record, U64KeyFormat, RkyvFormat>("events")
        .with_key_format(U64KeyFormat)
        .with_value_format(RkyvFormat)
        .build(storage.backend())
        .unwrap();

    let payloads = ["first", "second", "third"];
    for seq in 1u64..=3 {
        let mut event = Record::new();
        event.push_field("seq", FieldValue::U64(seq));
        event.push_field("payload", FieldValue::Text(payloads[(seq - 1) as usize].to_string()));
        events.put(&mut storage.backend, &seq, &event).unwrap();
    }

    // read back seq 2 via validated access: the payload is exactly what
    // was written, with no decode of seq 1 or seq 3
    let stored = events.get(&storage.backend, &2).unwrap().unwrap();
    let archived = access_rkyv_safe(&stored).unwrap();
    assert_eq!(archived.u64_field(0), 2);
    assert_eq!(archived.text_field(1), "second");
}

/// Builder completeness: a missing value format and a missing key
/// format each fail loudly, naming the absent format.
#[test]
fn test_table_builder_missing_formats() {
    let dir = tempfile::tempdir().unwrap();
    let path = dir.path().join("builder.db");
    let storage = Storage::new(path.to_str().unwrap()).unwrap();

    let only_key = storage
        .new_table::<u64, Record, U64KeyFormat, RkyvFormat>("partial")
        .with_key_format(U64KeyFormat)
        .build(storage.backend());
    match only_key {
        Err(StorageError::MissingFormat(m)) => assert_eq!(m, "Value format is required"),
        other => panic!("expected a missing value format error, got {:?}", other.map(|_| ())),
    }

    let only_value = storage
        .new_table::<u64, Record, U64KeyFormat, RkyvFormat>("partial")
        .with_value_format(RkyvFormat)
        .build(storage.backend());
    match only_value {
        Err(StorageError::MissingFormat(m)) => assert_eq!(m, "Key format is required"),
        other => panic!("expected a missing key format error, got {:?}", other.map(|_| ())),
    }

    let both = storage
        .new_table::<u64, Record, U64KeyFormat, RkyvFormat>("complete")
        .with_key_format(U64KeyFormat)
        .with_value_format(RkyvFormat)
        .build(storage.backend());
    assert!(both.is_ok());
}

/// Recreation policy: `Always` destroys the existing contents,
/// `IfMissing` keeps them.
#[test]
fn test_recreation_policy() {
    let dir = tempfile::tempdir().unwrap();
    let path = dir.path().join("recreate.db");
    let key = "k1".to_string();

    {
        let mut storage = StorageBuilder::new(path.to_str().unwrap())
            .with_backend(DatabaseBackend::Redb)
            .with_recreate(Recreate::IfMissing)
            .build()
            .unwrap();
        let table: TypedTable<String, String, JsonSerializer> = TypedTable::json("data");
        table.set(&mut storage.backend.db, &key, &"original".to_string()).unwrap();
    }

    // rebuilding with IfMissing keeps the original value
    {
        let storage = StorageBuilder::new(path.to_str().unwrap())
            .with_recreate(Recreate::IfMissing)
            .build()
            .unwrap();
        let table: TypedTable<String, String, JsonSerializer> = TypedTable::json("data");
        assert_eq!(
            table.get(&storage.backend.db, &key).unwrap(),
            Some("original".to_string())
        );
    }

    // rebuilding with Always destroys it
    {
        let mut storage = StorageBuilder::new(path.to_str().unwrap())
            .with_recreate(Recreate::Always)
            .build()
            .unwrap();
        let table: TypedTable<String, String, JsonSerializer> = TypedTable::json("data");
        // recreate the table so the lookup itself succeeds
        table.set(&mut storage.backend.db, &"k2".to_string(), &"other".to_string()).unwrap();
        assert_eq!(table.get(&storage.backend.db, &key).unwrap(), None);
    }
}

/// An invalid configuration fails before the backend is touched.
#[test]
fn test_invalid_configuration() {
    let err = StorageBuilder::new("").build();
    match err {
        Err(StorageError::InvalidConfiguration(m)) => {
            assert_eq!(m, "Database path cannot be empty")
        },
        other => panic!("expected an invalid configuration error, got {:?}", other.map(|_| ())),
    }
    assert!(StorageConfig::new("").validate().is_err());
    assert!(StorageConfig::new("somewhere.db").validate().is_ok());
}

/// A write batch applies all its writes in one transaction; a later
/// pair with the same key wins.
#[test]
fn test_write_batch() {
    let dir = tempfile::tempdir().unwrap();
    let path = dir.path().join("batch.db");
    let mut db = RedbBackend::new(path.to_str().unwrap()).unwrap();

    let mut batch = WriteBatch::new("direct_test");
    batch.put_raw(&42u64, b"Hello, World!".to_vec()).unwrap();
    batch.put_raw(&7u64, b"first".to_vec()).unwrap();
    batch.put_raw(&7u64, b"second".to_vec()).unwrap();
    batch.commit(&mut db).unwrap();

    let key42 = 42u64.to_le_bytes();
    assert_eq!(db.get("direct_test", &key42).unwrap(), Some(b"Hello, World!".to_vec()));
    let key7 = 7u64.to_le_bytes();
    assert_eq!(db.get("direct_test", &key7).unwrap(), Some(b"second".to_vec()));
    assert_eq!(db.contains_key("direct_test", &[0u8; 8]).unwrap(), false);
}

/// Compaction keeps every table's contents.
#[test]
fn test_compact_preserves_contents() {
    let dir = tempfile::tempdir().unwrap();
    let path = dir.path().join("compact.db");
    let mut storage = Storage::new(path.to_str().unwrap()).unwrap();

    let table: TypedTable<u64, String, JsonSerializer> = TypedTable::json("notes");
    table.set(&mut storage.backend.db, &5, &"keep me".to_string()).unwrap();
    storage.compact().unwrap();
    assert_eq!(table.get(&storage.backend.db, &5).unwrap(), Some("keep me".to_string()));
}

/// The error taxonomy renders kind-prefixed messages.
#[test]
fn test_error_messages() {
    let e = StorageError::MissingFormat("Key format is required".to_string());
    assert_eq!(e.message(), "Missing format: Key format is required");
    let e = StorageError::Database("boom".to_string());
    assert_eq!(e.message(), "Database error: boom");
    let e = StorageError::Deserialization("bad bytes".to_string());
    assert_eq!(e.message(), "Deserialization error: bad bytes");
}

#[test]
fn test_direct_backend_api() {
    let dir = tempfile::tempdir().unwrap();
    let path = dir.path().join("test_direct.db");
    let mut db = RedbBackend::new(path.to_str().unwrap()).unwrap();

    let key = 42u64.to_le_bytes();
    db.set("direct_test", &key, b"Hello, World!").unwrap();

    assert_eq!(db.get("direct_test", &key).unwrap(), Some(b"Hello, World!".to_vec()));
    assert!(db.contains_key("direct_test", &key).unwrap());
    assert!(db.remove("direct_test", &key).unwrap());
    assert_eq!(db.get("direct_test", &key).unwrap(), None);
    assert!(!db.remove("direct_test", &key).unwrap());

    println!("✅ Direct backend API test passed!");
}

/// An empty table name is refused by every operation, since the engine
/// cannot address such a table.
#[test]
fn test_empty_table_name_rejected() {
    let dir = tempfile::tempdir().unwrap();
    let path = dir.path().join("empty_name.db");
    let mut db = RedbBackend::new(path.to_str().unwrap()).unwrap();

    let table: TypedTable<u64, String, JsonSerializer> = TypedTable::json("");
    match table.set(&mut db, &1, &"v".to_string()) {
        Err(StorageError::TableOperation(m)) => assert_eq!(m, "Table name cannot be empty"),
        other => panic!("expected a table operation error, got {:?}", other.map(|_| ())),
    }
    assert!(table.get(&db, &1).is_err());

    let storage = Storage::new(dir.path().join("empty2.db").to_str().unwrap()).unwrap();
    let built = storage
        .new_table::<u64, Record, U64KeyFormat, RkyvFormat>("")
        .with_key_format(U64KeyFormat)
        .with_value_format(RkyvFormat)
        .build(storage.backend());
    assert!(matches!(built, Err(StorageError::TableOperation(_))));
}
