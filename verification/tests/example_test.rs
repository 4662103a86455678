use typedstore::storage::example::{Customer, CustomerStore};

#[test]
fn test_complete_customer_store_example() {
    let temp_dir = tempfile::tempdir().unwrap();
    let db_path = temp_dir.path().join("customer_store.db");

    let mut store = CustomerStore::new(db_path.to_str().unwrap()).unwrap();

    // Create a customer
    let customer = Customer {
        id: 1,
        name: "Alice Johnson".to_string(),
        email: "alice@example.com".to_string(),
        created_at: 1691280000, // Unix timestamp
        active: true,
    };

    // Add customer
    store.add_customer(&customer).unwrap();

    // Retrieve customer
    let retrieved = store.get_customer(1).unwrap();
    assert_eq!(retrieved, Some(customer.clone()));

    // Update customer
    let mut updated_customer = customer.clone();
    updated_customer.email = "alice.johnson@example.com".to_string();
    store.update_customer(&updated_customer).unwrap();

    let retrieved_updated = store.get_customer(1).unwrap();
    assert_eq!(retrieved_updated, Some(updated_customer));

    // Settings
    store.set_setting("app.version", "1.0.0").unwrap();
    store.set_setting("feature.new_ui", "enabled").unwrap();

    let version = store.get_setting("app.version").unwrap();
    assert_eq!(version, Some("1.0.0".to_string()));

    let ui_feature = store.get_setting("feature.new_ui").unwrap();
    assert_eq!(ui_feature, Some("enabled".to_string()));

    // Test removal
    let removed = store.remove_customer(1).unwrap();
    assert!(removed);

    let after_removal = store.get_customer(1).unwrap();
    assert_eq!(after_removal, None);

    println!("✅ Complete customer store example test passed!");
    println!("📊 Demonstrated:");
    println!("  - Customer CRUD operations");
    println!("  - Settings with string keys");
    println!("  - Multiple tables in same database");
    println!("  - Type-safe JSON serialization");
}

#[test]
fn test_customer_reopen_persists() {
    let temp_dir = tempfile::tempdir().unwrap();
    let db_path = temp_dir.path().join("persist.db");

    let customer = Customer {
        id: 9,
        name: "Dana".to_string(),
        email: "dana@example.com".to_string(),
        created_at: 1700000000,
        active: false,
    };
    {
        let mut store = CustomerStore::new(db_path.to_str().unwrap()).unwrap();
        store.add_customer(&customer).unwrap();
    }
    let store = CustomerStore::open(db_path.to_str().unwrap()).unwrap();
    assert_eq!(store.get_customer(9).unwrap(), Some(customer));
}

#[test]
fn test_redb_backend_basic() {
    let temp_dir = tempfile::tempdir().unwrap();
    let db_path = temp_dir.path().join("test.db");

    let mut store = CustomerStore::new(db_path.to_str().unwrap()).unwrap();

    let customer = Customer {
        id: 999,
        name: "Alice".to_string(),
        email: "alice@example.com".to_string(),
        created_at: 1691280000,
        active: true,
    };

    store.add_customer(&customer).unwrap();
    let retrieved = store.get_customer(999).unwrap().unwrap();
    assert_eq!(retrieved.id, 999);
    assert_eq!(retrieved.name, "Alice");
    assert_eq!(retrieved.email, "alice@example.com");
    assert_eq!(retrieved.active, true);
    assert!(store.remove_customer(999).unwrap());

    println!("✅ redb backend basic operations test passed!");
}

#[test]
fn test_multiple_tables() {
    let temp_dir = tempfile::tempdir().unwrap();
    let db_path = temp_dir.path().join("test_multi.db");

    let mut store = CustomerStore::new(db_path.to_str().unwrap()).unwrap();

    // users table
    let customer = Customer {
        id: 3,
        name: "Charlie".to_string(),
        email: "charlie@example.com".to_string(),
        created_at: 1691280000,
        active: true,
    };
    store.add_customer(&customer).unwrap();

    // settings table in the same database
    store.set_setting("theme", "dark").unwrap();

    assert_eq!(store.get_customer(3).unwrap(), Some(customer));
    assert_eq!(store.get_setting("theme").unwrap(), Some("dark".to_string()));

    println!("✅ Multiple tables test passed!");
}

#[test]
fn test_string_keys() {
    let temp_dir = tempfile::tempdir().unwrap();
    let db_path = temp_dir.path().join("test_string_keys.db");

    let mut store = CustomerStore::new(db_path.to_str().unwrap()).unwrap();

    store.set_setting("database.host", "localhost").unwrap();
    store.set_setting("database.port", "5432").unwrap();
    store.set_setting("app.name", "MyApp").unwrap();

    assert_eq!(store.get_setting("database.host").unwrap(), Some("localhost".to_string()));
    assert_eq!(store.get_setting("database.port").unwrap(), Some("5432".to_string()));
    assert_eq!(store.get_setting("app.name").unwrap(), Some("MyApp".to_string()));

    println!("✅ String keys test passed!");
}

#[test]
fn test_open_missing_store_fails() {
    let temp_dir = tempfile::tempdir().unwrap();
    let db_path = temp_dir.path().join("never_created.db");
    // open (unlike new) refuses a path with no database behind it
    match CustomerStore::open(db_path.to_str().unwrap()) {
        Err(typedstore::storage::error::StorageError::Database(_)) => {}
        other => panic!("expected a database error, got {:?}", other.map(|_| ())),
    }
}
