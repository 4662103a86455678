use typedstore::storage::record::{FieldValue, Record};
use typedstore::storage::serializers::{access_rkyv_safe, access_rkyv_unsafe, serialize_rkyv};

fn test_user(id: u64, name: &str, active: bool) -> Record {
    let mut user = Record::new();
    user.push_field("id", FieldValue::U64(id));
    user.push_field("name", FieldValue::Text(name.to_string()));
    user.push_field("active", FieldValue::Bool(active));
    user
}

#[test]
fn test_simple_rkyv() {
    let user = test_user(123, "Alice", true);

    // Serialize into the archived representation
    let bytes = serialize_rkyv(&user).unwrap();
    println!("Serialized {} bytes", bytes.len());

    // Deserialize with zero-copy access
    let archived = access_rkyv_unsafe(&bytes);

    // Test zero-copy access
    assert_eq!(archived.u64_field(0), 123);
    assert_eq!(archived.text_field(1), "Alice");
    assert_eq!(archived.bool_field(2), true);

    println!("✅ rkyv zero-copy test passed!");
    println!("Name: {} (zero-copy &str)", archived.text_field(1));
    println!("ID: {} (direct u64)", archived.u64_field(0));
}

#[test]
fn test_rkyv_with_validation() {
    let user = test_user(42, "Bob", false);

    let bytes = serialize_rkyv(&user).unwrap();

    // Safe validated access
    let archived = access_rkyv_safe(&bytes).unwrap();

    assert_eq!(archived.u64_field(0), 42);
    assert_eq!(archived.text_field(1), "Bob");
    assert_eq!(archived.bool_field(2), false);

    println!("✅ rkyv with validation test passed!");
}

#[test]
fn test_rkyv_validation_rejects_corrupt_bytes() {
    let user = test_user(9, "Mallory", true);
    let mut bytes = serialize_rkyv(&user).unwrap();

    // Truncated buffers and corrupted tags must fail validation,
    // never panic.
    assert!(access_rkyv_safe(&bytes[..bytes.len() - 1]).is_err());
    assert!(access_rkyv_safe(&[]).is_err());
    bytes[4] = 7; // unknown tag
    assert!(access_rkyv_safe(&bytes).is_err());
}

#[test]
fn test_rkyv_unicode_payload() {
    let user = test_user(7, "héllo 🌍", true);
    let bytes = serialize_rkyv(&user).unwrap();
    let archived = access_rkyv_safe(&bytes).unwrap();
    assert_eq!(archived.text_field(1), "héllo 🌍");
}
