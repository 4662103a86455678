use typedstore::storage::builder::Storage;
use typedstore::storage::codec::IntoKeyBytes;
use typedstore::storage::formats::KeyFormat;
use typedstore::storage::formats::{StringKeyFormat, U64KeyFormat};
use typedstore::storage::formats::flatbuffers::FlatbuffersFormat;
use typedstore::storage::record::Record;

#[test]
fn test_storage_imports() {
    let dir = tempfile::tempdir().unwrap();
    let path = dir.path().join("test.db");

    // Test that we can create a Storage instance
    let storage = Storage::new(path.to_str().unwrap()).unwrap();

    // Test that we can create a table builder
    let _table = storage
        .new_table::<String, Record, StringKeyFormat, FlatbuffersFormat>("test_table");

    println!("✓ Storage imports working");
}

#[test]
fn test_key_conversion() {
    // Test string key conversion
    let str_key = "test_key";
    let str_bytes = str_key.into_key_bytes();
    assert_eq!(str_bytes.as_slice(), b"test_key");

    // Test u64 key conversion
    let num_key = 42u64;
    let num_bytes = num_key.into_key_bytes();
    assert_eq!(num_bytes.as_slice(), &42u64.to_le_bytes());

    println!("✓ Key conversion working");
}

#[test]
fn test_u64_key_format_round_trip() {
    let fmt = U64KeyFormat;
    let bytes = fmt.to_bytes(&7_000_000_001u64).unwrap();
    assert_eq!(bytes.len(), 8);
    let back: u64 = fmt.from_bytes(bytes.as_slice()).unwrap();
    assert_eq!(back, 7_000_000_001u64);
    assert!(fmt.from_bytes(&[1, 2, 3]).is_err());
}

#[test]
fn test_string_key_format_round_trip() {
    let fmt = StringKeyFormat;
    let key = String::from("naïve key 🌍");
    let bytes = fmt.to_bytes(&key).unwrap();
    let back: String = fmt.from_bytes(bytes.as_slice()).unwrap();
    assert_eq!(back, key);
    // invalid UTF-8 is rejected
    assert!(fmt.from_bytes(&[0xff, 0xfe]).is_err());
}
