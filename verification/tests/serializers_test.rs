use typedstore::storage::record::{FieldValue, Record};
use typedstore::storage::serializers::{access_rkyv_unsafe, read_rkyv, RkyvSerializer, FlatbuffersSerializer};

#[test]
fn test_rkyv_serializer() {
    let mut serializer = RkyvSerializer::new();

    let mut user = Record::new();
    user.push_field("id", FieldValue::U64(123));
    user.push_field("name", FieldValue::Text("Alice".to_string()));
    user.push_field("age", FieldValue::U64(30));
    user.push_field("active", FieldValue::Bool(true));

    // Serialize
    let bytes = serializer.serialize(&user).unwrap().to_vec();
    println!("Serialized {} bytes", bytes.len());

    // Deserialize with zero-copy access
    let archived = access_rkyv_unsafe(&bytes);

    // Direct field access - TRUE ZERO COPY
    assert_eq!(archived.u64_field(0), 123);
    assert_eq!(archived.text_field(1), "Alice");
    assert_eq!(archived.u64_field(2), 30);
    assert_eq!(archived.bool_field(3), true);

    println!("✅ rkyv zero-copy access works!");
    println!("Name: {} (zero-copy &str)", archived.text_field(1));
    println!("ID: {} (direct u64)", archived.u64_field(0));
}

#[test]
fn test_rkyv_serializer_buffer_reuse() {
    let mut serializer = RkyvSerializer::with_capacity(1024);

    let mut first = Record::new();
    first.push_field("id", FieldValue::U64(1));
    first.push_field("name", FieldValue::Text("Alice".to_string()));
    let first_copy = serializer.serialize_to_vec(&first).unwrap();

    let mut second = Record::new();
    second.push_field("id", FieldValue::U64(2));
    second.push_field("name", FieldValue::Text("Bob".to_string()));
    let second_bytes = serializer.serialize(&second).unwrap();

    // The buffer now holds the second record; the copied-out bytes of
    // the first are unaffected.
    let view_second = access_rkyv_unsafe(second_bytes);
    assert_eq!(view_second.u64_field(0), 2);
    let view_first = access_rkyv_unsafe(&first_copy);
    assert_eq!(view_first.u64_field(0), 1);
    assert_eq!(view_first.text_field(1), "Alice");
}

#[test]
fn test_read_rkyv_modes() {
    let mut rec = Record::new();
    rec.push_field("seq", FieldValue::U64(5));
    rec.push_field("payload", FieldValue::Text("data".to_string()));
    let bytes = typedstore::storage::serializers::serialize_rkyv(&rec).unwrap();

    // Validated and unchecked access agree on well-formed input.
    let validated = read_rkyv(&bytes, true).unwrap();
    let unchecked = read_rkyv(&bytes, false).unwrap();
    assert_eq!(validated.u64_field(0), unchecked.u64_field(0));
    assert_eq!(validated.text_field(1), unchecked.text_field(1));
    assert_eq!(validated.field_count(), 2);

    // An owned copy clones through the accessor.
    let copied = validated.field(1);
    assert_eq!(copied, FieldValue::Text("data".to_string()));
}

#[test]
fn test_rkyv_rejects_string_lists() {
    let mut rec = Record::new();
    rec.push_field("items", FieldValue::List(vec!["a".to_string()]));
    assert!(matches!(
        typedstore::storage::serializers::serialize_rkyv(&rec),
        Err(typedstore::storage::error::StorageError::Serialization(_))
    ));
}

#[test]
fn test_flatbuffers_serializer_passthrough() {
    let serializer = FlatbuffersSerializer::new();
    let raw = vec![1u8, 2, 3, 4];
    let stored = serializer.serialize(&raw).unwrap();
    assert_eq!(stored, raw);
    // decoding needs the compiled schema and fails cleanly
    assert!(serializer.deserialize(stored.as_slice()).is_err());
}

#[test]
fn test_rkyv_i64_fields() {
    let mut rec = Record::new();
    rec.push_field("delta", FieldValue::I64(-77));
    rec.push_field("min", FieldValue::I64(i64::MIN));
    rec.push_field("max", FieldValue::I64(i64::MAX));
    let bytes = typedstore::storage::serializers::serialize_rkyv(&rec).unwrap();
    let archived = typedstore::storage::serializers::access_rkyv_safe(&bytes).unwrap();
    assert_eq!(archived.i64_field(0), -77);
    assert_eq!(archived.i64_field(1), i64::MIN);
    assert_eq!(archived.i64_field(2), i64::MAX);
}

#[test]
fn test_rkyv_batch_access() {
    let mut good1 = Record::new();
    good1.push_field("seq", FieldValue::U64(1));
    let mut good2 = Record::new();
    good2.push_field("seq", FieldValue::U64(2));

    let buffers = vec![
        typedstore::storage::serializers::serialize_rkyv(&good1).unwrap(),
        vec![9, 9, 9], // malformed: must not abort the rest
        typedstore::storage::serializers::serialize_rkyv(&good2).unwrap(),
    ];
    let views = typedstore::storage::serializers::access_rkyv_batch(&buffers);
    assert_eq!(views.len(), 3);
    assert_eq!(views[0].as_ref().unwrap().u64_field(0), 1);
    assert!(views[1].is_none());
    assert_eq!(views[2].as_ref().unwrap().u64_field(0), 2);
}
