use typedstore::storage::codec::{JsonRecordSerializer, JsonSerializer, ValueSerializer};
use typedstore::storage::record::{FieldKind, FieldValue, Record, Schema};

fn user_schema() -> Schema {
    let mut schema = Schema::new();
    schema.push_field("id", FieldKind::U64);
    schema.push_field("name", FieldKind::Text);
    schema.push_field("active", FieldKind::Bool);
    schema
}

fn user_record(id: u64, name: &str, active: bool) -> Record {
    let mut rec = Record::new();
    rec.push_field("id", FieldValue::U64(id));
    rec.push_field("name", FieldValue::Text(name.to_string()));
    rec.push_field("active", FieldValue::Bool(active));
    rec
}

#[test]
fn test_json_record_exact_text() {
    let ser = JsonRecordSerializer::new(user_schema());
    let bytes = ser.serialize(&user_record(1, "Alice", true)).unwrap();
    assert_eq!(bytes.as_slice(), br#"{"id":1,"name":"Alice","active":true}"#);
}

#[test]
fn test_json_record_round_trip() {
    let ser = JsonRecordSerializer::new(user_schema());
    let original = user_record(18446744073709551615, "Zoë 北京 🚀", false);
    let bytes = ser.serialize(&original).unwrap();
    let back = ser.deserialize(bytes.as_slice()).unwrap();
    assert_eq!(back, original);
}

#[test]
fn test_json_string_round_trip() {
    let ser = JsonSerializer;
    for case in [
        "",
        "plain",
        "with \"quotes\" and \\backslash\\",
        "control \n\t\r chars",
        "unicode: héllo 🌍 北京",
    ] {
        let v = case.to_string();
        let bytes = ValueSerializer::<String>::serialize(&ser, &v).unwrap();
        let back: String = ValueSerializer::<String>::deserialize(&ser, bytes.as_slice()).unwrap();
        assert_eq!(back, v);
    }
}

#[test]
fn test_json_string_escaping_exact() {
    let ser = JsonSerializer;
    let bytes = ValueSerializer::<String>::serialize(&ser, &"a\"b\\c\nd".to_string()).unwrap();
    assert_eq!(bytes.as_slice(), br#""a\"b\\c\u000ad""#);
}

#[test]
fn test_json_u64_round_trip() {
    let ser = JsonSerializer;
    for v in [0u64, 1, 9, 10, 1234567890, u64::MAX] {
        let bytes = ValueSerializer::<u64>::serialize(&ser, &v).unwrap();
        let back: u64 = ValueSerializer::<u64>::deserialize(&ser, bytes.as_slice()).unwrap();
        assert_eq!(back, v);
    }
    let zero = ValueSerializer::<u64>::serialize(&ser, &0u64).unwrap();
    assert_eq!(zero.as_slice(), b"0");
    let max = ValueSerializer::<u64>::serialize(&ser, &u64::MAX).unwrap();
    assert_eq!(max.as_slice(), b"18446744073709551615");
}

#[test]
fn test_json_rejects_malformed() {
    let ser = JsonSerializer;
    // leading zeros, overflow, trailing bytes, bad escapes
    assert!(ValueSerializer::<u64>::deserialize(&ser, b"007").is_err());
    assert!(ValueSerializer::<u64>::deserialize(&ser, b"18446744073709551616").is_err());
    assert!(ValueSerializer::<u64>::deserialize(&ser, b"12 ").is_err());
    assert!(ValueSerializer::<String>::deserialize(&ser, b"\"unterminated").is_err());
    assert!(ValueSerializer::<String>::deserialize(&ser, b"\"bad \\x escape\"").is_err());
    assert!(ValueSerializer::<String>::deserialize(&ser, &[0x22, 0xff, 0x22]).is_err());
}

#[test]
fn test_json_signed_and_lists() {
    let mut schema = Schema::new();
    schema.push_field("delta", FieldKind::I64);
    schema.push_field("floor", FieldKind::I64);
    schema.push_field("tags", FieldKind::List);
    schema.push_field("empty", FieldKind::List);
    let ser = JsonRecordSerializer::new(schema);

    let mut rec = Record::new();
    rec.push_field("delta", FieldValue::I64(-42));
    rec.push_field("floor", FieldValue::I64(i64::MIN));
    rec.push_field(
        "tags",
        FieldValue::List(vec!["red".to_string(), "blue, \"quoted\"".to_string()]),
    );
    rec.push_field("empty", FieldValue::List(Vec::new()));

    let bytes = ser.serialize(&rec).unwrap();
    assert_eq!(
        bytes.as_slice(),
        br#"{"delta":-42,"floor":-9223372036854775808,"tags":["red","blue, \"quoted\""],"empty":[]}"#
    );
    let back = ser.deserialize(bytes.as_slice()).unwrap();
    assert_eq!(back, rec);
}

#[test]
fn test_json_record_schema_mismatch() {
    let ser = JsonRecordSerializer::new(user_schema());
    // a record not matching the schema is refused at encode time
    let mut wrong = Record::new();
    wrong.push_field("id", FieldValue::Bool(true));
    assert!(ser.serialize(&wrong).is_err());
    // wrong field names or kinds are refused at decode time
    assert!(ser.deserialize(br#"{"id":1,"nickname":"A","active":true}"#).is_err());
    assert!(ser.deserialize(br#"{"id":"1","name":"A","active":true}"#).is_err());
    assert!(ser.deserialize(br#"{"id":1,"name":"A"}"#).is_err());
}

#[test]
fn test_json_empty_record() {
    let ser = JsonRecordSerializer::new(Schema::new());
    let bytes = ser.serialize(&Record::new()).unwrap();
    assert_eq!(bytes.as_slice(), b"{}");
    let back = ser.deserialize(b"{}").unwrap();
    assert_eq!(back, Record::new());
}
