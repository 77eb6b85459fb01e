use kafka_codec::codec::{from_bytes, from_bytes_trail, to_bytes_mut};
use kafka_codec::compact_string::CompactString;
use kafka_codec::error::Error;
use kafka_codec::primitives::Deserializer;
use kafka_codec::uuid::Uuid;
use kafka_codec::value::{Schema, Value};

fn sub_struct_schema() -> Schema {
    Schema::Struct(vec![Schema::I8, Schema::I16, Schema::I32])
}

fn sub_struct_value() -> Value {
    Value::Struct(vec![Value::I8(i8::MAX), Value::I16(i16::MAX), Value::I32(i32::MAX)])
}

#[test]
fn test_struct() {
    let bytes: &[u8] = &[
        0x7f, // i8: 127
        0x7f, 0xff, //i16: 32767
        0x7f, 0xff, 0xff, 0xff, // i32: 2147483647
        0x00, 0x09, // str: len 10
        0x6b, 0x61, 0x66, 0x6b, 0x61, 0x2d, 0x63, 0x6c, 0x69, // str: kafka-cli
        // --- Added for compact_string ---
        0x06, // compact_string len: 6 (5+1)
        0x68, 0x65, 0x6c, 0x6c, 0x6f, // compact_string: "hello"
        // ---
        // compact array: [i8::MAX, i8::MAX, i8::MAX]
        0x04, // len 3
        0x7f, // i8::MAX
        0x7f, // i8::MAX
        0x7f, // i8::MAX
        // compact array: [i16::MAX, i16::MAX, i16::MAX]
        0x04, // len 3
        0x7f, 0xff, // i16::MAX
        0x7f, 0xff, // i16::MAX
        0x7f, 0xff, // i16::MAX
        // compact array: [i32::MAX, i32::MAX, i32::MAX]
        0x04, // len 3
        0x7f, 0xff, 0xff, 0xff, // i32::MAX
        0x7f, 0xff, 0xff, 0xff, // i32::MAX
        0x7f, 0xff, 0xff, 0xff, // i32::MAX
        // compact array: ["kafka-cli", "kafka-cli", "kafka-cli"]
        0x04, // len 3
        0x00, 0x09, // str: len 10
        0x6b, 0x61, 0x66, 0x6b, 0x61, 0x2d, 0x63, 0x6c, 0x69, // str: kafka-cli
        0x00, 0x09, // str: len 10
        0x6b, 0x61, 0x66, 0x6b, 0x61, 0x2d, 0x63, 0x6c, 0x69, // str: kafka-cli
        0x00, 0x09, // str: len 10
        0x6b, 0x61, 0x66, 0x6b, 0x61, 0x2d, 0x63, 0x6c, 0x69, // str: kafka-cli
        // compact array: [SubStruct, SubStruct, SubStruct]
        0x04, // len 3
        0x7f, // i8: 127
        0x7f, 0xff, //i16: 32767
        0x7f, 0xff, 0xff, 0xff, // i32: 2147483647
        0x7f, // i8: 127
        0x7f, 0xff, //i16: 32767
        0x7f, 0xff, 0xff, 0xff, // i32: 2147483647
        0x7f, // i8: 127
        0x7f, 0xff, //i16: 32767
        0x7f, 0xff, 0xff, 0xff, // i32: 2147483647
    ];

    let schema = Schema::Struct(vec![
        Schema::I8,
        Schema::I16,
        Schema::I32,
        Schema::Str,
        Schema::CompactStr,
        Schema::Array(Box::new(Schema::I8)),
        Schema::Array(Box::new(Schema::I16)),
        Schema::Array(Box::new(Schema::I32)),
        Schema::Array(Box::new(Schema::Str)),
        Schema::Array(Box::new(sub_struct_schema())),
    ]);

    let expected = Value::Struct(vec![
        Value::I8(i8::MAX),
        Value::I16(i16::MAX),
        Value::I32(i32::MAX),
        Value::Str("kafka-cli".into()),
        Value::CompactStr(CompactString("hello".into())),
        Value::Array(vec![Value::I8(i8::MAX), Value::I8(i8::MAX), Value::I8(i8::MAX)]),
        Value::Array(vec![Value::I16(i16::MAX), Value::I16(i16::MAX), Value::I16(i16::MAX)]),
        Value::Array(vec![Value::I32(i32::MAX), Value::I32(i32::MAX), Value::I32(i32::MAX)]),
        Value::Array(vec![
            Value::Str("kafka-cli".into()),
            Value::Str("kafka-cli".into()),
            Value::Str("kafka-cli".into()),
        ]),
        Value::Array(vec![sub_struct_value(), sub_struct_value(), sub_struct_value()]),
    ]);

    assert_eq!(expected, from_bytes(bytes, &schema).unwrap());
}

#[test]
fn test_struct_serialization() {
    let value = Value::Struct(vec![
        Value::I8(i8::MAX),
        Value::I16(i16::MAX),
        Value::I32(i32::MAX),
        Value::Str("kafka-cli".into()),
        Value::CompactStr(CompactString("hello".into())),
        Value::Array(vec![Value::I8(i8::MAX), Value::I8(i8::MAX), Value::I8(i8::MAX)]),
        Value::Array(vec![Value::I16(i16::MAX), Value::I16(i16::MAX), Value::I16(i16::MAX)]),
        Value::Array(vec![Value::I32(i32::MAX), Value::I32(i32::MAX), Value::I32(i32::MAX)]),
        Value::Array(vec![
            Value::Str("kafka-cli".into()),
            Value::Str("kafka-cli".into()),
            Value::Str("kafka-cli".into()),
        ]),
        Value::Array(vec![
            Value::CompactStr(CompactString("kafka-cli".into())),
            Value::CompactStr(CompactString("kafka-cli".into())),
            Value::CompactStr(CompactString("kafka-cli".into())),
        ]),
        Value::Array(vec![sub_struct_value(), sub_struct_value(), sub_struct_value()]),
    ]);

    let mut expected: Vec<u8> = Vec::new();
    // i8: 127
    expected.push(0x7f);
    // i16: 32767
    expected.extend_from_slice(&[0x7f, 0xff]);
    // i32: 2147483647
    expected.extend_from_slice(&[0x7f, 0xff, 0xff, 0xff]);
    // string: "kafka-cli" (len 9)
    expected.extend_from_slice(&[0x00, 0x09]);
    expected.extend_from_slice(b"kafka-cli");
    // compact_string: "hello" (len 5, so writes 6 as i8)
    expected.push(6);
    expected.extend_from_slice(b"hello");
    // three i8 entries (len 3 stored as 4)
    expected.extend_from_slice(&[4, 0x7f, 0x7f, 0x7f]);
    // three i16 entries
    expected.extend_from_slice(&[4, 0x7f, 0xff, 0x7f, 0xff, 0x7f, 0xff]);
    // three i32 entries
    expected.push(4);
    expected.extend_from_slice(&[0x7f, 0xff, 0xff, 0xff]);
    expected.extend_from_slice(&[0x7f, 0xff, 0xff, 0xff]);
    expected.extend_from_slice(&[0x7f, 0xff, 0xff, 0xff]);
    // three plain strings
    expected.push(4);
    for _ in 0..3 {
        expected.extend_from_slice(&[0x00, 0x09]);
        expected.extend_from_slice(b"kafka-cli");
    }
    // three compact strings (len 9, so writes 10 as i8)
    expected.push(4);
    for _ in 0..3 {
        expected.push(10);
        expected.extend_from_slice(b"kafka-cli");
    }
    // three nested structs
    expected.push(4);
    for _ in 0..3 {
        expected.push(0x7f);
        expected.extend_from_slice(&[0x7f, 0xff]);
        expected.extend_from_slice(&[0x7f, 0xff, 0xff, 0xff]);
    }

    let result = to_bytes_mut(&value).unwrap();
    assert_eq!(result, expected);
}

#[test]
fn compact_string_empty_encodes_as_one() {
    let out = to_bytes_mut(&Value::CompactStr(CompactString(String::new()))).unwrap();
    assert_eq!(out, vec![0x01]);
}

#[test]
fn compact_string_stored_zero_is_malformed() {
    let r = from_bytes(&[0x00], &Schema::CompactStr);
    assert_eq!(r, Err(Error::MalformedLength));
}

#[test]
fn compact_array_empty_encodes_as_one() {
    let out = to_bytes_mut(&Value::Array(Vec::new())).unwrap();
    assert_eq!(out, vec![0x01]);
}

#[test]
fn compact_array_of_three_prefixes_four() {
    let out =
        to_bytes_mut(&Value::Array(vec![Value::U8(7), Value::U8(8), Value::U8(9)])).unwrap();
    assert_eq!(out, vec![0x04, 7, 8, 9]);
}

#[test]
fn plain_string_empty_encodes_as_two_zero_bytes() {
    let out = to_bytes_mut(&Value::Str(String::new())).unwrap();
    assert_eq!(out, vec![0x00, 0x00]);
}

#[test]
fn trailing_bytes_fail_whole_message_decode() {
    // One u8 followed by a leftover byte.
    let r = from_bytes(&[5, 6], &Schema::U8);
    assert_eq!(r, Err(Error::TrailingData));
}

#[test]
fn trailing_aware_decode_returns_remainder_unchanged() {
    let (v, rest) = from_bytes_trail(&[5, 6, 7], &Schema::U8).unwrap();
    assert_eq!(v, Value::U8(5));
    assert_eq!(rest, vec![6, 7]);
}

#[test]
fn byte_tuple_identity_has_no_length_prefix() {
    let raw = [
        0x10u8, 0x00, 0x00, 0x00, 0x00, 0x00, 0x40, 0x00, 0x80, 0x00, 0x00, 0x00, 0x00, 0x00,
        0x00, 0x01,
    ];
    let id = Uuid::from_bytes(raw);
    let out = to_bytes_mut(&id.to_value()).unwrap();
    assert_eq!(out, raw.to_vec());
    // Byte 0 of the encoding is the identifier's first byte, not a length.
    assert_eq!(out[0], 0x10);
    let back = from_bytes(&out, &Uuid::schema()).unwrap();
    assert_eq!(Uuid::from_value(&back), id);
}

#[test]
fn truncated_input_is_reported() {
    assert_eq!(from_bytes(&[0x01], &Schema::I16), Err(Error::Truncated));
    assert_eq!(from_bytes(&[], &Schema::U8), Err(Error::Truncated));
}

#[test]
fn invalid_utf8_is_reported() {
    // Compact string of one byte that is not valid UTF-8.
    assert_eq!(from_bytes(&[0x02, 0xff], &Schema::CompactStr), Err(Error::InvalidUtf8));
    // Plain string with an invalid byte.
    assert_eq!(from_bytes(&[0x00, 0x01, 0xff], &Schema::Str), Err(Error::InvalidUtf8));
}

#[test]
fn negative_plain_string_length_is_malformed() {
    assert_eq!(from_bytes(&[0xff, 0xff], &Schema::Str), Err(Error::MalformedLength));
}

#[test]
fn negative_byte_block_length_is_malformed() {
    assert_eq!(
        from_bytes(&[0xff, 0xff, 0xff, 0xff], &Schema::Bytes),
        Err(Error::MalformedLength)
    );
}

#[test]
fn sixty_four_bit_shapes_are_unsupported() {
    assert_eq!(to_bytes_mut(&Value::I64(1)), Err(Error::UnsupportedShape));
    assert_eq!(to_bytes_mut(&Value::U64(1)), Err(Error::UnsupportedShape));
    assert_eq!(
        from_bytes(&[0, 0, 0, 0, 0, 0, 0, 1], &Schema::I64),
        Err(Error::UnsupportedShape)
    );
}

#[test]
fn multibyte_text_decodes_through_utf8() {
    // Two UTF-8 bytes carrying one character.
    let decoded = from_bytes(&[0x03, 0xc3, 0xa9], &Schema::CompactStr).unwrap();
    assert_eq!(decoded, Value::CompactStr(CompactString("\u{e9}".to_string())));
    // And the value re-encodes to the same bytes.
    assert_eq!(to_bytes_mut(&decoded).unwrap(), vec![0x03, 0xc3, 0xa9]);
}

#[test]
fn round_trip_of_mixed_value() {
    let value = Value::Struct(vec![
        Value::Bool(true),
        Value::Bytes(vec![1, 2, 3]),
        Value::U16(0xabcd),
        Value::U32(0xdeadbeef),
        Value::Array(vec![Value::Str("a".into()), Value::Str("".into())]),
    ]);
    let schema = Schema::Struct(vec![
        Schema::Bool,
        Schema::Bytes,
        Schema::U16,
        Schema::U32,
        Schema::Array(Box::new(Schema::Str)),
    ]);
    let bytes = to_bytes_mut(&value).unwrap();
    let back = from_bytes(&bytes, &schema).unwrap();
    assert_eq!(back, value);
    assert_eq!(to_bytes_mut(&back).unwrap(), bytes);
}

#[test]
fn cursor_reports_remaining_input() {
    let data = [1u8, 2, 3];
    let de = Deserializer::from_bytes(&data);
    assert_eq!(de.len(), 3);
    assert!(!de.is_empty());
    assert_eq!(de.rest(), vec![1, 2, 3]);
}
