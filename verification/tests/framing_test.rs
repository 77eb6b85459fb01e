use kafka_codec::codec::from_bytes;
use kafka_codec::error::Error;
use kafka_codec::framing::{frame_length, frame_message, read_frame, to_framed_bytes};
use kafka_codec::value::{Schema, Value};

#[test]
fn frame_prefixes_payload_length() {
    let framed = frame_message(&vec![9, 8, 7]).unwrap();
    assert_eq!(framed, vec![0, 0, 0, 3, 9, 8, 7]);
}

#[test]
fn frame_round_trip_preserves_value() {
    let value = Value::Struct(vec![Value::I32(42), Value::Str("kafka-cli".into())]);
    let schema = Schema::Struct(vec![Schema::I32, Schema::Str]);
    let framed = to_framed_bytes(&value).unwrap();
    let (payload, rest) = read_frame(&framed).unwrap();
    assert!(rest.is_empty());
    // The four-byte prefix holds exactly the payload's byte length.
    assert_eq!(&framed[0..4], (payload.len() as i32).to_be_bytes());
    let back = from_bytes(&payload, &schema).unwrap();
    assert_eq!(back, value);
}

#[test]
fn read_frame_leaves_following_bytes() {
    let bytes = vec![0, 0, 0, 2, 10, 11, 99];
    let (payload, rest) = read_frame(&bytes).unwrap();
    assert_eq!(payload, vec![10, 11]);
    assert_eq!(rest, vec![99]);
}

#[test]
fn negative_frame_length_is_malformed() {
    assert_eq!(read_frame(&[0xff, 0xff, 0xff, 0xff]), Err(Error::MalformedLength));
    assert_eq!(frame_length(&[0x80, 0, 0, 0]), Err(Error::MalformedLength));
}

#[test]
fn short_frame_is_truncated() {
    assert_eq!(read_frame(&[0, 0]), Err(Error::Truncated));
    assert_eq!(read_frame(&[0, 0, 0, 5, 1, 2]), Err(Error::Truncated));
}

#[test]
fn frame_length_reads_prefix() {
    assert_eq!(frame_length(&[0, 0, 1, 2]).unwrap(), 258);
}
