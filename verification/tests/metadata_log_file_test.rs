use kafka_codec::compact_string::CompactString;
use kafka_codec::error::Error;
use kafka_codec::metadata_log_file::{
    encode_log, parse_log, MetadataLogFile, Record, RecordValue,
};
use kafka_codec::uuid::Uuid;

fn fixture_bytes() -> Vec<u8> {
    vec![
        0x00, 0x00, 0x00, 0x00, 0x00, 0x00, 0x00, 0x00, 0x00, 0x00, 0x00, 0x4f, 0x00, 0x00,
        0x00, 0x01, 0x02, 0xb0, 0x69, 0x45, 0x7c, 0x00, 0x00, 0x00, 0x00, 0x00, 0x00, 0x00,
        0x00, 0x01, 0x91, 0xe0, 0x5a, 0xf8, 0x18, 0x00, 0x00, 0x01, 0x91, 0xe0, 0x5a, 0xf8,
        0x18, 0xff, 0xff, 0xff, 0xff, 0xff, 0xff, 0xff, 0xff, 0xff, 0xff, 0xff, 0xff, 0xff,
        0xff, 0x00, 0x00, 0x00, 0x01, 0x3a, 0x00, 0x00, 0x00, 0x01, 0x2e, 0x01, 0x0c, 0x00,
        0x11, 0x6d, 0x65, 0x74, 0x61, 0x64, 0x61, 0x74, 0x61, 0x2e, 0x76, 0x65, 0x72, 0x73,
        0x69, 0x6f, 0x6e, 0x00, 0x14, 0x00, 0x00, 0x00, 0x00, 0x00, 0x00, 0x00, 0x00, 0x00,
        0x01, 0x00, 0x00, 0x00, 0xe4, 0x00, 0x00, 0x00, 0x01, 0x02, 0x24, 0xdb, 0x12, 0xdd,
        0x00, 0x00, 0x00, 0x00, 0x00, 0x02, 0x00, 0x00, 0x01, 0x91, 0xe0, 0x5b, 0x2d, 0x15,
        0x00, 0x00, 0x01, 0x91, 0xe0, 0x5b, 0x2d, 0x15, 0xff, 0xff, 0xff, 0xff, 0xff, 0xff,
        0xff, 0xff, 0xff, 0xff, 0xff, 0xff, 0xff, 0xff, 0x00, 0x00, 0x00, 0x03, 0x3c, 0x00,
        0x00, 0x00, 0x01, 0x30, 0x01, 0x02, 0x00, 0x04, 0x73, 0x61, 0x7a, 0x00, 0x00, 0x00,
        0x00, 0x00, 0x00, 0x40, 0x00, 0x80, 0x00, 0x00, 0x00, 0x00, 0x00, 0x00, 0x91, 0x00,
        0x00, 0x90, 0x01, 0x00, 0x00, 0x02, 0x01, 0x82, 0x01, 0x01, 0x03, 0x01, 0x00, 0x00,
        0x00, 0x00, 0x00, 0x00, 0x00, 0x00, 0x00, 0x00, 0x40, 0x00, 0x80, 0x00, 0x00, 0x00,
        0x00, 0x00, 0x00, 0x91, 0x02, 0x00, 0x00, 0x00, 0x01, 0x02, 0x00, 0x00, 0x00, 0x01,
        0x01, 0x01, 0x00, 0x00, 0x00, 0x01, 0x00, 0x00, 0x00, 0x00, 0x00, 0x00, 0x00, 0x00,
        0x02, 0x10, 0x00, 0x00, 0x00, 0x00, 0x00, 0x40, 0x00, 0x80, 0x00, 0x00, 0x00, 0x00,
        0x00, 0x00, 0x01, 0x00, 0x00, 0x90, 0x01, 0x00, 0x00, 0x04, 0x01, 0x82, 0x01, 0x01,
        0x03, 0x01, 0x00, 0x00, 0x00, 0x01, 0x00, 0x00, 0x00, 0x00, 0x00, 0x00, 0x40, 0x00,
        0x80, 0x00, 0x00, 0x00, 0x00, 0x00, 0x00, 0x91, 0x02, 0x00, 0x00, 0x00, 0x01, 0x02,
        0x00, 0x00, 0x00, 0x01, 0x01, 0x01, 0x00, 0x00, 0x00, 0x01, 0x00, 0x00, 0x00, 0x00,
        0x00, 0x00, 0x00, 0x00, 0x02, 0x10, 0x00, 0x00, 0x00, 0x00, 0x00, 0x40, 0x00, 0x80,
        0x00, 0x00, 0x00, 0x00, 0x00, 0x00, 0x01, 0x00, 0x00,
    ]
}

fn topic_id() -> Uuid {
    Uuid::from_bytes([
        0x00, 0x00, 0x00, 0x00, 0x00, 0x00, 0x40, 0x00, 0x80, 0x00, 0x00, 0x00, 0x00, 0x00,
        0x00, 0x91,
    ])
}

fn directory_id() -> Uuid {
    Uuid::from_bytes([
        0x10, 0x00, 0x00, 0x00, 0x00, 0x00, 0x40, 0x00, 0x80, 0x00, 0x00, 0x00, 0x00, 0x00,
        0x00, 0x01,
    ])
}

fn partition_record(offset_delta: i8, partition_id: i32) -> Record {
    Record {
        length: 72,
        attributes: 0,
        timestamp_delta: 0,
        offset_delta,
        keys: vec![],
        value: RecordValue::PartitionRecordValue {
            frame_version: 1,
            value_type: 3,
            version: 1,
            partition_id,
            topic_uuid: topic_id(),
            replicas: vec![1],
            in_sync_replicas: vec![1],
            removing_replicas: vec![],
            adding_replicas: vec![],
            leader: 1,
            leader_epoch: 0,
            partition_epoch: 0,
            directories: vec![directory_id()],
            tagged_fields_count: 0,
        },
        headers_array_count: 0,
    }
}

fn fixture_batches() -> Vec<MetadataLogFile> {
    vec![
        MetadataLogFile {
            base_offset: 0,
            batch_length: 79,
            partition_leader_epoch: 1,
            magic_byte: 2,
            crc: -1335278212,
            attributes: 0,
            last_offset_delta: 0,
            base_timestamp: 1726045943832,
            max_timestamp: 1726045943832,
            producer_id: -1,
            producer_epoch: -1,
            base_sequence: -1,
            records: vec![Record {
                length: 29,
                attributes: 0,
                timestamp_delta: 0,
                offset_delta: 0,
                keys: vec![],
                value: RecordValue::FeatureLevelValue {
                    frame_version: 1,
                    value_type: 12,
                    version: 0,
                    name: CompactString("metadata.version".to_string()),
                    feature_level: 20,
                    tagged_fields_count: 0,
                },
                headers_array_count: 0,
            }],
        },
        MetadataLogFile {
            base_offset: 1,
            batch_length: 228,
            partition_leader_epoch: 1,
            magic_byte: 2,
            crc: 618336989,
            attributes: 0,
            last_offset_delta: 2,
            base_timestamp: 1726045957397,
            max_timestamp: 1726045957397,
            producer_id: -1,
            producer_epoch: -1,
            base_sequence: -1,
            records: vec![
                Record {
                    length: 30,
                    attributes: 0,
                    timestamp_delta: 0,
                    offset_delta: 0,
                    keys: vec![],
                    value: RecordValue::TopicRecordValue {
                        frame_version: 1,
                        value_type: 2,
                        version: 0,
                        topic_name: CompactString("saz".to_string()),
                        topic_uuid: topic_id(),
                        tagged_fields_count: 0,
                    },
                    headers_array_count: 0,
                },
                partition_record(1, 0),
                partition_record(2, 1),
            ],
        },
    ]
}

#[test]
fn test_ser_de_empty() {
    let bytes = fixture_bytes();
    let expected = fixture_batches();

    // The two-batch fixture decodes into the two batch values with the
    // three typed record shapes.
    let parsed = parse_log(&bytes).unwrap();
    assert_eq!(parsed, expected);

    // And the parsed batches re-encode to byte-identical output.
    let reencoded = encode_log(&parsed).unwrap();
    assert_eq!(reencoded, bytes);

    // The in-memory fixture itself also encodes to the same bytes.
    assert_eq!(encode_log(&expected).unwrap(), bytes);
}

#[test]
fn empty_log_parses_to_no_batches() {
    assert_eq!(parse_log(&[]).unwrap(), Vec::<MetadataLogFile>::new());
    assert_eq!(encode_log(&Vec::new()).unwrap(), Vec::<u8>::new());
}

#[test]
fn short_batch_header_is_truncated() {
    assert_eq!(parse_log(&[0u8; 10]), Err(Error::Truncated));
}

#[test]
fn unknown_record_shape_is_unsupported() {
    // A single-batch log whose one record carries an unknown discriminant.
    let mut bytes = fixture_bytes();
    bytes.truncate(91);
    // The value's discriminant byte (value type 12) sits at offset 68.
    assert_eq!(bytes[68], 0x0c);
    bytes[68] = 0x09;
    assert_eq!(parse_log(&bytes), Err(Error::UnsupportedShape));
}
