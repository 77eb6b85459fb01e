use kafka_codec::api_versions::{self, ApiVersionsRequest, ApiVersionsRequestBody};
use kafka_codec::codec::to_bytes_mut;
use kafka_codec::compact_string::CompactString;
use kafka_codec::constants::{ApiKey, ErrorCode};
use kafka_codec::describe_topic_partitions::{
    self, DescribeTopicPartitionsRequestBody, TopicRequest,
};
use kafka_codec::framing::read_frame;
use kafka_codec::headers::RequestHeaderV2;
use kafka_codec::server::handle_request;
use kafka_codec::value::Value;

fn api_versions_body_bytes() -> Vec<u8> {
    to_bytes_mut(&ApiVersionsRequestBody::default().to_value()).unwrap()
}

/// Pull (correlation id, error code) out of an encoded api-versions
/// response payload.
fn response_header_and_error(payload: &[u8]) -> (i32, i16) {
    let schema = kafka_codec::value::Schema::Struct(vec![
        kafka_codec::value::Schema::Struct(vec![kafka_codec::value::Schema::I32]),
        kafka_codec::value::Schema::Struct(vec![
            kafka_codec::value::Schema::I16,
            kafka_codec::value::Schema::Array(Box::new(kafka_codec::value::Schema::Struct(vec![
                kafka_codec::value::Schema::I16,
                kafka_codec::value::Schema::I16,
                kafka_codec::value::Schema::I16,
                kafka_codec::value::Schema::I8,
            ]))),
            kafka_codec::value::Schema::I32,
            kafka_codec::value::Schema::I8,
        ]),
    ]);
    let v = kafka_codec::codec::from_bytes(payload, &schema).unwrap();
    match v {
        Value::Struct(top) => {
            let corr = match &top[0] {
                Value::Struct(h) => match h[0] {
                    Value::I32(c) => c,
                    _ => panic!("header shape"),
                },
                _ => panic!("header shape"),
            };
            let code = match &top[1] {
                Value::Struct(b) => match b[0] {
                    Value::I16(c) => c,
                    _ => panic!("body shape"),
                },
                _ => panic!("body shape"),
            };
            (corr, code)
        },
        _ => panic!("response shape"),
    }
}

#[test]
fn test_response_same_request_correlation_id() {
    let header = RequestHeaderV2 {
        api_key: ApiKey::ApiVersions,
        api_version: 0,
        correlation_id: 1234,
        client_id: String::new(),
        tag_buffer: 0,
    };
    let resp = api_versions::handler(&header, api_versions_body_bytes()).unwrap();
    assert_eq!(resp.header.correlation_id, header.correlation_id);
}

#[test]
fn test_unsupported_api_versions_version() {
    let header = RequestHeaderV2 {
        api_key: ApiKey::ApiVersions,
        api_version: 5,
        correlation_id: 0,
        client_id: String::new(),
        tag_buffer: 0,
    };
    let resp = api_versions::handler(&header, api_versions_body_bytes()).unwrap();
    assert_eq!(resp.body.error_code, ErrorCode::UnsupportedVersion);
    assert!(resp.body.api_versions.is_empty());
}

#[test]
fn test_api_versions() {
    let header = RequestHeaderV2 {
        api_key: ApiKey::ApiVersions,
        api_version: 4,
        correlation_id: 7,
        client_id: String::new(),
        tag_buffer: 0,
    };
    let resp = api_versions::handler(&header, api_versions_body_bytes()).unwrap();

    assert_eq!(resp.body.error_code, ErrorCode::NoError);
    assert_eq!(resp.header.correlation_id, header.correlation_id);

    assert_eq!(resp.body.api_versions[0].api_key, ApiKey::Fetch);
    assert_eq!(resp.body.api_versions[0].max_supported_api_version, 17);

    assert_eq!(resp.body.api_versions[1].api_key, ApiKey::ApiVersions);
    assert_eq!(resp.body.api_versions[1].max_supported_api_version, 4);

    assert_eq!(resp.body.api_versions[2].api_key, ApiKey::DescribeTopicPartitions);
}

#[test]
fn test_unknown_topic() {
    let header = RequestHeaderV2 {
        api_key: ApiKey::DescribeTopicPartitions,
        api_version: 0,
        correlation_id: 55,
        client_id: String::new(),
        tag_buffer: 0,
    };
    let body = DescribeTopicPartitionsRequestBody {
        topics: vec![TopicRequest { name: CompactString("foo".to_string()), tag_buffer: 0 }],
        response_partition_limit: 100,
        cursor: 0xff,
        tag_buffer: 0,
    };
    let raw = to_bytes_mut(&body.to_value()).unwrap();
    let resp = describe_topic_partitions::handler(&header, raw).unwrap();

    assert_eq!(resp.body.topics[0].uuid, kafka_codec::uuid::Uuid::nil());
    assert_eq!(resp.header.correlation_id, header.correlation_id);
    assert_eq!(resp.body.topics[0].error_code, ErrorCode::UnknownTopic);
    assert_eq!(resp.body.topics[0].name, body.topics[0].name);
    assert_eq!(resp.body.topics[0].partitions_array, 1);
    assert_eq!(resp.body.topics[0].authorized_operations, 0x0df8);
    assert_eq!(resp.body.next_cursor, 0xff);
}

#[test]
fn unknown_topic_listing_empty_when_nothing_requested() {
    let header = RequestHeaderV2 {
        api_key: ApiKey::DescribeTopicPartitions,
        api_version: 0,
        correlation_id: 1,
        client_id: String::new(),
        tag_buffer: 0,
    };
    let body = DescribeTopicPartitionsRequestBody::default();
    let raw = to_bytes_mut(&body.to_value()).unwrap();
    let resp = describe_topic_partitions::handler(&header, raw).unwrap();
    assert!(resp.body.topics.is_empty());
}

#[test]
fn test_unsupported_api_key() {
    let request = ApiVersionsRequest {
        header: RequestHeaderV2 {
            api_key: ApiKey::Invalid,
            api_version: 0,
            correlation_id: 99,
            client_id: String::new(),
            tag_buffer: 0,
        },
        body: ApiVersionsRequestBody::default(),
    };
    let message = to_bytes_mut(&request.to_value()).unwrap();
    let framed = handle_request(&message).unwrap();
    let (payload, rest) = read_frame(&framed).unwrap();
    assert!(rest.is_empty());
    let (corr, code) = response_header_and_error(&payload);
    assert_eq!(corr, 99);
    assert_eq!(code, ErrorCode::UnsupportedVersion.code());
}

#[test]
fn test_serial_requests() {
    for i in 0..2 {
        let request = ApiVersionsRequest {
            header: RequestHeaderV2 {
                api_key: ApiKey::ApiVersions,
                api_version: 0,
                correlation_id: i,
                client_id: String::new(),
                tag_buffer: 0,
            },
            body: ApiVersionsRequestBody::default(),
        };
        let message = to_bytes_mut(&request.to_value()).unwrap();
        let framed = handle_request(&message).unwrap();
        let (payload, _) = read_frame(&framed).unwrap();
        let (corr, code) = response_header_and_error(&payload);
        assert_eq!(corr, i);
        assert_eq!(code, ErrorCode::NoError.code());
    }
}

#[test]
fn bad_request_bytes_are_refused() {
    // Too short to even hold the fixed header fields.
    assert!(handle_request(&[0x00, 0x12]).is_err());
}
