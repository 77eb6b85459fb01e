//! The on-disk commit-log format: a flat concatenation of self-contained
//! record batches, each a fixed big-endian header followed by a counted
//! run of records whose variable-length framing uses the zigzag varint
//! convention. Record values are a closed set of typed shapes told apart
//! by an embedded discriminant, and their field layouts are decoded by
//! the shape-generic engine against per-shape schemas.

use vstd::prelude::*;

use crate::compact_string::CompactString;
use crate::error::Error;
use crate::primitives::{
    be16, be32, be64, i16_of_bits, i32_of_bits, i64_of_bits, i8_of_bits, u16_bits, u16_of_be,
    u32_bits, u32_of_be, u64_bits, u64_of_be, u8_bits, Deserializer, Serializer,
};
use crate::uuid::Uuid;
use crate::value::{
    conforms, conforms_all, lemma_conforms_all_index, lemma_conforms_zip_index, lemma_schemas_view,
    lemma_values_view, schema_view, schemas_view, value_view, values_view, Schema, SpecSchema, SpecValue, Value,
};
use crate::varint::{
    get_zigzag_varint, put_zigzag_varint, spec_decode_varint, spec_unzigzag, spec_varint,
    spec_zigzag,
};

verus! {

broadcast use vstd::seq_lib::group_seq_properties;

// ---------------------------------------------------------------------------
// The data model.
// ---------------------------------------------------------------------------

/// One value carried by a log record: a closed set of typed shapes, told
/// apart by the `value_type` discriminant carried in each shape's own
/// leading fields.
#[derive(Debug, PartialEq, Eq, Clone)]
pub enum RecordValue {
    FeatureLevelValue {
        frame_version: i8,
        value_type: i8,
        version: i8,
        name: CompactString,
        feature_level: i16,
        tagged_fields_count: u8,
    },
    TopicRecordValue {
        frame_version: i8,
        value_type: i8,
        version: i8,
        topic_name: CompactString,
        topic_uuid: Uuid,
        tagged_fields_count: u8,
    },
    PartitionRecordValue {
        frame_version: i8,
        value_type: i8,
        version: i8,
        partition_id: i32,
        topic_uuid: Uuid,
        replicas: Vec<i32>,
        in_sync_replicas: Vec<i32>,
        removing_replicas: Vec<i32>,
        adding_replicas: Vec<i32>,
        leader: i32,
        leader_epoch: i32,
        partition_epoch: i32,
        directories: Vec<Uuid>,
        tagged_fields_count: u8,
    },
}

/// One log record: its stored framing fields, its keys, and its typed
/// value.
#[derive(Debug, PartialEq, Eq, Clone)]
pub struct Record {
    pub length: i8,
    pub attributes: i8,
    pub timestamp_delta: i8,
    pub offset_delta: i8,
    pub keys: Vec<i8>,
    pub value: RecordValue,
    pub headers_array_count: u8,
}

/// One record batch as stored on disk: the fixed header, the stored CRC
/// (carried, not checked), and the records.
#[derive(Debug, PartialEq, Eq, Clone)]
pub struct MetadataLogFile {
    pub base_offset: i64,
    pub batch_length: i32,
    pub partition_leader_epoch: i32,
    pub magic_byte: u8,
    pub crc: i32,
    pub attributes: i16,
    pub last_offset_delta: i32,
    pub base_timestamp: i64,
    pub max_timestamp: i64,
    pub producer_id: i64,
    pub producer_epoch: i16,
    pub base_sequence: i32,
    pub records: Vec<Record>,
}

// ---------------------------------------------------------------------------
// The mathematical shadows.
// ---------------------------------------------------------------------------

/// The shadow of a record value: its three discriminant bytes, and the
/// remaining fields as one structured value of the shape's schema.
pub struct SpecRecordValue {
    pub frame_version: i8,
    pub value_type: i8,
    pub version: i8,
    pub tail: SpecValue,
}

/// The shadow of a record.
pub struct SpecRecord {
    pub length: i8,
    pub attributes: i8,
    pub timestamp_delta: i8,
    pub offset_delta: i8,
    pub keys: Seq<i8>,
    pub value: SpecRecordValue,
    pub headers_array_count: u8,
}

/// The shadow of a batch.
pub struct SpecBatch {
    pub base_offset: i64,
    pub batch_length: i32,
    pub partition_leader_epoch: i32,
    pub magic_byte: u8,
    pub crc: i32,
    pub attributes: i16,
    pub last_offset_delta: i32,
    pub base_timestamp: i64,
    pub max_timestamp: i64,
    pub producer_id: i64,
    pub producer_epoch: i16,
    pub base_sequence: i32,
    pub records: Seq<SpecRecord>,
}

/// The structured values standing for a run of four-byte integers.
pub open spec fn i32s_as_values(xs: Seq<i32>) -> Seq<SpecValue> {
    xs.map_values(|x: i32| SpecValue::I32(x))
}

/// The structured values standing for a run of identifiers.
pub open spec fn uuids_as_values(us: Seq<Uuid>) -> Seq<SpecValue> {
    us.map_values(|u: Uuid| u.as_value())
}

/// The discriminant code of the feature-level shape.
pub open spec fn spec_feature_level_type() -> i8 {
    12
}

/// The discriminant code of the topic shape.
pub open spec fn spec_topic_type() -> i8 {
    2
}

/// The discriminant code of the partition shape.
pub open spec fn spec_partition_type() -> i8 {
    3
}

impl RecordValue {
    /// The fields after the three discriminant bytes, as one structured
    /// value walked by the shape-generic engine.
    pub open spec fn as_tail_value(self) -> SpecValue {
        match self {
            RecordValue::FeatureLevelValue {
                name,
                feature_level,
                tagged_fields_count,
                ..
            } => SpecValue::Struct(
                seq![
                    SpecValue::CompactStr(name@),
                    SpecValue::I16(feature_level),
                    SpecValue::U8(tagged_fields_count),
                ],
            ),
            RecordValue::TopicRecordValue {
                topic_name,
                topic_uuid,
                tagged_fields_count,
                ..
            } => SpecValue::Struct(
                seq![
                    SpecValue::CompactStr(topic_name@),
                    topic_uuid.as_value(),
                    SpecValue::U8(tagged_fields_count),
                ],
            ),
            RecordValue::PartitionRecordValue {
                partition_id,
                topic_uuid,
                replicas,
                in_sync_replicas,
                removing_replicas,
                adding_replicas,
                leader,
                leader_epoch,
                partition_epoch,
                directories,
                tagged_fields_count,
                ..
            } => SpecValue::Struct(
                seq![
                    SpecValue::I32(partition_id),
                    topic_uuid.as_value(),
                    SpecValue::Array(i32s_as_values(replicas@)),
                    SpecValue::Array(i32s_as_values(in_sync_replicas@)),
                    SpecValue::Array(i32s_as_values(removing_replicas@)),
                    SpecValue::Array(i32s_as_values(adding_replicas@)),
                    SpecValue::I32(leader),
                    SpecValue::I32(leader_epoch),
                    SpecValue::I32(partition_epoch),
                    SpecValue::Array(uuids_as_values(directories@)),
                    SpecValue::U8(tagged_fields_count),
                ],
            ),
        }
    }

    /// The first of the three discriminant bytes.
    pub open spec fn spec_frame_version(self) -> i8 {
        match self {
            RecordValue::FeatureLevelValue { frame_version, .. } => frame_version,
            RecordValue::TopicRecordValue { frame_version, .. } => frame_version,
            RecordValue::PartitionRecordValue { frame_version, .. } => frame_version,
        }
    }

    /// The stored discriminant code.
    pub open spec fn spec_value_type(self) -> i8 {
        match self {
            RecordValue::FeatureLevelValue { value_type, .. } => value_type,
            RecordValue::TopicRecordValue { value_type, .. } => value_type,
            RecordValue::PartitionRecordValue { value_type, .. } => value_type,
        }
    }

    /// The stored shape version.
    pub open spec fn spec_version(self) -> i8 {
        match self {
            RecordValue::FeatureLevelValue { version, .. } => version,
            RecordValue::TopicRecordValue { version, .. } => version,
            RecordValue::PartitionRecordValue { version, .. } => version,
        }
    }
}

/// The shadow of one record value.
pub open spec fn record_value_view(v: RecordValue) -> SpecRecordValue {
    SpecRecordValue {
        frame_version: v.spec_frame_version(),
        value_type: v.spec_value_type(),
        version: v.spec_version(),
        tail: v.as_tail_value(),
    }
}

/// The shadow of one record.
pub open spec fn record_view(r: Record) -> SpecRecord {
    SpecRecord {
        length: r.length,
        attributes: r.attributes,
        timestamp_delta: r.timestamp_delta,
        offset_delta: r.offset_delta,
        keys: r.keys@,
        value: record_value_view(r.value),
        headers_array_count: r.headers_array_count,
    }
}

/// The shadow of one batch.
pub open spec fn batch_view(b: MetadataLogFile) -> SpecBatch {
    SpecBatch {
        base_offset: b.base_offset,
        batch_length: b.batch_length,
        partition_leader_epoch: b.partition_leader_epoch,
        magic_byte: b.magic_byte,
        crc: b.crc,
        attributes: b.attributes,
        last_offset_delta: b.last_offset_delta,
        base_timestamp: b.base_timestamp,
        max_timestamp: b.max_timestamp,
        producer_id: b.producer_id,
        producer_epoch: b.producer_epoch,
        base_sequence: b.base_sequence,
        records: b.records@.map_values(|r: Record| record_view(r)),
    }
}

// ---------------------------------------------------------------------------
// The per-shape schemas.
// ---------------------------------------------------------------------------

/// The field layout after the discriminant for the feature-level shape.
pub open spec fn spec_feature_level_tail_schema() -> SpecSchema {
    SpecSchema::Struct(seq![SpecSchema::CompactStr, SpecSchema::I16, SpecSchema::U8])
}

/// The field layout after the discriminant for the topic shape.
pub open spec fn spec_topic_tail_schema() -> SpecSchema {
    SpecSchema::Struct(seq![SpecSchema::CompactStr, Uuid::spec_schema(), SpecSchema::U8])
}

/// The field layout after the discriminant for the partition shape.
pub open spec fn spec_partition_tail_schema() -> SpecSchema {
    SpecSchema::Struct(
        seq![
            SpecSchema::I32,
            Uuid::spec_schema(),
            SpecSchema::Array(Box::new(SpecSchema::I32)),
            SpecSchema::Array(Box::new(SpecSchema::I32)),
            SpecSchema::Array(Box::new(SpecSchema::I32)),
            SpecSchema::Array(Box::new(SpecSchema::I32)),
            SpecSchema::I32,
            SpecSchema::I32,
            SpecSchema::I32,
            SpecSchema::Array(Box::new(Uuid::spec_schema())),
            SpecSchema::U8,
        ],
    )
}

fn feature_level_tail_schema() -> (s: Schema)
    ensures
        s@ == spec_feature_level_tail_schema(),
{
    let fields = vec![Schema::CompactStr, Schema::I16, Schema::U8];
    let ghost fv = fields@;
    let s = Schema::Struct(fields);
    proof {
        lemma_schemas_view(fv);
        assert(schemas_view(fv) =~= spec_feature_level_tail_schema()->Struct_0);
    }
    s
}

fn topic_tail_schema() -> (s: Schema)
    ensures
        s@ == spec_topic_tail_schema(),
{
    let u = Uuid::schema();
    let fields = vec![Schema::CompactStr, u, Schema::U8];
    let ghost fv = fields@;
    let s = Schema::Struct(fields);
    proof {
        lemma_schemas_view(fv);
        assert(schemas_view(fv) =~= spec_topic_tail_schema()->Struct_0);
    }
    s
}

fn partition_tail_schema() -> (s: Schema)
    ensures
        s@ == spec_partition_tail_schema(),
{
    let u0 = Uuid::schema();
    let u1 = Uuid::schema();
    let fields = vec![
        Schema::I32,
        u0,
        Schema::Array(Box::new(Schema::I32)),
        Schema::Array(Box::new(Schema::I32)),
        Schema::Array(Box::new(Schema::I32)),
        Schema::Array(Box::new(Schema::I32)),
        Schema::I32,
        Schema::I32,
        Schema::I32,
        Schema::Array(Box::new(u1)),
        Schema::U8,
    ];
    let ghost fv = fields@;
    let s = Schema::Struct(fields);
    proof {
        lemma_schemas_view(fv);
        assert(schema_view(Schema::I32) == SpecSchema::I32);
        assert(schema_view(Schema::Array(Box::new(Schema::I32))) == SpecSchema::Array(
            Box::new(SpecSchema::I32),
        ));
        assert(schemas_view(fv) =~= spec_partition_tail_schema()->Struct_0);
    }
    s
}

// ---------------------------------------------------------------------------
// The format, as mathematics: the encode direction.
// ---------------------------------------------------------------------------

/// The bytes of one record value: the three discriminant bytes, then the
/// shape's remaining fields through the shape-generic engine.
pub open spec fn spec_encode_record_value(v: SpecRecordValue) -> Result<Seq<u8>, Error> {
    match crate::value::spec_encode(v.tail) {
        Ok(tb) => Ok(
            seq![u8_bits(v.frame_version), u8_bits(v.value_type), u8_bits(v.version)] + tb,
        ),
        Err(e) => Err(e),
    }
}

/// The bytes of one record: the zigzag-varint framing fields, the keys
/// (an empty run is stored as the null marker), the value behind its
/// length, and the headers count.
pub open spec fn spec_encode_record(r: SpecRecord) -> Result<Seq<u8>, Error> {
    match spec_encode_record_value(r.value) {
        Err(e) => Err(e),
        Ok(vb) => {
            if vb.len() > 0x7fff_ffff {
                Err(Error::MalformedLength)
            } else if r.keys.len() > 0x7fff_ffff {
                Err(Error::MalformedLength)
            } else {
                let head = spec_varint(spec_zigzag(r.length as i32)) + seq![u8_bits(r.attributes)]
                    + spec_varint(spec_zigzag(r.timestamp_delta as i32)) + spec_varint(
                    spec_zigzag(r.offset_delta as i32),
                );
                let keypart = if r.keys.len() == 0 {
                    spec_varint(spec_zigzag(-1i32))
                } else {
                    spec_varint(spec_zigzag(r.keys.len() as i32)) + r.keys.map_values(
                        |k: i8| u8_bits(k),
                    )
                };
                Ok(
                    head + keypart + spec_varint(spec_zigzag(vb.len() as i32)) + vb + spec_varint(
                        spec_zigzag(r.headers_array_count as i32),
                    ),
                )
            }
        },
    }
}

/// The concatenated bytes of a run of records, or the first failure.
pub open spec fn spec_encode_records(rs: Seq<SpecRecord>) -> Result<Seq<u8>, Error>
    decreases rs.len(),
{
    if rs.len() == 0 {
        Ok(Seq::<u8>::empty())
    } else {
        match spec_encode_record(rs[0]) {
            Ok(h) => match spec_encode_records(rs.drop_first()) {
                Ok(t) => Ok(h + t),
                Err(e) => Err(e),
            },
            Err(e) => Err(e),
        }
    }
}

/// The bytes of one batch: the fixed big-endian header, the stored batch
/// length and CRC carried as they stand, the record count as a plain
/// four-byte integer, then the records.
pub open spec fn spec_batch_header(b: SpecBatch) -> Seq<u8> {
    be64(u64_bits(b.base_offset)) + be32(u32_bits(b.batch_length)) + be32(
        u32_bits(b.partition_leader_epoch),
    ) + seq![b.magic_byte] + be32(u32_bits(b.crc)) + be16(u16_bits(b.attributes)) + be32(
        u32_bits(b.last_offset_delta),
    ) + be64(u64_bits(b.base_timestamp)) + be64(u64_bits(b.max_timestamp)) + be64(
        u64_bits(b.producer_id),
    ) + be16(u16_bits(b.producer_epoch)) + be32(u32_bits(b.base_sequence)) + be32(
        u32_bits(b.records.len() as i32),
    )
}

#[verifier::opaque]
pub open spec fn spec_encode_batch(b: SpecBatch) -> Result<Seq<u8>, Error> {
    if b.records.len() > 0x7fff_ffff {
        Err(Error::MalformedLength)
    } else {
        match spec_encode_records(b.records) {
            Err(e) => Err(e),
            Ok(rb) => Ok(spec_batch_header(b) + rb),
        }
    }
}

/// The bytes of a whole log: each batch's bytes back to back, with no
/// overall count or index.
pub open spec fn spec_encode_log(bs: Seq<SpecBatch>) -> Result<Seq<u8>, Error>
    decreases bs.len(),
{
    if bs.len() == 0 {
        Ok(Seq::<u8>::empty())
    } else {
        match spec_encode_batch(bs[0]) {
            Ok(h) => match spec_encode_log(bs.drop_first()) {
                Ok(t) => Ok(h + t),
                Err(e) => Err(e),
            },
            Err(e) => Err(e),
        }
    }
}

// ---------------------------------------------------------------------------
// The format, as mathematics: the decode direction.
// ---------------------------------------------------------------------------

/// One signed zigzag varint off the front of `b`.
pub open spec fn spec_decode_zz(b: Seq<u8>) -> Result<(i32, int), Error> {
    match spec_decode_varint(b) {
        Ok((u, n)) => Ok((spec_unzigzag(u), n)),
        Err(e) => Err(e),
    }
}

/// One signed zigzag varint that must fit a single signed byte.
pub open spec fn spec_decode_i8zz(b: Seq<u8>) -> Result<(i8, int), Error> {
    match spec_decode_zz(b) {
        Ok((x, n)) => if -128 <= x <= 127 {
            Ok((x as i8, n))
        } else {
            Err(Error::MalformedLength)
        },
        Err(e) => Err(e),
    }
}

/// What decoding one record value off the front of `b` yields: the three
/// discriminant bytes, then the field layout the discriminant selects; a
/// discriminant naming no known shape is the unsupported-shape failure.
pub open spec fn spec_decode_record_value(b: Seq<u8>) -> Result<(SpecRecordValue, int), Error> {
    if b.len() < 3 {
        Err(Error::Truncated)
    } else {
        let frame_version = i8_of_bits(b[0]);
        let value_type = i8_of_bits(b[1]);
        let version = i8_of_bits(b[2]);
        let schema = if value_type == spec_feature_level_type() {
            Ok::<SpecSchema, Error>(spec_feature_level_tail_schema())
        } else if value_type == spec_topic_type() {
            Ok::<SpecSchema, Error>(spec_topic_tail_schema())
        } else if value_type == spec_partition_type() {
            Ok::<SpecSchema, Error>(spec_partition_tail_schema())
        } else {
            Err::<SpecSchema, Error>(Error::UnsupportedShape)
        };
        match schema {
            Err(e) => Err(e),
            Ok(ts) => match crate::value::spec_decode(ts, b.skip(3)) {
                Ok((tv, n)) => Ok(
                    (SpecRecordValue { frame_version, value_type, version, tail: tv }, 3 + n),
                ),
                Err(e) => Err(e),
            },
        }
    }
}

/// What decoding one record off the front of `b` yields, field by field
/// in wire order; the stored value length is read and carried past, the
/// value itself being self-describing.
#[verifier::opaque]
pub open spec fn spec_decode_record(b: Seq<u8>) -> Result<(SpecRecord, int), Error> {
    match spec_decode_i8zz(b) {
        Err(e) => Err(e),
        Ok((length, n1)) => {
            let b1 = b.skip(n1);
            if b1.len() < 1 {
                Err(Error::Truncated)
            } else {
                let attributes = i8_of_bits(b1[0]);
                let b2 = b1.skip(1);
                match spec_decode_i8zz(b2) {
                    Err(e) => Err(e),
                    Ok((timestamp_delta, n3)) => match spec_decode_i8zz(b2.skip(n3)) {
                        Err(e) => Err(e),
                        Ok((offset_delta, n4)) => {
                            let head = n1 + 1 + n3 + n4;
                            match spec_decode_record_rest(
                                b.skip(head),
                                length,
                                attributes,
                                timestamp_delta,
                                offset_delta,
                            ) {
                                Ok((rec, n)) => Ok((rec, head + n)),
                                Err(e) => Err(e),
                            }
                        },
                    },
                }
            }
        },
    }
}

/// The rest of one record, after its four leading framing fields: the
/// keys, the value behind its stored length, and the headers count.
#[verifier::opaque]
pub open spec fn spec_decode_record_rest(
    b4: Seq<u8>,
    length: i8,
    attributes: i8,
    timestamp_delta: i8,
    offset_delta: i8,
) -> Result<(SpecRecord, int), Error> {
    match spec_decode_zz(b4) {
        Err(e) => Err(e),
        Ok((klen, n5)) => {
            let b5 = b4.skip(n5);
            let kcons: int = if klen < 0 {
                0
            } else {
                klen as int
            };
            if b5.len() < kcons {
                Err(Error::Truncated)
            } else {
                let keys = b5.take(kcons).map_values(|x: u8| i8_of_bits(x));
                match spec_decode_record_fin(
                    b5.skip(kcons),
                    length,
                    attributes,
                    timestamp_delta,
                    offset_delta,
                    keys,
                ) {
                    Ok((rec, n)) => Ok((rec, n5 + kcons + n)),
                    Err(e) => Err(e),
                }
            }
        },
    }
}

/// The tail of one record: the stored value length, the value itself,
/// and the headers count.
#[verifier::opaque]
pub open spec fn spec_decode_record_fin(
    b6: Seq<u8>,
    length: i8,
    attributes: i8,
    timestamp_delta: i8,
    offset_delta: i8,
    keys: Seq<i8>,
) -> Result<(SpecRecord, int), Error> {
    match spec_decode_zz(b6) {
        Err(e) => Err(e),
        Ok((vlen, n7)) => {
            if vlen < 0 {
                Err(Error::MalformedLength)
            } else {
                let b7 = b6.skip(n7);
                match spec_decode_record_value(b7) {
                    Err(e) => Err(e),
                    Ok((value, n8)) => match spec_decode_zz(b7.skip(n8)) {
                        Err(e) => Err(e),
                        Ok((hc, n9)) => {
                            if !(0 <= hc <= 255) {
                                Err(Error::MalformedLength)
                            } else {
                                Ok(
                                    (
                                        SpecRecord {
                                            length,
                                            attributes,
                                            timestamp_delta,
                                            offset_delta,
                                            keys,
                                            value,
                                            headers_array_count: hc as u8,
                                        },
                                        n7 + n8 + n9,
                                    ),
                                )
                            }
                        },
                    },
                }
            }
        },
    }
}

/// Exactly `count` records off the front of `b`.
pub open spec fn spec_decode_records(count: nat, b: Seq<u8>) -> Result<(Seq<SpecRecord>, int), Error>
    decreases count,
{
    if count == 0 {
        Ok((Seq::<SpecRecord>::empty(), 0))
    } else {
        match spec_decode_record(b) {
            Ok((r, n)) => match spec_decode_records((count - 1) as nat, b.skip(n)) {
                Ok((rs, m)) => Ok((seq![r] + rs, n + m)),
                Err(e) => Err(e),
            },
            Err(e) => Err(e),
        }
    }
}

/// What decoding one batch off the front of `b` yields: the fixed header
/// at its fixed offsets, then the counted records.
#[verifier::opaque]
pub open spec fn spec_decode_batch(b: Seq<u8>) -> Result<(SpecBatch, int), Error> {
    if b.len() < 61 {
        Err(Error::Truncated)
    } else {
        let count = i32_of_bits(u32_of_be(b[57], b[58], b[59], b[60]));
        if count < 0 {
            Err(Error::MalformedLength)
        } else {
            match spec_decode_records(count as nat, b.skip(61)) {
                Err(e) => Err(e),
                Ok((rs, n)) => Ok(
                    (
                        SpecBatch {
                            base_offset: i64_of_bits(
                                u64_of_be(b[0], b[1], b[2], b[3], b[4], b[5], b[6], b[7]),
                            ),
                            batch_length: i32_of_bits(u32_of_be(b[8], b[9], b[10], b[11])),
                            partition_leader_epoch: i32_of_bits(
                                u32_of_be(b[12], b[13], b[14], b[15]),
                            ),
                            magic_byte: b[16],
                            crc: i32_of_bits(u32_of_be(b[17], b[18], b[19], b[20])),
                            attributes: i16_of_bits(u16_of_be(b[21], b[22])),
                            last_offset_delta: i32_of_bits(u32_of_be(b[23], b[24], b[25], b[26])),
                            base_timestamp: i64_of_bits(
                                u64_of_be(b[27], b[28], b[29], b[30], b[31], b[32], b[33], b[34]),
                            ),
                            max_timestamp: i64_of_bits(
                                u64_of_be(b[35], b[36], b[37], b[38], b[39], b[40], b[41], b[42]),
                            ),
                            producer_id: i64_of_bits(
                                u64_of_be(b[43], b[44], b[45], b[46], b[47], b[48], b[49], b[50]),
                            ),
                            producer_epoch: i16_of_bits(u16_of_be(b[51], b[52])),
                            base_sequence: i32_of_bits(u32_of_be(b[53], b[54], b[55], b[56])),
                            records: rs,
                        },
                        61 + n,
                    ),
                ),
            }
        }
    }
}

// ---------------------------------------------------------------------------
// How much a decode consumes.
// ---------------------------------------------------------------------------

/// A successful varint read takes at least one byte and no more than the
/// input.
pub proof fn lemma_decode_varint_len(b: Seq<u8>)
    ensures
        spec_decode_varint(b) matches Ok(p) ==> 1 <= p.1 <= b.len(),
{
    reveal(spec_decode_varint);
}

/// A successful record-value decode takes at least three bytes and no
/// more than the input.
pub proof fn lemma_decode_record_value_len(b: Seq<u8>)
    ensures
        spec_decode_record_value(b) matches Ok(p) ==> 3 <= p.1 <= b.len(),
{
    if b.len() >= 3 {
        crate::value::lemma_decode_len(spec_feature_level_tail_schema(), b.skip(3));
        crate::value::lemma_decode_len(spec_topic_tail_schema(), b.skip(3));
        crate::value::lemma_decode_len(spec_partition_tail_schema(), b.skip(3));
    }
}

/// A successful record decode takes at least eight bytes and no more
/// than the input.
pub proof fn lemma_decode_record_len(b: Seq<u8>)
    ensures
        spec_decode_record(b) matches Ok(p) ==> 1 <= p.1 <= b.len(),
{
    reveal(spec_decode_record);
    lemma_decode_varint_len(b);
    if let Ok((length, n1)) = spec_decode_i8zz(b) {
        let b1 = b.skip(n1);
        if b1.len() >= 1 {
            let b2 = b1.skip(1);
            lemma_decode_varint_len(b2);
            if let Ok((tsd, n3)) = spec_decode_i8zz(b2) {
                lemma_decode_varint_len(b2.skip(n3));
                if let Ok((offd, n4)) = spec_decode_i8zz(b2.skip(n3)) {
                    let head = n1 + 1 + n3 + n4;
                    lemma_decode_record_rest_len(
                        b.skip(head),
                        length,
                        i8_of_bits(b1[0]),
                        tsd,
                        offd,
                    );
                }
            }
        }
    }
}

proof fn lemma_decode_record_rest_len(
    b4: Seq<u8>,
    length: i8,
    attributes: i8,
    timestamp_delta: i8,
    offset_delta: i8,
)
    ensures
        spec_decode_record_rest(b4, length, attributes, timestamp_delta, offset_delta) matches Ok(
            p,
        ) ==> 0 <= p.1 <= b4.len(),
{
    reveal(spec_decode_record_rest);
    lemma_decode_varint_len(b4);
    if let Ok((klen, n5)) = spec_decode_zz(b4) {
        let b5 = b4.skip(n5);
        let kcons: int = if klen < 0 {
            0
        } else {
            klen as int
        };
        if b5.len() >= kcons {
            let keys = b5.take(kcons).map_values(|x: u8| i8_of_bits(x));
            lemma_decode_record_fin_len(
                b5.skip(kcons),
                length,
                attributes,
                timestamp_delta,
                offset_delta,
                keys,
            );
        }
    }
}

proof fn lemma_decode_record_fin_len(
    b6: Seq<u8>,
    length: i8,
    attributes: i8,
    timestamp_delta: i8,
    offset_delta: i8,
    keys: Seq<i8>,
)
    ensures
        spec_decode_record_fin(b6, length, attributes, timestamp_delta, offset_delta, keys)
            matches Ok(p) ==> 0 <= p.1 <= b6.len(),
{
    reveal(spec_decode_record_fin);
    lemma_decode_varint_len(b6);
    if let Ok((vlen, n7)) = spec_decode_zz(b6) {
        let b7 = b6.skip(n7);
        lemma_decode_record_value_len(b7);
        if let Ok((value, n8)) = spec_decode_record_value(b7) {
            lemma_decode_varint_len(b7.skip(n8));
        }
    }
}

/// A successful run of record decodes consumes no more than the input.
pub proof fn lemma_decode_records_len(count: nat, b: Seq<u8>)
    ensures
        spec_decode_records(count, b) matches Ok(p) ==> 0 <= p.1 <= b.len() && p.0.len() == count,
    decreases count,
{
    if count > 0 {
        lemma_decode_record_len(b);
        if let Ok((r, n)) = spec_decode_record(b) {
            lemma_decode_records_len((count - 1) as nat, b.skip(n));
        }
    }
}

/// A successful batch decode takes at least its fixed header and no more
/// than the input.
pub proof fn lemma_decode_batch_len(b: Seq<u8>)
    ensures
        spec_decode_batch(b) matches Ok(p) ==> 61 <= p.1 <= b.len(),
{
    reveal(spec_decode_batch);
    if b.len() >= 61 {
        let count = i32_of_bits(u32_of_be(b[57], b[58], b[59], b[60]));
        if count >= 0 {
            lemma_decode_records_len(count as nat, b.skip(61));
        }
    }
}

/// What decoding a whole log yields: batches read back to back until the
/// input is exhausted; a log is a plain run of batches with no count of
/// its own.
pub open spec fn spec_decode_log(b: Seq<u8>) -> Result<Seq<SpecBatch>, Error>
    decreases b.len(),
    via spec_decode_log_dec
{
    if b.len() == 0 {
        Ok(Seq::<SpecBatch>::empty())
    } else {
        match spec_decode_batch(b) {
            Err(e) => Err(e),
            Ok((batch, n)) => match spec_decode_log(b.skip(n)) {
                Ok(bs) => Ok(seq![batch] + bs),
                Err(e) => Err(e),
            },
        }
    }
}

#[via_fn]
proof fn spec_decode_log_dec(b: Seq<u8>) {
    lemma_decode_batch_len(b);
}

/// The shadow of a whole log in memory.
pub open spec fn batches_view(bs: Seq<MetadataLogFile>) -> Seq<SpecBatch> {
    bs.map_values(|b: MetadataLogFile| batch_view(b))
}

// ---------------------------------------------------------------------------
// How encoding runs of records and batches grows.
// ---------------------------------------------------------------------------

/// Appending one record to a run appends its encoding, or surfaces the
/// first failure.
pub proof fn lemma_encode_records_push(a: Seq<SpecRecord>, x: SpecRecord)
    ensures
        spec_encode_records(a) matches Err(e) ==> spec_encode_records(a + seq![x]) == Err::<
            Seq<u8>,
            Error,
        >(e),
        spec_encode_records(a) is Ok && spec_encode_record(x) is Err ==> spec_encode_records(
            a + seq![x],
        ) == Err::<Seq<u8>, Error>(spec_encode_record(x)->Err_0),
        spec_encode_records(a) is Ok && spec_encode_record(x) is Ok ==> spec_encode_records(
            a + seq![x],
        ) == Ok::<Seq<u8>, Error>(spec_encode_records(a)->Ok_0 + spec_encode_record(x)->Ok_0),
    decreases a.len(),
{
    let ax = a + seq![x];
    if a.len() == 0 {
        assert(ax[0] == x);
        assert(ax.drop_first() =~= Seq::<SpecRecord>::empty());
        if spec_encode_record(x) is Ok {
            assert(spec_encode_record(x)->Ok_0 + Seq::<u8>::empty() =~= spec_encode_record(
                x,
            )->Ok_0);
            assert(Seq::<u8>::empty() + spec_encode_record(x)->Ok_0 =~= spec_encode_record(
                x,
            )->Ok_0);
        }
    } else {
        assert(ax[0] == a[0]);
        assert(ax.drop_first() =~= a.drop_first() + seq![x]);
        lemma_encode_records_push(a.drop_first(), x);
        if spec_encode_records(a) is Ok && spec_encode_record(x) is Ok {
            assert(spec_encode_record(a[0])->Ok_0 + (spec_encode_records(a.drop_first())->Ok_0
                + spec_encode_record(x)->Ok_0) =~= (spec_encode_record(a[0])->Ok_0
                + spec_encode_records(a.drop_first())->Ok_0) + spec_encode_record(x)->Ok_0);
        }
    }
}

/// A run of records splits at any point.
pub proof fn lemma_encode_records_split(rs: Seq<SpecRecord>, i: int)
    requires
        0 <= i <= rs.len(),
    ensures
        spec_encode_records(rs.take(i)) matches Err(e) ==> spec_encode_records(rs) == Err::<
            Seq<u8>,
            Error,
        >(e),
        spec_encode_records(rs.take(i)) is Ok ==> spec_encode_records(rs) == (
        match spec_encode_records(rs.skip(i)) {
            Ok(q) => Ok(spec_encode_records(rs.take(i))->Ok_0 + q),
            Err(e) => Err(e),
        }),
    decreases i,
{
    if i == 0 {
        assert(rs.take(0) =~= Seq::<SpecRecord>::empty());
        assert(rs.skip(0) =~= rs);
        if spec_encode_records(rs) is Ok {
            assert(Seq::<u8>::empty() + spec_encode_records(rs)->Ok_0 =~= spec_encode_records(
                rs,
            )->Ok_0);
        }
    } else {
        let head = rs.take(i);
        assert(head[0] == rs[0]);
        assert(head.drop_first() =~= rs.drop_first().take(i - 1));
        assert(rs.skip(i) =~= rs.drop_first().skip(i - 1));
        lemma_encode_records_split(rs.drop_first(), i - 1);
        match spec_encode_record(rs[0]) {
            Ok(h) => {
                if spec_encode_records(head) is Ok {
                    let p1 = spec_encode_records(rs.drop_first().take(i - 1))->Ok_0;
                    match spec_encode_records(rs.drop_first().skip(i - 1)) {
                        Ok(q) => {
                            assert(h + (p1 + q) =~= (h + p1) + q);
                        },
                        Err(_) => {},
                    }
                }
            },
            Err(_) => {},
        }
    }
}

// ---------------------------------------------------------------------------
// Converting runs of plain values to and from structured values.
// ---------------------------------------------------------------------------

fn i32s_to_value(xs: &Vec<i32>) -> (r: Value)
    ensures
        r@ == SpecValue::Array(i32s_as_values(xs@)),
{
    let mut elems: Vec<Value> = Vec::new();
    let mut i: usize = 0;
    while i < xs.len()
        invariant
            i <= xs@.len(),
            elems@.len() == i,
            forall|j: int| 0 <= j < i ==> #[trigger] elems@[j] == Value::I32(xs@[j]),
        decreases xs@.len() - i,
    {
        elems.push(Value::I32(xs[i]));
        i = i + 1;
    }
    let ghost ev = elems@;
    let v = Value::Array(elems);
    proof {
        lemma_values_view(ev);
        assert(values_view(ev) =~= i32s_as_values(xs@));
    }
    v
}

fn i32s_from_value(v: &Value) -> (r: Vec<i32>)
    requires
        conforms(v@, SpecSchema::Array(Box::new(SpecSchema::I32))),
    ensures
        v@ == SpecValue::Array(i32s_as_values(r@)),
{
    match v {
        Value::Array(es) => {
            proof {
                lemma_values_view(es@);
                lemma_conforms_all_index(values_view(es@), SpecSchema::I32);
            }
            let mut out: Vec<i32> = Vec::new();
            let mut i: usize = 0;
            while i < es.len()
                invariant
                    i <= es@.len(),
                    out@.len() == i,
                    values_view(es@).len() == es@.len(),
                    forall|j: int|
                        0 <= j < es@.len() ==> #[trigger] values_view(es@)[j] == es@[j]@,
                    forall|j: int|
                        0 <= j < es@.len() ==> conforms(
                            #[trigger] values_view(es@)[j],
                            SpecSchema::I32,
                        ),
                    forall|j: int| 0 <= j < i ==> #[trigger] values_view(es@)[j] == SpecValue::I32(
                        out@[j],
                    ),
                decreases es@.len() - i,
            {
                proof {
                    assert(conforms(values_view(es@)[i as int], SpecSchema::I32));
                }
                let x = match &es[i] {
                    Value::I32(x) => *x,
                    _ => vstd::pervasive::unreached(),
                };
                out.push(x);
                i = i + 1;
            }
            proof {
                assert(i32s_as_values(out@) =~= values_view(es@));
            }
            out
        },
        _ => vstd::pervasive::unreached(),
    }
}

fn uuids_to_value(us: &Vec<Uuid>) -> (r: Value)
    ensures
        r@ == SpecValue::Array(uuids_as_values(us@)),
{
    let mut elems: Vec<Value> = Vec::new();
    let mut i: usize = 0;
    while i < us.len()
        invariant
            i <= us@.len(),
            elems@.len() == i,
            forall|j: int| 0 <= j < i ==> #[trigger] elems@[j]@ == us@[j].as_value(),
        decreases us@.len() - i,
    {
        let e = us[i].to_value();
        elems.push(e);
        i = i + 1;
    }
    let ghost ev = elems@;
    let v = Value::Array(elems);
    proof {
        lemma_values_view(ev);
        assert forall|j: int| 0 <= j < ev.len() implies values_view(ev)[j] == uuids_as_values(
            us@,
        )[j] by {
            assert(values_view(ev)[j] == value_view(ev[j]));
            assert(ev[j]@ == us@[j].as_value());
        }
        assert(values_view(ev) =~= uuids_as_values(us@));
    }
    v
}

fn uuids_from_value(v: &Value) -> (r: Vec<Uuid>)
    requires
        conforms(v@, SpecSchema::Array(Box::new(Uuid::spec_schema()))),
    ensures
        v@ == SpecValue::Array(uuids_as_values(r@)),
{
    match v {
        Value::Array(es) => {
            proof {
                lemma_values_view(es@);
                lemma_conforms_all_index(values_view(es@), Uuid::spec_schema());
            }
            let mut out: Vec<Uuid> = Vec::new();
            let mut i: usize = 0;
            while i < es.len()
                invariant
                    i <= es@.len(),
                    out@.len() == i,
                    values_view(es@).len() == es@.len(),
                    forall|j: int|
                        0 <= j < es@.len() ==> #[trigger] values_view(es@)[j] == es@[j]@,
                    forall|j: int|
                        0 <= j < es@.len() ==> conforms(
                            #[trigger] values_view(es@)[j],
                            Uuid::spec_schema(),
                        ),
                    forall|j: int| 0 <= j < i ==> #[trigger] values_view(es@)[j]
                        == out@[j].as_value(),
                decreases es@.len() - i,
            {
                proof {
                    assert(conforms(values_view(es@)[i as int], Uuid::spec_schema()));
                    assert(values_view(es@)[i as int] == es@[i as int]@);
                }
                let u = Uuid::from_value(&es[i]);
                out.push(u);
                i = i + 1;
            }
            proof {
                assert(uuids_as_values(out@) =~= values_view(es@));
            }
            out
        },
        _ => vstd::pervasive::unreached(),
    }
}

// ---------------------------------------------------------------------------
// The record-value codec.
// ---------------------------------------------------------------------------

impl RecordValue {
    /// The three discriminant bytes, in wire order.
    pub fn discriminant(&self) -> (r: (i8, i8, i8))
        ensures
            r.0 == self.spec_frame_version(),
            r.1 == self.spec_value_type(),
            r.2 == self.spec_version(),
    {
        match self {
            RecordValue::FeatureLevelValue { frame_version, value_type, version, .. } => (
                *frame_version,
                *value_type,
                *version,
            ),
            RecordValue::TopicRecordValue { frame_version, value_type, version, .. } => (
                *frame_version,
                *value_type,
                *version,
            ),
            RecordValue::PartitionRecordValue { frame_version, value_type, version, .. } => (
                *frame_version,
                *value_type,
                *version,
            ),
        }
    }

    /// The fields after the discriminant, as one structured value.
    pub fn to_tail_value(&self) -> (r: Value)
        ensures
            r@ == self.as_tail_value(),
    {
        match self {
            RecordValue::FeatureLevelValue { name, feature_level, tagged_fields_count, .. } => {
                let fields = vec![
                    Value::CompactStr(CompactString(name.0.clone())),
                    Value::I16(*feature_level),
                    Value::U8(*tagged_fields_count),
                ];
                let ghost fv = fields@;
                let v = Value::Struct(fields);
                proof {
                    lemma_values_view(fv);
                    assert(values_view(fv) =~= self.as_tail_value()->Struct_0);
                }
                v
            },
            RecordValue::TopicRecordValue { topic_name, topic_uuid, tagged_fields_count, .. } => {
                let fields = vec![
                    Value::CompactStr(CompactString(topic_name.0.clone())),
                    topic_uuid.to_value(),
                    Value::U8(*tagged_fields_count),
                ];
                let ghost fv = fields@;
                let v = Value::Struct(fields);
                proof {
                    lemma_values_view(fv);
                    assert(values_view(fv) =~= self.as_tail_value()->Struct_0);
                }
                v
            },
            RecordValue::PartitionRecordValue {
                partition_id,
                topic_uuid,
                replicas,
                in_sync_replicas,
                removing_replicas,
                adding_replicas,
                leader,
                leader_epoch,
                partition_epoch,
                directories,
                tagged_fields_count,
                ..
            } => {
                let fields = vec![
                    Value::I32(*partition_id),
                    topic_uuid.to_value(),
                    i32s_to_value(replicas),
                    i32s_to_value(in_sync_replicas),
                    i32s_to_value(removing_replicas),
                    i32s_to_value(adding_replicas),
                    Value::I32(*leader),
                    Value::I32(*leader_epoch),
                    Value::I32(*partition_epoch),
                    uuids_to_value(directories),
                    Value::U8(*tagged_fields_count),
                ];
                let ghost fv = fields@;
                let v = Value::Struct(fields);
                proof {
                    lemma_values_view(fv);
                    assert(values_view(fv) =~= self.as_tail_value()->Struct_0);
                }
                v
            },
        }
    }
}

/// The bytes of one record value, in a fresh buffer.
fn record_value_bytes(v: &RecordValue) -> (r: Result<Vec<u8>, Error>)
    ensures
        spec_encode_record_value(record_value_view(*v)) matches Ok(bs) ==> (r matches Ok(out)
            && out@ == bs),
        spec_encode_record_value(record_value_view(*v)) matches Err(e) ==> r == Err::<
            Vec<u8>,
            Error,
        >(e),
{
    let (f, t, ver) = v.discriminant();
    let tail = v.to_tail_value();
    let mut ser = Serializer::new();
    ser.put_i8(f);
    ser.put_i8(t);
    ser.put_i8(ver);
    match ser.encode_value(&tail) {
        Ok(()) => {
            let out = ser.into_bytes();
            proof {
                assert(out@ =~= seq![
                    u8_bits(record_value_view(*v).frame_version),
                    u8_bits(record_value_view(*v).value_type),
                    u8_bits(record_value_view(*v).version),
                ] + crate::value::spec_encode(record_value_view(*v).tail)->Ok_0);
            }
            Ok(out)
        },
        Err(e) => Err(e),
    }
}

fn feature_level_from_tail(frame_version: i8, value_type: i8, version: i8, tail: &Value) -> (r:
    RecordValue)
    requires
        conforms(tail@, spec_feature_level_tail_schema()),
    ensures
        record_value_view(r) == (SpecRecordValue { frame_version, value_type, version, tail: tail@ }),
{
    match tail {
        Value::Struct(fields) => {
            proof {
                lemma_values_view(fields@);
                lemma_conforms_zip_index(
                    values_view(fields@),
                    spec_feature_level_tail_schema()->Struct_0,
                );
                let ss = spec_feature_level_tail_schema()->Struct_0;
                assert(conforms(values_view(fields@)[0], ss[0]) && ss[0]
                    == SpecSchema::CompactStr);
                assert(conforms(values_view(fields@)[1], ss[1]) && ss[1] == SpecSchema::I16);
                assert(conforms(values_view(fields@)[2], ss[2]) && ss[2] == SpecSchema::U8);
            }
            let name = match &fields[0] {
                Value::CompactStr(x) => CompactString(x.0.clone()),
                _ => vstd::pervasive::unreached(),
            };
            let feature_level = match &fields[1] {
                Value::I16(x) => *x,
                _ => vstd::pervasive::unreached(),
            };
            let tagged_fields_count = match &fields[2] {
                Value::U8(x) => *x,
                _ => vstd::pervasive::unreached(),
            };
            let r = RecordValue::FeatureLevelValue {
                frame_version,
                value_type,
                version,
                name,
                feature_level,
                tagged_fields_count,
            };
            proof {
                assert(r.as_tail_value()->Struct_0 =~= values_view(fields@));
            }
            r
        },
        _ => vstd::pervasive::unreached(),
    }
}

fn topic_from_tail(frame_version: i8, value_type: i8, version: i8, tail: &Value) -> (r:
    RecordValue)
    requires
        conforms(tail@, spec_topic_tail_schema()),
    ensures
        record_value_view(r) == (SpecRecordValue { frame_version, value_type, version, tail: tail@ }),
{
    match tail {
        Value::Struct(fields) => {
            proof {
                lemma_values_view(fields@);
                lemma_conforms_zip_index(values_view(fields@), spec_topic_tail_schema()->Struct_0);
                let ss = spec_topic_tail_schema()->Struct_0;
                assert(conforms(values_view(fields@)[0], ss[0]) && ss[0]
                    == SpecSchema::CompactStr);
                assert(conforms(values_view(fields@)[1], ss[1]) && ss[1] == Uuid::spec_schema());
                assert(conforms(values_view(fields@)[2], ss[2]) && ss[2] == SpecSchema::U8);
            }
            let topic_name = match &fields[0] {
                Value::CompactStr(x) => CompactString(x.0.clone()),
                _ => vstd::pervasive::unreached(),
            };
            let topic_uuid = Uuid::from_value(&fields[1]);
            let tagged_fields_count = match &fields[2] {
                Value::U8(x) => *x,
                _ => vstd::pervasive::unreached(),
            };
            let r = RecordValue::TopicRecordValue {
                frame_version,
                value_type,
                version,
                topic_name,
                topic_uuid,
                tagged_fields_count,
            };
            proof {
                assert(r.as_tail_value()->Struct_0 =~= values_view(fields@));
            }
            r
        },
        _ => vstd::pervasive::unreached(),
    }
}

fn partition_from_tail(frame_version: i8, value_type: i8, version: i8, tail: &Value) -> (r:
    RecordValue)
    requires
        conforms(tail@, spec_partition_tail_schema()),
    ensures
        record_value_view(r) == (SpecRecordValue { frame_version, value_type, version, tail: tail@ }),
{
    match tail {
        Value::Struct(fields) => {
            proof {
                lemma_values_view(fields@);
                lemma_conforms_zip_index(
                    values_view(fields@),
                    spec_partition_tail_schema()->Struct_0,
                );
                let ss = spec_partition_tail_schema()->Struct_0;
                assert(conforms(values_view(fields@)[0], ss[0]) && ss[0] == SpecSchema::I32);
                assert(conforms(values_view(fields@)[1], ss[1]) && ss[1] == Uuid::spec_schema());
                assert(conforms(values_view(fields@)[2], ss[2]) && ss[2] == SpecSchema::Array(
                    Box::new(SpecSchema::I32),
                ));
                assert(conforms(values_view(fields@)[3], ss[3]) && ss[3] == SpecSchema::Array(
                    Box::new(SpecSchema::I32),
                ));
                assert(conforms(values_view(fields@)[4], ss[4]) && ss[4] == SpecSchema::Array(
                    Box::new(SpecSchema::I32),
                ));
                assert(conforms(values_view(fields@)[5], ss[5]) && ss[5] == SpecSchema::Array(
                    Box::new(SpecSchema::I32),
                ));
                assert(conforms(values_view(fields@)[6], ss[6]) && ss[6] == SpecSchema::I32);
                assert(conforms(values_view(fields@)[7], ss[7]) && ss[7] == SpecSchema::I32);
                assert(conforms(values_view(fields@)[8], ss[8]) && ss[8] == SpecSchema::I32);
                assert(conforms(values_view(fields@)[9], ss[9]) && ss[9] == SpecSchema::Array(
                    Box::new(Uuid::spec_schema()),
                ));
                assert(conforms(values_view(fields@)[10], ss[10]) && ss[10] == SpecSchema::U8);
            }
            let partition_id = match &fields[0] {
                Value::I32(x) => *x,
                _ => vstd::pervasive::unreached(),
            };
            let topic_uuid = Uuid::from_value(&fields[1]);
            let replicas = i32s_from_value(&fields[2]);
            let in_sync_replicas = i32s_from_value(&fields[3]);
            let removing_replicas = i32s_from_value(&fields[4]);
            let adding_replicas = i32s_from_value(&fields[5]);
            let leader = match &fields[6] {
                Value::I32(x) => *x,
                _ => vstd::pervasive::unreached(),
            };
            let leader_epoch = match &fields[7] {
                Value::I32(x) => *x,
                _ => vstd::pervasive::unreached(),
            };
            let partition_epoch = match &fields[8] {
                Value::I32(x) => *x,
                _ => vstd::pervasive::unreached(),
            };
            let directories = uuids_from_value(&fields[9]);
            let tagged_fields_count = match &fields[10] {
                Value::U8(x) => *x,
                _ => vstd::pervasive::unreached(),
            };
            let r = RecordValue::PartitionRecordValue {
                frame_version,
                value_type,
                version,
                partition_id,
                topic_uuid,
                replicas,
                in_sync_replicas,
                removing_replicas,
                adding_replicas,
                leader,
                leader_epoch,
                partition_epoch,
                directories,
                tagged_fields_count,
            };
            proof {
                assert(r.as_tail_value()->Struct_0 =~= values_view(fields@));
            }
            r
        },
        _ => vstd::pervasive::unreached(),
    }
}

/// Decode one record value: the three discriminant bytes, then the field
/// layout that the discriminant selects, through the shape-generic
/// engine.
fn decode_record_value(de: &mut Deserializer) -> (r: Result<RecordValue, Error>)
    requires
        old(de).wf(),
    ensures
        final(de).wf(),
        spec_decode_record_value(old(de).remaining()) matches Ok(p) ==> (r matches Ok(rv)
            && record_value_view(rv) == p.0 && final(de).remaining() == old(de).remaining().skip(
            p.1,
        )),
        spec_decode_record_value(old(de).remaining()) matches Err(e) ==> r == Err::<
            RecordValue,
            Error,
        >(e),
{
    let ghost rem0 = old(de).remaining();
    let f = match de.get_i8() {
        Ok(x) => x,
        Err(e) => {
            return Err(e);
        },
    };
    let t = match de.get_i8() {
        Ok(x) => x,
        Err(e) => {
            return Err(e);
        },
    };
    let ver = match de.get_i8() {
        Ok(x) => x,
        Err(e) => {
            return Err(e);
        },
    };
    proof {
        assert(de.remaining() =~= rem0.skip(3));
    }
    let ghost b3 = rem0.skip(3);
    if t == 12 {
        let schema = feature_level_tail_schema();
        match de.decode_value(&schema) {
            Ok(tv) => {
                proof {
                    crate::value::lemma_decode_conforms(spec_feature_level_tail_schema(), b3);
                    crate::value::lemma_decode_len(spec_feature_level_tail_schema(), b3);
                    let n = crate::value::spec_decode(spec_feature_level_tail_schema(), b3)->Ok_0.1;
                    assert(rem0.skip(3).skip(n) =~= rem0.skip(3 + n));
                }
                Ok(feature_level_from_tail(f, t, ver, &tv))
            },
            Err(e) => Err(e),
        }
    } else if t == 2 {
        let schema = topic_tail_schema();
        match de.decode_value(&schema) {
            Ok(tv) => {
                proof {
                    crate::value::lemma_decode_conforms(spec_topic_tail_schema(), b3);
                    crate::value::lemma_decode_len(spec_topic_tail_schema(), b3);
                    let n = crate::value::spec_decode(spec_topic_tail_schema(), b3)->Ok_0.1;
                    assert(rem0.skip(3).skip(n) =~= rem0.skip(3 + n));
                }
                Ok(topic_from_tail(f, t, ver, &tv))
            },
            Err(e) => Err(e),
        }
    } else if t == 3 {
        let schema = partition_tail_schema();
        match de.decode_value(&schema) {
            Ok(tv) => {
                proof {
                    crate::value::lemma_decode_conforms(spec_partition_tail_schema(), b3);
                    crate::value::lemma_decode_len(spec_partition_tail_schema(), b3);
                    let n = crate::value::spec_decode(spec_partition_tail_schema(), b3)->Ok_0.1;
                    assert(rem0.skip(3).skip(n) =~= rem0.skip(3 + n));
                }
                Ok(partition_from_tail(f, t, ver, &tv))
            },
            Err(e) => Err(e),
        }
    } else {
        Err(Error::UnsupportedShape)
    }
}

// ---------------------------------------------------------------------------
// The record codec.
// ---------------------------------------------------------------------------

fn bytes_to_i8s(bs: &Vec<u8>) -> (r: Vec<i8>)
    ensures
        r@ == bs@.map_values(|x: u8| i8_of_bits(x)),
{
    let mut out: Vec<i8> = Vec::new();
    let mut i: usize = 0;
    while i < bs.len()
        invariant
            i <= bs@.len(),
            out@.len() == i,
            forall|j: int| 0 <= j < i ==> #[trigger] out@[j] == i8_of_bits(bs@[j]),
        decreases bs@.len() - i,
    {
        let x = crate::primitives::bits_to_i8(bs[i]);
        out.push(x);
        i = i + 1;
    }
    assert(out@ =~= bs@.map_values(|x: u8| i8_of_bits(x)));
    out
}

/// One zigzag varint that must fit a single signed byte.
fn get_i8zz(de: &mut Deserializer) -> (r: Result<i8, Error>)
    requires
        old(de).wf(),
    ensures
        final(de).wf(),
        spec_decode_i8zz(old(de).remaining()) matches Ok(p) ==> (r == Ok::<i8, Error>(p.0) && final(de).remaining() == old(de).remaining().skip(p.1)),
        spec_decode_i8zz(old(de).remaining()) matches Err(e) ==> r == Err::<i8, Error>(e),
{
    let x = match get_zigzag_varint(de) {
        Ok(x) => x,
        Err(e) => {
            return Err(e);
        },
    };
    if -128 <= x && x <= 127 {
        Ok(x as i8)
    } else {
        Err(Error::MalformedLength)
    }
}

/// The record's keys: a stored count (negative meaning none), then that
/// many single-byte keys.
fn decode_keys(de: &mut Deserializer, klen: i32) -> (r: Result<Vec<i8>, Error>)
    requires
        old(de).wf(),
    ensures
        final(de).wf(),
        ({
            let kcons: int = if klen < 0 {
                0int
            } else {
                klen as int
            };
            if old(de).remaining().len() < kcons {
                r == Err::<Vec<i8>, Error>(Error::Truncated)
            } else {
                (r matches Ok(ks) && ks@ == old(de).remaining().take(kcons).map_values(
                    |x: u8| i8_of_bits(x),
                ) && final(de).remaining() == old(de).remaining().skip(kcons))
            }
        }),
{
    let ghost b5 = old(de).remaining();
    if klen < 0 {
        proof {
            assert(b5.skip(0) =~= b5);
            assert(Seq::<i8>::empty() =~= b5.take(0).map_values(|x: u8| i8_of_bits(x)));
        }
        Ok(Vec::new())
    } else {
        let kb = match de.get_bytes(klen as usize) {
            Ok(b) => b,
            Err(e) => {
                return Err(e);
            },
        };
        Ok(bytes_to_i8s(&kb))
    }
}

/// Append the encoding of one record.
#[verifier::rlimit(100)]
fn put_record(ser: &mut Serializer, r: &Record) -> (res: Result<(), Error>)
    ensures
        spec_encode_record(record_view(*r)) matches Ok(bs) ==> (res is Ok && final(ser).bytes()
            == old(ser).bytes() + bs),
        spec_encode_record(record_view(*r)) matches Err(e) ==> res == Err::<(), Error>(e),
{
    let vb = match record_value_bytes(&r.value) {
        Ok(b) => b,
        Err(e) => {
            return Err(e);
        },
    };
    if vb.len() > 0x7fff_ffff {
        return Err(Error::MalformedLength);
    }
    if r.keys.len() > 0x7fff_ffff {
        return Err(Error::MalformedLength);
    }
    put_zigzag_varint(ser, r.length as i32);
    ser.put_i8(r.attributes);
    put_zigzag_varint(ser, r.timestamp_delta as i32);
    put_zigzag_varint(ser, r.offset_delta as i32);
    if r.keys.len() == 0 {
        put_zigzag_varint(ser, -1);
    } else {
        put_zigzag_varint(ser, r.keys.len() as i32);
        let ghost key_base = ser.bytes();
        let mut i: usize = 0;
        while i < r.keys.len()
            invariant
                i <= r.keys@.len(),
                ser.bytes() == key_base + r.keys@.take(i as int).map_values(|k: i8| u8_bits(k)),
            decreases r.keys@.len() - i,
        {
            let b = crate::primitives::i8_to_bits(r.keys[i]);
            ser.put_u8(b);
            proof {
                assert(r.keys@.take(i + 1).map_values(|k: i8| u8_bits(k)) =~= r.keys@.take(
                    i as int,
                ).map_values(|k: i8| u8_bits(k)) + seq![u8_bits(r.keys@[i as int])]);
                assert(ser.bytes() =~= key_base + r.keys@.take(i + 1).map_values(
                    |k: i8| u8_bits(k),
                ));
            }
            i = i + 1;
        }
        assert(r.keys@.take(r.keys@.len() as int) =~= r.keys@);
    }
    put_zigzag_varint(ser, vb.len() as i32);
    ser.put_slice(vb.as_slice());
    put_zigzag_varint(ser, r.headers_array_count as i32);
    proof {
        assert(final(ser).bytes() =~= old(ser).bytes() + spec_encode_record(
            record_view(*r),
        )->Ok_0);
    }
    Ok(())
}

/// Decode one record, field by field in wire order.
#[verifier::rlimit(100)]
fn decode_record(de: &mut Deserializer) -> (r: Result<Record, Error>)
    requires
        old(de).wf(),
    ensures
        final(de).wf(),
        spec_decode_record(old(de).remaining()) matches Ok(p) ==> (r matches Ok(rec)
            && record_view(rec) == p.0 && final(de).remaining() == old(de).remaining().skip(p.1)),
        spec_decode_record(old(de).remaining()) matches Err(e) ==> r == Err::<Record, Error>(e),
{
    proof {
        reveal(spec_decode_record);
    }
    let ghost rem0 = old(de).remaining();
    let length = match get_i8zz(de) {
        Ok(x) => x,
        Err(e) => {
            return Err(e);
        },
    };
    let ghost n1 = spec_decode_i8zz(rem0)->Ok_0.1;
    let ghost b1 = rem0.skip(n1);
    let attributes = match de.get_i8() {
        Ok(x) => x,
        Err(e) => {
            return Err(e);
        },
    };
    let ghost b2 = b1.skip(1);
    let timestamp_delta = match get_i8zz(de) {
        Ok(x) => x,
        Err(e) => {
            return Err(e);
        },
    };
    let ghost n3 = spec_decode_i8zz(b2)->Ok_0.1;
    let ghost b3 = b2.skip(n3);
    let offset_delta = match get_i8zz(de) {
        Ok(x) => x,
        Err(e) => {
            return Err(e);
        },
    };
    let ghost n4 = spec_decode_i8zz(b3)->Ok_0.1;
    let ghost head = n1 + 1 + n3 + n4;
    proof {
        lemma_decode_varint_len(rem0);
        lemma_decode_varint_len(b2);
        lemma_decode_varint_len(b3);
        assert(de.remaining() =~= rem0.skip(head));
    }
    let r = decode_record_rest(de, length, attributes, timestamp_delta, offset_delta);
    proof {
        if let Ok((rec, n)) = spec_decode_record_rest(
            rem0.skip(head),
            length,
            attributes,
            timestamp_delta,
            offset_delta,
        ) {
            lemma_decode_record_rest_len(
                rem0.skip(head),
                length,
                attributes,
                timestamp_delta,
                offset_delta,
            );
            assert(rem0.skip(head).skip(n) =~= rem0.skip(head + n));
        }
    }
    r
}

/// Decode the rest of one record, after its four leading framing fields.
fn decode_record_rest(
    de: &mut Deserializer,
    length: i8,
    attributes: i8,
    timestamp_delta: i8,
    offset_delta: i8,
) -> (r: Result<Record, Error>)
    requires
        old(de).wf(),
    ensures
        final(de).wf(),
        spec_decode_record_rest(
            old(de).remaining(),
            length,
            attributes,
            timestamp_delta,
            offset_delta,
        ) matches Ok(p) ==> (r matches Ok(rec) && record_view(rec) == p.0 && final(de).remaining()
            == old(de).remaining().skip(p.1)),
        spec_decode_record_rest(
            old(de).remaining(),
            length,
            attributes,
            timestamp_delta,
            offset_delta,
        ) matches Err(e) ==> r == Err::<Record, Error>(e),
{
    proof {
        reveal(spec_decode_record_rest);
    }
    let ghost b4 = old(de).remaining();
    let klen = match get_zigzag_varint(de) {
        Ok(x) => x,
        Err(e) => {
            return Err(e);
        },
    };
    let ghost n5 = spec_decode_zz(b4)->Ok_0.1;
    let ghost b5 = b4.skip(n5);
    let ghost kcons: int = if klen < 0 {
        0int
    } else {
        klen as int
    };
    let keys: Vec<i8> = match decode_keys(de, klen) {
        Ok(ks) => ks,
        Err(e) => {
            return Err(e);
        },
    };
    let r = decode_record_fin(de, length, attributes, timestamp_delta, offset_delta, keys);
    proof {
        lemma_decode_varint_len(b4);
        let ghost b6 = b5.skip(kcons);
        if let Ok((rec, n)) = spec_decode_record_fin(
            b6,
            length,
            attributes,
            timestamp_delta,
            offset_delta,
            b5.take(kcons).map_values(|x: u8| i8_of_bits(x)),
        ) {
            lemma_decode_record_fin_len(
                b6,
                length,
                attributes,
                timestamp_delta,
                offset_delta,
                b5.take(kcons).map_values(|x: u8| i8_of_bits(x)),
            );
            assert(b4.skip(n5).skip(kcons) =~= b4.skip(n5 + kcons));
            assert(b4.skip(n5 + kcons).skip(n) =~= b4.skip(n5 + kcons + n));
        }
    }
    r
}

/// Decode the tail of one record: the stored value length, the value,
/// and the headers count.
fn decode_record_fin(
    de: &mut Deserializer,
    length: i8,
    attributes: i8,
    timestamp_delta: i8,
    offset_delta: i8,
    keys: Vec<i8>,
) -> (r: Result<Record, Error>)
    requires
        old(de).wf(),
    ensures
        final(de).wf(),
        spec_decode_record_fin(
            old(de).remaining(),
            length,
            attributes,
            timestamp_delta,
            offset_delta,
            keys@,
        ) matches Ok(p) ==> (r matches Ok(rec) && record_view(rec) == p.0 && final(de).remaining()
            == old(de).remaining().skip(p.1)),
        spec_decode_record_fin(
            old(de).remaining(),
            length,
            attributes,
            timestamp_delta,
            offset_delta,
            keys@,
        ) matches Err(e) ==> r == Err::<Record, Error>(e),
{
    proof {
        reveal(spec_decode_record_fin);
    }
    let ghost b6 = old(de).remaining();
    let vlen = match get_zigzag_varint(de) {
        Ok(x) => x,
        Err(e) => {
            return Err(e);
        },
    };
    if vlen < 0 {
        return Err(Error::MalformedLength);
    }
    let ghost n7 = spec_decode_zz(b6)->Ok_0.1;
    let ghost b7 = b6.skip(n7);
    let value = match decode_record_value(de) {
        Ok(v) => v,
        Err(e) => {
            return Err(e);
        },
    };
    let ghost n8 = spec_decode_record_value(b7)->Ok_0.1;
    let ghost b8 = b7.skip(n8);
    let hc = match get_zigzag_varint(de) {
        Ok(x) => x,
        Err(e) => {
            return Err(e);
        },
    };
    if !(0 <= hc && hc <= 255) {
        return Err(Error::MalformedLength);
    }
    let ghost n9 = spec_decode_zz(b8)->Ok_0.1;
    let rec = Record {
        length,
        attributes,
        timestamp_delta,
        offset_delta,
        keys,
        value,
        headers_array_count: hc as u8,
    };
    proof {
        lemma_decode_varint_len(b6);
        lemma_decode_record_value_len(b7);
        lemma_decode_varint_len(b8);
        assert(b6.skip(n7).skip(n8) =~= b6.skip(n7 + n8));
        assert(b6.skip(n7 + n8).skip(n9) =~= b6.skip(n7 + n8 + n9));
    }
    Ok(rec)
}

// ---------------------------------------------------------------------------
// The batch codec.
// ---------------------------------------------------------------------------

/// Append the encoding of one batch.
#[verifier::rlimit(100)]
fn put_batch(ser: &mut Serializer, b: &MetadataLogFile) -> (res: Result<(), Error>)
    ensures
        spec_encode_batch(batch_view(*b)) matches Ok(bs) ==> (res is Ok && final(ser).bytes()
            == old(ser).bytes() + bs),
        spec_encode_batch(batch_view(*b)) matches Err(e) ==> res == Err::<(), Error>(e),
{
    proof {
        reveal(spec_encode_batch);
    }
    if b.records.len() > 0x7fff_ffff {
        return Err(Error::MalformedLength);
    }
    ser.put_i64(b.base_offset);
    ser.put_i32(b.batch_length);
    ser.put_i32(b.partition_leader_epoch);
    ser.put_u8(b.magic_byte);
    ser.put_i32(b.crc);
    ser.put_i16(b.attributes);
    ser.put_i32(b.last_offset_delta);
    ser.put_i64(b.base_timestamp);
    ser.put_i64(b.max_timestamp);
    ser.put_i64(b.producer_id);
    ser.put_i16(b.producer_epoch);
    ser.put_i32(b.base_sequence);
    ser.put_i32(b.records.len() as i32);
    let ghost base = ser.bytes();
    proof {
        assert(base =~= old(ser).bytes() + spec_batch_header(batch_view(*b)));
    }
    let ghost rv = batch_view(*b).records;
    let mut i: usize = 0;
    while i < b.records.len()
        invariant
            i <= b.records@.len(),
            b.records@.len() <= 0x7fff_ffff,
            base == old(ser).bytes() + spec_batch_header(batch_view(*b)),
            rv == batch_view(*b).records,
            rv.len() == b.records@.len(),
            forall|j: int| 0 <= j < rv.len() ==> #[trigger] rv[j] == record_view(b.records@[j]),
            spec_encode_records(rv.take(i as int)) is Ok,
            ser.bytes() == base + spec_encode_records(rv.take(i as int))->Ok_0,
        decreases b.records@.len() - i,
    {
        let r = put_record(ser, &b.records[i]);
        match r {
            Ok(()) => {
                proof {
                    reveal(spec_encode_batch);
                    lemma_encode_records_push(rv.take(i as int), rv[i as int]);
                    assert(rv.take(i as int) + seq![rv[i as int]] =~= rv.take(i + 1));
                    assert(ser.bytes() =~= base + spec_encode_records(rv.take(i + 1))->Ok_0);
                }
            },
            Err(e) => {
                proof {
                    reveal(spec_encode_batch);
                    lemma_encode_records_split(rv, i as int);
                    assert(rv.skip(i as int)[0] == rv[i as int]);
                    assert(spec_encode_records(rv) == Err::<Seq<u8>, Error>(e));
                }
                return Err(e);
            },
        }
        i = i + 1;
    }
    proof {
        reveal(spec_encode_batch);
        assert(rv.take(rv.len() as int) =~= rv);
        assert(final(ser).bytes() =~= old(ser).bytes() + spec_encode_batch(batch_view(*b))->Ok_0);
    }
    Ok(())
}

/// Decode one batch: the fixed header, then the counted records.
#[verifier::rlimit(100)]
fn decode_batch(de: &mut Deserializer) -> (r: Result<MetadataLogFile, Error>)
    requires
        old(de).wf(),
    ensures
        final(de).wf(),
        spec_decode_batch(old(de).remaining()) matches Ok(p) ==> (r matches Ok(batch)
            && batch_view(batch) == p.0 && final(de).remaining() == old(de).remaining().skip(p.1)),
        spec_decode_batch(old(de).remaining()) matches Err(e) ==> r == Err::<
            MetadataLogFile,
            Error,
        >(e),
{
    proof {
        reveal(spec_decode_batch);
    }
    let ghost rem0 = old(de).remaining();
    if de.len() < 61 {
        return Err(Error::Truncated);
    }
    let base_offset = match de.get_i64() {
        Ok(x) => x,
        Err(e) => {
            return Err(e);
        },
    };
    proof {
        assert(de.remaining() =~= rem0.skip(8));
    }
    let batch_length = match de.get_i32() {
        Ok(x) => x,
        Err(e) => {
            return Err(e);
        },
    };
    proof {
        assert(de.remaining() =~= rem0.skip(12));
    }
    let partition_leader_epoch = match de.get_i32() {
        Ok(x) => x,
        Err(e) => {
            return Err(e);
        },
    };
    proof {
        assert(de.remaining() =~= rem0.skip(16));
    }
    let magic_byte = match de.get_u8() {
        Ok(x) => x,
        Err(e) => {
            return Err(e);
        },
    };
    proof {
        assert(de.remaining() =~= rem0.skip(17));
    }
    let crc = match de.get_i32() {
        Ok(x) => x,
        Err(e) => {
            return Err(e);
        },
    };
    proof {
        assert(de.remaining() =~= rem0.skip(21));
    }
    let attributes = match de.get_i16() {
        Ok(x) => x,
        Err(e) => {
            return Err(e);
        },
    };
    proof {
        assert(de.remaining() =~= rem0.skip(23));
    }
    let last_offset_delta = match de.get_i32() {
        Ok(x) => x,
        Err(e) => {
            return Err(e);
        },
    };
    proof {
        assert(de.remaining() =~= rem0.skip(27));
    }
    let base_timestamp = match de.get_i64() {
        Ok(x) => x,
        Err(e) => {
            return Err(e);
        },
    };
    proof {
        assert(de.remaining() =~= rem0.skip(35));
    }
    let max_timestamp = match de.get_i64() {
        Ok(x) => x,
        Err(e) => {
            return Err(e);
        },
    };
    proof {
        assert(de.remaining() =~= rem0.skip(43));
    }
    let producer_id = match de.get_i64() {
        Ok(x) => x,
        Err(e) => {
            return Err(e);
        },
    };
    proof {
        assert(de.remaining() =~= rem0.skip(51));
    }
    let producer_epoch = match de.get_i16() {
        Ok(x) => x,
        Err(e) => {
            return Err(e);
        },
    };
    proof {
        assert(de.remaining() =~= rem0.skip(53));
    }
    let base_sequence = match de.get_i32() {
        Ok(x) => x,
        Err(e) => {
            return Err(e);
        },
    };
    proof {
        assert(de.remaining() =~= rem0.skip(57));
    }
    let count = match de.get_i32() {
        Ok(x) => x,
        Err(e) => {
            return Err(e);
        },
    };
    proof {
        assert(de.remaining() =~= rem0.skip(61));
    }
    if count < 0 {
        return Err(Error::MalformedLength);
    }
    let records = match decode_record_run(de, count as usize) {
        Ok(rs) => rs,
        Err(e) => {
            return Err(e);
        },
    };
    let batch = MetadataLogFile {
        base_offset,
        batch_length,
        partition_leader_epoch,
        magic_byte,
        crc,
        attributes,
        last_offset_delta,
        base_timestamp,
        max_timestamp,
        producer_id,
        producer_epoch,
        base_sequence,
        records,
    };
    proof {
        let n = spec_decode_records(count as nat, rem0.skip(61))->Ok_0.1;
        lemma_decode_records_len(count as nat, rem0.skip(61));
        assert(rem0.skip(61).skip(n) =~= rem0.skip(61 + n));
        assert(batch_view(batch).records =~= spec_decode_records(count as nat, rem0.skip(61))->Ok_0.0);
    }
    Ok(batch)
}

/// Decode exactly `count` records, in order.
fn decode_record_run(de: &mut Deserializer, count: usize) -> (r: Result<Vec<Record>, Error>)
    requires
        old(de).wf(),
    ensures
        final(de).wf(),
        spec_decode_records(count as nat, old(de).remaining()) matches Ok(p) ==> (r matches Ok(rs)
            && rs@.map_values(|x: Record| record_view(x)) == p.0 && final(de).remaining() == old(
            de,
        ).remaining().skip(p.1)),
        spec_decode_records(count as nat, old(de).remaining()) matches Err(e) ==> r == Err::<
            Vec<Record>,
            Error,
        >(e),
{
    let ghost rem0 = old(de).remaining();
    let ghost full = spec_decode_records(count as nat, rem0);
    let mut out: Vec<Record> = Vec::new();
    let ghost mut consumed: int = 0;
    let mut k: usize = 0;
    proof {
        assert(rem0.skip(0) =~= rem0);
        if let Ok(p) = full {
            assert(out@.map_values(|x: Record| record_view(x)) + p.0 =~= p.0);
        }
    }
    while k < count
        invariant
            de.wf(),
            k <= count,
            rem0 == old(de).remaining(),
            full == spec_decode_records(count as nat, rem0),
            0 <= consumed <= rem0.len(),
            de.remaining() == rem0.skip(consumed),
            (match spec_decode_records((count - k) as nat, de.remaining()) {
                Ok(p) => full == Ok::<(Seq<SpecRecord>, int), Error>(
                    (out@.map_values(|x: Record| record_view(x)) + p.0, consumed + p.1),
                ),
                Err(er) => full == Err::<(Seq<SpecRecord>, int), Error>(er),
            }),
        decreases count - k,
    {
        let ghost cur = de.remaining();
        let r = decode_record(de);
        match r {
            Ok(rec) => {
                proof {
                    let n1 = spec_decode_record(cur)->Ok_0.1;
                    lemma_decode_record_len(cur);
                    assert(rem0.skip(consumed).skip(n1) =~= rem0.skip(consumed + n1));
                    let tail = spec_decode_records((count - k - 1) as nat, cur.skip(n1));
                    if let Ok(q) = tail {
                        let f = |x: Record| record_view(x);
                        assert(out@.push(rec).map_values(f) =~= out@.map_values(f) + seq![
                            record_view(rec),
                        ]);
                        assert((out@.map_values(f) + seq![record_view(rec)]) + q.0 =~= out@.map_values(
                            f,
                        ) + (seq![record_view(rec)] + q.0));
                    }
                    consumed = consumed + n1;
                }
                out.push(rec);
            },
            Err(er) => {
                proof {
                    assert(spec_decode_record(cur) == Err::<(SpecRecord, int), Error>(er));
                    assert(spec_decode_records((count - k) as nat, cur) == Err::<
                        (Seq<SpecRecord>, int),
                        Error,
                    >(er));
                }
                return Err(er);
            },
        }
        k = k + 1;
    }
    proof {
        if let Ok(p) = full {
            assert(out@.map_values(|x: Record| record_view(x)) + Seq::<SpecRecord>::empty()
                =~= out@.map_values(|x: Record| record_view(x)));
        }
    }
    Ok(out)
}

// ---------------------------------------------------------------------------
// The whole log.
// ---------------------------------------------------------------------------

/// Encode a whole in-memory log: each batch's bytes back to back.
pub fn encode_log(batches: &Vec<MetadataLogFile>) -> (r: Result<Vec<u8>, Error>)
    ensures
        spec_encode_log(batches_view(batches@)) matches Ok(bs) ==> (r matches Ok(out) && out@
            == bs),
        spec_encode_log(batches_view(batches@)) matches Err(e) ==> r == Err::<Vec<u8>, Error>(e),
{
    let mut ser = Serializer::new();
    let ghost bv = batches_view(batches@);
    let mut i: usize = 0;
    while i < batches.len()
        invariant
            i <= batches@.len(),
            bv == batches_view(batches@),
            bv.len() == batches@.len(),
            forall|j: int| 0 <= j < bv.len() ==> #[trigger] bv[j] == batch_view(batches@[j]),
            spec_encode_log(bv.take(i as int)) is Ok,
            ser.bytes() == spec_encode_log(bv.take(i as int))->Ok_0,
        decreases batches@.len() - i,
    {
        let r = put_batch(&mut ser, &batches[i]);
        match r {
            Ok(()) => {
                proof {
                    lemma_encode_log_push(bv.take(i as int), bv[i as int]);
                    assert(bv.take(i as int) + seq![bv[i as int]] =~= bv.take(i + 1));
                    assert(ser.bytes() =~= spec_encode_log(bv.take(i + 1))->Ok_0);
                }
            },
            Err(e) => {
                proof {
                    lemma_encode_log_split(bv, i as int);
                    assert(bv.skip(i as int)[0] == bv[i as int]);
                    assert(spec_encode_log(bv) == Err::<Seq<u8>, Error>(e));
                }
                return Err(e);
            },
        }
        i = i + 1;
    }
    assert(bv.take(bv.len() as int) =~= bv);
    Ok(ser.into_bytes())
}

/// Appending one batch to a log appends its encoding, or surfaces the
/// first failure.
pub proof fn lemma_encode_log_push(a: Seq<SpecBatch>, x: SpecBatch)
    ensures
        spec_encode_log(a) matches Err(e) ==> spec_encode_log(a + seq![x]) == Err::<Seq<u8>, Error>(
            e,
        ),
        spec_encode_log(a) is Ok && spec_encode_batch(x) is Err ==> spec_encode_log(a + seq![x])
            == Err::<Seq<u8>, Error>(spec_encode_batch(x)->Err_0),
        spec_encode_log(a) is Ok && spec_encode_batch(x) is Ok ==> spec_encode_log(a + seq![x])
            == Ok::<Seq<u8>, Error>(spec_encode_log(a)->Ok_0 + spec_encode_batch(x)->Ok_0),
    decreases a.len(),
{
    let ax = a + seq![x];
    if a.len() == 0 {
        assert(ax[0] == x);
        assert(ax.drop_first() =~= Seq::<SpecBatch>::empty());
        if spec_encode_batch(x) is Ok {
            assert(spec_encode_batch(x)->Ok_0 + Seq::<u8>::empty() =~= spec_encode_batch(x)->Ok_0);
            assert(Seq::<u8>::empty() + spec_encode_batch(x)->Ok_0 =~= spec_encode_batch(x)->Ok_0);
        }
    } else {
        assert(ax[0] == a[0]);
        assert(ax.drop_first() =~= a.drop_first() + seq![x]);
        lemma_encode_log_push(a.drop_first(), x);
        if spec_encode_log(a) is Ok && spec_encode_batch(x) is Ok {
            assert(spec_encode_batch(a[0])->Ok_0 + (spec_encode_log(a.drop_first())->Ok_0
                + spec_encode_batch(x)->Ok_0) =~= (spec_encode_batch(a[0])->Ok_0 + spec_encode_log(
                a.drop_first(),
            )->Ok_0) + spec_encode_batch(x)->Ok_0);
        }
    }
}

/// An encoded log splits at any point.
pub proof fn lemma_encode_log_split(bs: Seq<SpecBatch>, i: int)
    requires
        0 <= i <= bs.len(),
    ensures
        spec_encode_log(bs.take(i)) matches Err(e) ==> spec_encode_log(bs) == Err::<Seq<u8>, Error>(
            e,
        ),
        spec_encode_log(bs.take(i)) is Ok ==> spec_encode_log(bs) == (
        match spec_encode_log(bs.skip(i)) {
            Ok(q) => Ok(spec_encode_log(bs.take(i))->Ok_0 + q),
            Err(e) => Err(e),
        }),
    decreases i,
{
    if i == 0 {
        assert(bs.take(0) =~= Seq::<SpecBatch>::empty());
        assert(bs.skip(0) =~= bs);
        if spec_encode_log(bs) is Ok {
            assert(Seq::<u8>::empty() + spec_encode_log(bs)->Ok_0 =~= spec_encode_log(bs)->Ok_0);
        }
    } else {
        let head = bs.take(i);
        assert(head[0] == bs[0]);
        assert(head.drop_first() =~= bs.drop_first().take(i - 1));
        assert(bs.skip(i) =~= bs.drop_first().skip(i - 1));
        lemma_encode_log_split(bs.drop_first(), i - 1);
        match spec_encode_batch(bs[0]) {
            Ok(h) => {
                if spec_encode_log(head) is Ok {
                    let p1 = spec_encode_log(bs.drop_first().take(i - 1))->Ok_0;
                    match spec_encode_log(bs.drop_first().skip(i - 1)) {
                        Ok(q) => {
                            assert(h + (p1 + q) =~= (h + p1) + q);
                        },
                        Err(_) => {},
                    }
                }
            },
            Err(_) => {},
        }
    }
}

// ---------------------------------------------------------------------------
// The round-trip law for the on-disk format.
// ---------------------------------------------------------------------------

/// The discriminant stored in a record value names the shape its
/// remaining fields actually have. Decoding dispatches on that stored
/// byte, so the law below holds exactly of the values that keep this.
pub open spec fn wf_record_value(v: SpecRecordValue) -> bool {
    if v.value_type == spec_feature_level_type() {
        conforms(v.tail, spec_feature_level_tail_schema())
    } else if v.value_type == spec_topic_type() {
        conforms(v.tail, spec_topic_tail_schema())
    } else if v.value_type == spec_partition_type() {
        conforms(v.tail, spec_partition_tail_schema())
    } else {
        false
    }
}

pub open spec fn wf_record(r: SpecRecord) -> bool {
    wf_record_value(r.value)
}

pub open spec fn wf_batch(b: SpecBatch) -> bool {
    forall|i: int| 0 <= i < b.records.len() ==> wf_record(#[trigger] b.records[i])
}

pub open spec fn wf_log(bs: Seq<SpecBatch>) -> bool {
    forall|i: int| 0 <= i < bs.len() ==> wf_batch(#[trigger] bs[i])
}

/// Decoding the encoding of one record value, with anything after it,
/// yields that value back.
pub proof fn lemma_record_value_round(v: SpecRecordValue, t: Seq<u8>)
    requires
        wf_record_value(v),
        spec_encode_record_value(v) is Ok,
    ensures
        spec_decode_record_value(spec_encode_record_value(v)->Ok_0 + t) == Ok::<
            (SpecRecordValue, int),
            Error,
        >((v, spec_encode_record_value(v)->Ok_0.len() as int)),
{
    let tb = crate::value::spec_encode(v.tail)->Ok_0;
    let enc = spec_encode_record_value(v)->Ok_0;
    let full = enc + t;
    assert(full[0] == u8_bits(v.frame_version));
    assert(full[1] == u8_bits(v.value_type));
    assert(full[2] == u8_bits(v.version));
    crate::primitives::lemma_i8_bits_inverse(v.frame_version);
    crate::primitives::lemma_i8_bits_inverse(v.value_type);
    crate::primitives::lemma_i8_bits_inverse(v.version);
    assert(full.skip(3) =~= tb + t);
    if v.value_type == spec_feature_level_type() {
        crate::value::lemma_round_trip(v.tail, spec_feature_level_tail_schema(), t);
    } else if v.value_type == spec_topic_type() {
        crate::value::lemma_round_trip(v.tail, spec_topic_tail_schema(), t);
    } else {
        crate::value::lemma_round_trip(v.tail, spec_partition_tail_schema(), t);
    }
}

/// One signed zigzag varint round trip, for a value that fits a single
/// signed byte.
proof fn lemma_i8zz_round(x: i8, t: Seq<u8>)
    ensures
        spec_decode_i8zz(spec_varint(spec_zigzag(x as i32)) + t) == Ok::<(i8, int), Error>(
            (x, spec_varint(spec_zigzag(x as i32)).len() as int),
        ),
{
    crate::varint::lemma_varint_round(spec_zigzag(x as i32), t);
    crate::varint::lemma_zigzag_inverse(x as i32);
}

/// One signed zigzag varint round trip.
proof fn lemma_zz_round(x: i32, t: Seq<u8>)
    ensures
        spec_decode_zz(spec_varint(spec_zigzag(x)) + t) == Ok::<(i32, int), Error>(
            (x, spec_varint(spec_zigzag(x)).len() as int),
        ),
{
    crate::varint::lemma_varint_round(spec_zigzag(x), t);
    crate::varint::lemma_zigzag_inverse(x);
}

/// The tail of a record's encoding: its value behind the stored length,
/// then the headers count.
spec fn spec_record_fin_bytes(r: SpecRecord) -> Seq<u8> {
    let vb = spec_encode_record_value(r.value)->Ok_0;
    spec_varint(spec_zigzag(vb.len() as i32)) + vb + spec_varint(
        spec_zigzag(r.headers_array_count as i32),
    )
}

proof fn lemma_record_fin_round(r: SpecRecord, t: Seq<u8>)
    requires
        wf_record(r),
        spec_encode_record_value(r.value) is Ok,
        spec_encode_record_value(r.value)->Ok_0.len() <= 0x7fff_ffff,
    ensures
        spec_decode_record_fin(
            spec_record_fin_bytes(r) + t,
            r.length,
            r.attributes,
            r.timestamp_delta,
            r.offset_delta,
            r.keys,
        ) == Ok::<(SpecRecord, int), Error>((r, spec_record_fin_bytes(r).len() as int)),
{
    reveal(spec_decode_record_fin);
    let vb = spec_encode_record_value(r.value)->Ok_0;
    let p6 = spec_varint(spec_zigzag(vb.len() as i32));
    let p8 = spec_varint(spec_zigzag(r.headers_array_count as i32));
    let b6 = spec_record_fin_bytes(r) + t;
    assert(b6 =~= p6 + (vb + (p8 + t)));
    lemma_zz_round(vb.len() as i32, vb + (p8 + t));
    let b7 = b6.skip(p6.len() as int);
    assert(b7 =~= vb + (p8 + t));
    lemma_record_value_round(r.value, p8 + t);
    let b8 = b7.skip(vb.len() as int);
    assert(b8 =~= p8 + t);
    lemma_zz_round(r.headers_array_count as i32, t);
}

/// The rest of a record's encoding after the four framing fields: the
/// keys, then the tail.
spec fn spec_record_rest_bytes(r: SpecRecord) -> Seq<u8> {
    let keypart = if r.keys.len() == 0 {
        spec_varint(spec_zigzag(-1i32))
    } else {
        spec_varint(spec_zigzag(r.keys.len() as i32)) + r.keys.map_values(|k: i8| u8_bits(k))
    };
    keypart + spec_record_fin_bytes(r)
}

#[verifier::rlimit(100)]
proof fn lemma_record_rest_round(r: SpecRecord, t: Seq<u8>)
    requires
        wf_record(r),
        spec_encode_record_value(r.value) is Ok,
        spec_encode_record_value(r.value)->Ok_0.len() <= 0x7fff_ffff,
        r.keys.len() <= 0x7fff_ffff,
    ensures
        spec_decode_record_rest(
            spec_record_rest_bytes(r) + t,
            r.length,
            r.attributes,
            r.timestamp_delta,
            r.offset_delta,
        ) == Ok::<(SpecRecord, int), Error>((r, spec_record_rest_bytes(r).len() as int)),
{
    reveal(spec_decode_record_rest);
    let klen: i32 = if r.keys.len() == 0 {
        -1i32
    } else {
        r.keys.len() as i32
    };
    let kbytes = if r.keys.len() == 0 {
        Seq::<u8>::empty()
    } else {
        r.keys.map_values(|k: i8| u8_bits(k))
    };
    let fin = spec_record_fin_bytes(r);
    let b4 = spec_record_rest_bytes(r) + t;
    assert(b4 =~= spec_varint(spec_zigzag(klen)) + (kbytes + (fin + t)));
    lemma_zz_round(klen, kbytes + (fin + t));
    let b5 = b4.skip(spec_varint(spec_zigzag(klen)).len() as int);
    assert(b5 =~= kbytes + (fin + t));
    let kcons: int = if klen < 0 {
        0
    } else {
        klen as int
    };
    assert(kcons == kbytes.len());
    assert forall|i: int| 0 <= i < kcons implies b5.take(kcons).map_values(|x: u8| i8_of_bits(x))[i]
        == r.keys[i] by {
        assert(b5.take(kcons)[i] == u8_bits(r.keys[i]));
        crate::primitives::lemma_i8_bits_inverse(r.keys[i]);
    }
    assert(b5.take(kcons).map_values(|x: u8| i8_of_bits(x)) =~= r.keys);
    let b6 = b5.skip(kcons);
    assert(b6 =~= fin + t);
    lemma_record_fin_round(r, t);
}

/// Decoding the encoding of one record, with anything after it, yields
/// that record back; the empty key run goes out as the null marker and
/// comes back empty.
#[verifier::rlimit(100)]
pub proof fn lemma_record_round(r: SpecRecord, t: Seq<u8>)
    requires
        wf_record(r),
        spec_encode_record(r) is Ok,
    ensures
        spec_decode_record(spec_encode_record(r)->Ok_0 + t) == Ok::<(SpecRecord, int), Error>(
            (r, spec_encode_record(r)->Ok_0.len() as int),
        ),
{
    reveal(spec_decode_record);
    let enc = spec_encode_record(r)->Ok_0;
    let full = enc + t;
    let p1 = spec_varint(spec_zigzag(r.length as i32));
    let p2 = seq![u8_bits(r.attributes)];
    let p3 = spec_varint(spec_zigzag(r.timestamp_delta as i32));
    let p4 = spec_varint(spec_zigzag(r.offset_delta as i32));
    let rest = spec_record_rest_bytes(r);
    assert(enc =~= p1 + p2 + p3 + p4 + rest);
    assert(full =~= p1 + (p2 + p3 + p4 + rest + t));
    lemma_i8zz_round(r.length, p2 + p3 + p4 + rest + t);
    let b1 = full.skip(p1.len() as int);
    assert(b1 =~= p2 + (p3 + p4 + rest + t));
    assert(b1[0] == u8_bits(r.attributes));
    crate::primitives::lemma_i8_bits_inverse(r.attributes);
    let b2 = b1.skip(1);
    assert(b2 =~= p3 + (p4 + rest + t));
    lemma_i8zz_round(r.timestamp_delta, p4 + rest + t);
    let b3 = b2.skip(p3.len() as int);
    assert(b3 =~= p4 + (rest + t));
    lemma_i8zz_round(r.offset_delta, rest + t);
    let b4 = b3.skip(p4.len() as int);
    assert(b4 =~= rest + t);
    assert(full.skip((p1.len() + 1 + p3.len() + p4.len()) as int) =~= b4);
    lemma_record_rest_round(r, t);
}

/// A run of records decodes back element by element.
pub proof fn lemma_records_round(rs: Seq<SpecRecord>, t: Seq<u8>)
    requires
        forall|i: int| 0 <= i < rs.len() ==> wf_record(#[trigger] rs[i]),
        spec_encode_records(rs) is Ok,
    ensures
        spec_decode_records(rs.len(), spec_encode_records(rs)->Ok_0 + t) == Ok::<
            (Seq<SpecRecord>, int),
            Error,
        >((rs, spec_encode_records(rs)->Ok_0.len() as int)),
    decreases rs.len(),
{
    let body = spec_encode_records(rs)->Ok_0;
    if rs.len() == 0 {
        assert(body + t =~= t);
        assert(rs =~= Seq::<SpecRecord>::empty());
    } else {
        let h = spec_encode_record(rs[0])->Ok_0;
        let rest = spec_encode_records(rs.drop_first())->Ok_0;
        assert(body + t =~= h + (rest + t));
        lemma_record_round(rs[0], rest + t);
        assert((body + t).skip(h.len() as int) =~= rest + t);
        assert(forall|i: int|
            0 <= i < rs.drop_first().len() ==> wf_record(#[trigger] rs.drop_first()[i]));
        lemma_records_round(rs.drop_first(), t);
        assert(seq![rs[0]] + rs.drop_first() =~= rs);
    }
}

/// Decoding the encoding of one batch, with anything after it, yields
/// that batch back.
#[verifier::rlimit(100)]
pub proof fn lemma_batch_round(b: SpecBatch, t: Seq<u8>)
    requires
        wf_batch(b),
        spec_encode_batch(b) is Ok,
    ensures
        spec_decode_batch(spec_encode_batch(b)->Ok_0 + t) == Ok::<(SpecBatch, int), Error>(
            (b, spec_encode_batch(b)->Ok_0.len() as int),
        ),
{
    reveal(spec_encode_batch);
    reveal(spec_decode_batch);
    let head = spec_batch_header(b);
    let rb = spec_encode_records(b.records)->Ok_0;
    let enc = spec_encode_batch(b)->Ok_0;
    let full = enc + t;
    assert(head.len() == 61);
    assert forall|i: int| 0 <= i < 61 implies full[i] == head[i] by {
        assert(enc[i] == head[i]);
    }
    crate::primitives::lemma_be64_inverse(u64_bits(b.base_offset));
    crate::primitives::lemma_i64_bits_inverse(b.base_offset);
    crate::primitives::lemma_be32_inverse(u32_bits(b.batch_length));
    crate::primitives::lemma_i32_bits_inverse(b.batch_length);
    crate::primitives::lemma_be32_inverse(u32_bits(b.partition_leader_epoch));
    crate::primitives::lemma_i32_bits_inverse(b.partition_leader_epoch);
    crate::primitives::lemma_be32_inverse(u32_bits(b.crc));
    crate::primitives::lemma_i32_bits_inverse(b.crc);
    crate::primitives::lemma_be16_inverse(u16_bits(b.attributes));
    crate::primitives::lemma_i16_bits_inverse(b.attributes);
    crate::primitives::lemma_be32_inverse(u32_bits(b.last_offset_delta));
    crate::primitives::lemma_i32_bits_inverse(b.last_offset_delta);
    crate::primitives::lemma_be64_inverse(u64_bits(b.base_timestamp));
    crate::primitives::lemma_i64_bits_inverse(b.base_timestamp);
    crate::primitives::lemma_be64_inverse(u64_bits(b.max_timestamp));
    crate::primitives::lemma_i64_bits_inverse(b.max_timestamp);
    crate::primitives::lemma_be64_inverse(u64_bits(b.producer_id));
    crate::primitives::lemma_i64_bits_inverse(b.producer_id);
    crate::primitives::lemma_be16_inverse(u16_bits(b.producer_epoch));
    crate::primitives::lemma_i16_bits_inverse(b.producer_epoch);
    crate::primitives::lemma_be32_inverse(u32_bits(b.base_sequence));
    crate::primitives::lemma_i32_bits_inverse(b.base_sequence);
    crate::primitives::lemma_be32_inverse(u32_bits(b.records.len() as i32));
    crate::primitives::lemma_i32_bits_inverse(b.records.len() as i32);
    assert(full.skip(61) =~= rb + t);
    lemma_records_round(b.records, t);
}

/// The round-trip law for the on-disk log: any run of well-formed,
/// encodable batches written out and parsed back yields the same batches.
pub proof fn lemma_log_round_trip(bs: Seq<SpecBatch>)
    requires
        wf_log(bs),
        spec_encode_log(bs) is Ok,
    ensures
        spec_decode_log(spec_encode_log(bs)->Ok_0) == Ok::<Seq<SpecBatch>, Error>(bs),
    decreases bs.len(),
{
    let enc = spec_encode_log(bs)->Ok_0;
    if bs.len() == 0 {
        assert(bs =~= Seq::<SpecBatch>::empty());
    } else {
        let h = spec_encode_batch(bs[0])->Ok_0;
        let rest = spec_encode_log(bs.drop_first())->Ok_0;
        assert(enc =~= h + rest);
        lemma_batch_round(bs[0], rest);
        proof_batch_encoding_nonempty(bs[0]);
        assert(enc.len() > 0);
        assert(enc.skip(h.len() as int) =~= rest);
        assert(forall|i: int|
            0 <= i < bs.drop_first().len() ==> wf_batch(#[trigger] bs.drop_first()[i]));
        lemma_log_round_trip(bs.drop_first());
        assert(seq![bs[0]] + bs.drop_first() =~= bs);
    }
}

/// A batch's encoding is never empty: its fixed header alone holds
/// sixty-one bytes.
proof fn proof_batch_encoding_nonempty(b: SpecBatch)
    requires
        spec_encode_batch(b) is Ok,
    ensures
        spec_encode_batch(b)->Ok_0.len() >= 61,
{
    reveal(spec_encode_batch);
    assert(spec_batch_header(b).len() == 61);
}

/// Parse the full contents of a log file: batches back to back until the
/// input is exhausted.
pub fn parse_log(bytes: &[u8]) -> (r: Result<Vec<MetadataLogFile>, Error>)
    ensures
        spec_decode_log(bytes@) matches Ok(bs) ==> (r matches Ok(out) && batches_view(out@) == bs),
        spec_decode_log(bytes@) matches Err(e) ==> r == Err::<Vec<MetadataLogFile>, Error>(e),
{
    let mut de = Deserializer::from_bytes(bytes);
    let ghost full = spec_decode_log(bytes@);
    let mut out: Vec<MetadataLogFile> = Vec::new();
    proof {
        if let Ok(bs) = full {
            assert(batches_view(out@) + bs =~= bs);
        }
    }
    while !de.is_empty()
        invariant
            de.wf(),
            full == spec_decode_log(bytes@),
            (match spec_decode_log(de.remaining()) {
                Ok(bs) => full == Ok::<Seq<SpecBatch>, Error>(batches_view(out@) + bs),
                Err(er) => full == Err::<Seq<SpecBatch>, Error>(er),
            }),
        decreases de.remaining().len(),
    {
        let ghost cur = de.remaining();
        let r = decode_batch(&mut de);
        match r {
            Ok(batch) => {
                proof {
                    let n = spec_decode_batch(cur)->Ok_0.1;
                    lemma_decode_batch_len(cur);
                    let f = |x: MetadataLogFile| batch_view(x);
                    if let Ok(bs2) = spec_decode_log(cur.skip(n)) {
                        assert(out@.push(batch).map_values(f) =~= out@.map_values(f) + seq![
                            batch_view(batch),
                        ]);
                        assert((out@.map_values(f) + seq![batch_view(batch)]) + bs2
                            =~= out@.map_values(f) + (seq![batch_view(batch)] + bs2));
                    }
                }
                out.push(batch);
            },
            Err(er) => {
                proof {
                    assert(spec_decode_batch(cur) == Err::<(SpecBatch, int), Error>(er));
                    assert(spec_decode_log(cur) == Err::<Seq<SpecBatch>, Error>(er));
                }
                return Err(er);
            },
        }
    }
    proof {
        assert(spec_decode_log(de.remaining()) == Ok::<Seq<SpecBatch>, Error>(
            Seq::<SpecBatch>::empty(),
        ));
        if let Ok(bs) = full {
            assert(batches_view(out@) + Seq::<SpecBatch>::empty() =~= batches_view(out@));
        }
    }
    Ok(out)
}

} // verus!
