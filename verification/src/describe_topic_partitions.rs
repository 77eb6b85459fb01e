//! The topic-partition lookup exchange: its request and response
//! payloads and the handler that answers every lookup as unknown.

use vstd::prelude::*;

use crate::compact_string::CompactString;
use crate::constants::ErrorCode;
use crate::error::Error;
use crate::headers::{RequestHeaderV2, ResponseHeaderV1};
use crate::uuid::Uuid;
use crate::value::{
    conforms, conforms_all, lemma_conforms_all_index, lemma_conforms_zip_index, lemma_schemas_view,
    lemma_values_view, schemas_view, value_view, values_view, Schema, SpecSchema, SpecValue, Value,
};

verus! {

broadcast use vstd::seq_lib::group_seq_properties;

/// One requested topic: its name and the reserved tag buffer.
#[derive(Debug, PartialEq, Eq, Clone, Default)]
pub struct TopicRequest {
    pub name: CompactString,
    pub tag_buffer: u8,
}

impl TopicRequest {
    pub open spec fn spec_schema() -> SpecSchema {
        SpecSchema::Struct(seq![SpecSchema::CompactStr, SpecSchema::U8])
    }

    pub fn schema() -> (s: Schema)
        ensures
            s@ == Self::spec_schema(),
    {
        let fields = vec![Schema::CompactStr, Schema::U8];
        let ghost fv = fields@;
        let s = Schema::Struct(fields);
        proof {
            lemma_schemas_view(fv);
            assert(schemas_view(fv) =~= Self::spec_schema()->Struct_0);
        }
        s
    }

    pub open spec fn as_value(self) -> SpecValue {
        SpecValue::Struct(
            seq![SpecValue::CompactStr(self.name@), SpecValue::U8(self.tag_buffer)],
        )
    }

    pub fn to_value(&self) -> (r: Value)
        ensures
            r@ == self.as_value(),
    {
        let fields = vec![
            Value::CompactStr(CompactString(self.name.0.clone())),
            Value::U8(self.tag_buffer),
        ];
        let ghost fv = fields@;
        let v = Value::Struct(fields);
        proof {
            lemma_values_view(fv);
            assert(values_view(fv) =~= self.as_value()->Struct_0);
        }
        v
    }

    /// Rebuild one requested topic from a structured value of its shape.
    pub fn from_value(v: &Value) -> (r: Self)
        requires
            conforms(v@, Self::spec_schema()),
        ensures
            r.as_value() == v@,
    {
        match v {
            Value::Struct(fields) => {
                proof {
                    lemma_values_view(fields@);
                    lemma_conforms_zip_index(values_view(fields@), Self::spec_schema()->Struct_0);
                    let ss = Self::spec_schema()->Struct_0;
                    assert(conforms(values_view(fields@)[0], ss[0]) && ss[0]
                        == SpecSchema::CompactStr);
                    assert(conforms(values_view(fields@)[1], ss[1]) && ss[1] == SpecSchema::U8);
                }
                let name = match &fields[0] {
                    Value::CompactStr(x) => CompactString(x.0.clone()),
                    _ => vstd::pervasive::unreached(),
                };
                let tag_buffer = match &fields[1] {
                    Value::U8(x) => *x,
                    _ => vstd::pervasive::unreached(),
                };
                let r = TopicRequest { name, tag_buffer };
                proof {
                    assert(r.as_value()->Struct_0 =~= values_view(fields@));
                }
                r
            },
            _ => vstd::pervasive::unreached(),
        }
    }
}

/// The request body: the requested topics, a partition limit, a cursor,
/// and the reserved tag buffer.
#[derive(Debug, PartialEq, Eq, Clone, Default)]
pub struct DescribeTopicPartitionsRequestBody {
    pub topics: Vec<TopicRequest>,
    pub response_partition_limit: i32,
    pub cursor: u8,
    pub tag_buffer: u8,
}

impl DescribeTopicPartitionsRequestBody {
    pub open spec fn spec_schema() -> SpecSchema {
        SpecSchema::Struct(
            seq![
                SpecSchema::Array(Box::new(TopicRequest::spec_schema())),
                SpecSchema::I32,
                SpecSchema::U8,
                SpecSchema::U8,
            ],
        )
    }

    pub fn schema() -> (s: Schema)
        ensures
            s@ == Self::spec_schema(),
    {
        let topic = TopicRequest::schema();
        let fields = vec![Schema::Array(Box::new(topic)), Schema::I32, Schema::U8, Schema::U8];
        let ghost fv = fields@;
        let s = Schema::Struct(fields);
        proof {
            lemma_schemas_view(fv);
            assert(schemas_view(fv) =~= Self::spec_schema()->Struct_0);
        }
        s
    }

    pub open spec fn as_value(self) -> SpecValue {
        SpecValue::Struct(
            seq![
                SpecValue::Array(self.topics@.map_values(|t: TopicRequest| t.as_value())),
                SpecValue::I32(self.response_partition_limit),
                SpecValue::U8(self.cursor),
                SpecValue::U8(self.tag_buffer),
            ],
        )
    }

    pub fn to_value(&self) -> (r: Value)
        ensures
            r@ == self.as_value(),
    {
        let mut elems: Vec<Value> = Vec::new();
        let mut i: usize = 0;
        while i < self.topics.len()
            invariant
                i <= self.topics@.len(),
                elems@.len() == i,
                forall|j: int| 0 <= j < i ==> #[trigger] elems@[j]@ == self.topics@[j].as_value(),
            decreases self.topics@.len() - i,
        {
            let e = self.topics[i].to_value();
            elems.push(e);
            i = i + 1;
        }
        let ghost ev = elems@;
        let fields = vec![
            Value::Array(elems),
            Value::I32(self.response_partition_limit),
            Value::U8(self.cursor),
            Value::U8(self.tag_buffer),
        ];
        let ghost fv = fields@;
        let v = Value::Struct(fields);
        proof {
            lemma_values_view(ev);
            assert forall|j: int| 0 <= j < ev.len() implies values_view(ev)[j]
                == self.topics@.map_values(|t: TopicRequest| t.as_value())[j] by {
                assert(values_view(ev)[j] == value_view(ev[j]));
                assert(ev[j]@ == self.topics@[j].as_value());
            }
            assert(values_view(ev) =~= self.topics@.map_values(|t: TopicRequest| t.as_value()));
            lemma_values_view(fv);
            assert(values_view(fv) =~= self.as_value()->Struct_0);
        }
        v
    }

    /// Rebuild the request body from a structured value of its shape.
    pub fn from_value(v: &Value) -> (r: Self)
        requires
            conforms(v@, Self::spec_schema()),
        ensures
            r.as_value() == v@,
    {
        match v {
            Value::Struct(fields) => {
                proof {
                    lemma_values_view(fields@);
                    lemma_conforms_zip_index(values_view(fields@), Self::spec_schema()->Struct_0);
                    let ss = Self::spec_schema()->Struct_0;
                    assert(conforms(values_view(fields@)[0], ss[0]) && ss[0] == SpecSchema::Array(
                        Box::new(TopicRequest::spec_schema()),
                    ));
                    assert(conforms(values_view(fields@)[1], ss[1]) && ss[1] == SpecSchema::I32);
                    assert(conforms(values_view(fields@)[2], ss[2]) && ss[2] == SpecSchema::U8);
                    assert(conforms(values_view(fields@)[3], ss[3]) && ss[3] == SpecSchema::U8);
                }
                let topics = match &fields[0] {
                    Value::Array(elems) => {
                        proof {
                            lemma_values_view(elems@);
                            assert(conforms_all(
                                values_view(elems@),
                                TopicRequest::spec_schema(),
                            ));
                            lemma_conforms_all_index(
                                values_view(elems@),
                                TopicRequest::spec_schema(),
                            );
                        }
                        let mut out: Vec<TopicRequest> = Vec::new();
                        let mut i: usize = 0;
                        while i < elems.len()
                            invariant
                                i <= elems@.len(),
                                out@.len() == i,
                                values_view(elems@).len() == elems@.len(),
                                forall|j: int|
                                    0 <= j < elems@.len() ==> #[trigger] values_view(elems@)[j]
                                        == elems@[j]@,
                                forall|j: int|
                                    0 <= j < elems@.len() ==> conforms(
                                        #[trigger] values_view(elems@)[j],
                                        TopicRequest::spec_schema(),
                                    ),
                                forall|j: int|
                                    0 <= j < i ==> #[trigger] out@[j].as_value() == elems@[j]@,
                            decreases elems@.len() - i,
                        {
                            proof {
                                assert(conforms(
                                    values_view(elems@)[i as int],
                                    TopicRequest::spec_schema(),
                                ));
                                assert(values_view(elems@)[i as int] == elems@[i as int]@);
                            }
                            let t = TopicRequest::from_value(&elems[i]);
                            out.push(t);
                            i = i + 1;
                        }
                        out
                    },
                    _ => vstd::pervasive::unreached(),
                };
                let response_partition_limit = match &fields[1] {
                    Value::I32(x) => *x,
                    _ => vstd::pervasive::unreached(),
                };
                let cursor = match &fields[2] {
                    Value::U8(x) => *x,
                    _ => vstd::pervasive::unreached(),
                };
                let tag_buffer = match &fields[3] {
                    Value::U8(x) => *x,
                    _ => vstd::pervasive::unreached(),
                };
                let r = DescribeTopicPartitionsRequestBody {
                    topics,
                    response_partition_limit,
                    cursor,
                    tag_buffer,
                };
                proof {
                    if let SpecValue::Array(tv) = values_view(fields@)[0] {
                        assert(r.topics@.map_values(|t: TopicRequest| t.as_value()) =~= tv);
                    }
                    assert(r.as_value()->Struct_0 =~= values_view(fields@));
                }
                r
            },
            _ => vstd::pervasive::unreached(),
        }
    }
}

/// One answered topic: the lookup error, the echoed name, and the fixed
/// identifier, flags, and permissions.
#[derive(Debug, PartialEq, Eq, Clone)]
pub struct TopicResponse {
    pub error_code: ErrorCode,
    pub name: CompactString,
    pub uuid: Uuid,
    pub is_internal: bool,
    pub partitions_array: u8,
    pub authorized_operations: u32,
    pub tag_buffer: u8,
}

impl TopicResponse {
    pub open spec fn spec_schema() -> SpecSchema {
        SpecSchema::Struct(
            seq![
                SpecSchema::I16,
                SpecSchema::CompactStr,
                Uuid::spec_schema(),
                SpecSchema::Bool,
                SpecSchema::U8,
                SpecSchema::U32,
                SpecSchema::U8,
            ],
        )
    }

    pub open spec fn as_value(self) -> SpecValue {
        SpecValue::Struct(
            seq![
                SpecValue::I16(self.error_code.spec_code()),
                SpecValue::CompactStr(self.name@),
                self.uuid.as_value(),
                SpecValue::Bool(self.is_internal),
                SpecValue::U8(self.partitions_array),
                SpecValue::U32(self.authorized_operations),
                SpecValue::U8(self.tag_buffer),
            ],
        )
    }

    pub fn to_value(&self) -> (r: Value)
        ensures
            r@ == self.as_value(),
    {
        let fields = vec![
            Value::I16(self.error_code.code()),
            Value::CompactStr(CompactString(self.name.0.clone())),
            self.uuid.to_value(),
            Value::Bool(self.is_internal),
            Value::U8(self.partitions_array),
            Value::U32(self.authorized_operations),
            Value::U8(self.tag_buffer),
        ];
        let ghost fv = fields@;
        let v = Value::Struct(fields);
        proof {
            lemma_values_view(fv);
            assert(values_view(fv) =~= self.as_value()->Struct_0);
        }
        v
    }
}

/// The response body: a throttle time, the answered topics, the cursor
/// echo, and the reserved tag buffer.
#[derive(Debug, PartialEq, Eq, Clone, Default)]
pub struct DescribeTopicPartitionsResponseBody {
    pub throttle_time: i32,
    pub topics: Vec<TopicResponse>,
    pub next_cursor: u8,
    pub tag_buffer: u8,
}

impl DescribeTopicPartitionsResponseBody {
    pub open spec fn spec_schema() -> SpecSchema {
        SpecSchema::Struct(
            seq![
                SpecSchema::I32,
                SpecSchema::Array(Box::new(TopicResponse::spec_schema())),
                SpecSchema::U8,
                SpecSchema::U8,
            ],
        )
    }

    pub open spec fn as_value(self) -> SpecValue {
        SpecValue::Struct(
            seq![
                SpecValue::I32(self.throttle_time),
                SpecValue::Array(self.topics@.map_values(|t: TopicResponse| t.as_value())),
                SpecValue::U8(self.next_cursor),
                SpecValue::U8(self.tag_buffer),
            ],
        )
    }

    pub fn to_value(&self) -> (r: Value)
        ensures
            r@ == self.as_value(),
    {
        let mut elems: Vec<Value> = Vec::new();
        let mut i: usize = 0;
        while i < self.topics.len()
            invariant
                i <= self.topics@.len(),
                elems@.len() == i,
                forall|j: int| 0 <= j < i ==> #[trigger] elems@[j]@ == self.topics@[j].as_value(),
            decreases self.topics@.len() - i,
        {
            let e = self.topics[i].to_value();
            elems.push(e);
            i = i + 1;
        }
        let ghost ev = elems@;
        let fields = vec![
            Value::I32(self.throttle_time),
            Value::Array(elems),
            Value::U8(self.next_cursor),
            Value::U8(self.tag_buffer),
        ];
        let ghost fv = fields@;
        let v = Value::Struct(fields);
        proof {
            lemma_values_view(ev);
            assert forall|j: int| 0 <= j < ev.len() implies values_view(ev)[j]
                == self.topics@.map_values(|t: TopicResponse| t.as_value())[j] by {
                assert(values_view(ev)[j] == value_view(ev[j]));
                assert(ev[j]@ == self.topics@[j].as_value());
            }
            assert(values_view(ev) =~= self.topics@.map_values(|t: TopicResponse| t.as_value()));
            lemma_values_view(fv);
            assert(values_view(fv) =~= self.as_value()->Struct_0);
        }
        v
    }
}

/// The whole response: the tagged header, then the body.
#[derive(Debug, PartialEq, Eq, Clone, Default)]
pub struct DescribeTopicPartitionsResponse {
    pub header: ResponseHeaderV1,
    pub body: DescribeTopicPartitionsResponseBody,
}

impl DescribeTopicPartitionsResponse {
    pub open spec fn spec_schema() -> SpecSchema {
        SpecSchema::Struct(
            seq![
                ResponseHeaderV1::spec_schema(),
                DescribeTopicPartitionsResponseBody::spec_schema(),
            ],
        )
    }

    pub open spec fn as_value(self) -> SpecValue {
        SpecValue::Struct(seq![self.header.as_value(), self.body.as_value()])
    }

    pub fn to_value(&self) -> (r: Value)
        ensures
            r@ == self.as_value(),
    {
        let fields = vec![self.header.to_value(), self.body.to_value()];
        let ghost fv = fields@;
        let v = Value::Struct(fields);
        proof {
            lemma_values_view(fv);
            assert(values_view(fv) =~= self.as_value()->Struct_0);
        }
        v
    }
}

// ---------------------------------------------------------------------------
// The handler.
// ---------------------------------------------------------------------------

/// The answer owed for one requested topic name: the lookup is always
/// unknown, the name is echoed, and the identifier is all zeroes.
pub open spec fn spec_topic_response_value(name: Seq<char>) -> SpecValue {
    SpecValue::Struct(
        seq![
            SpecValue::I16(ErrorCode::UnknownTopic.spec_code()),
            SpecValue::CompactStr(name),
            SpecValue::Tuple(Seq::new(16, |i: int| SpecValue::U8(0u8))),
            SpecValue::Bool(false),
            SpecValue::U8(1),
            SpecValue::U32(0x0df8),
            SpecValue::U8(0),
        ],
    )
}

/// The response owed for any correlation id and requested topic listing:
/// the first requested topic answered as unknown, or no topics at all
/// when none were requested.
pub open spec fn spec_response_value(correlation_id: i32, topics: Seq<SpecValue>) -> SpecValue {
    SpecValue::Struct(
        seq![
            (ResponseHeaderV1 { correlation_id, tag_buffer: 0 }).as_value(),
            SpecValue::Struct(
                seq![
                    SpecValue::I32(0),
                    SpecValue::Array(
                        if topics.len() == 0 {
                            Seq::<SpecValue>::empty()
                        } else {
                            seq![spec_topic_response_value(topics[0]->Struct_0[0]->CompactStr_0)]
                        },
                    ),
                    SpecValue::U8(0xff),
                    SpecValue::U8(0),
                ],
            ),
        ],
    )
}

/// Answer a topic-partition lookup: decode the body, then echo the first
/// requested topic back as unknown, with the correlation id echoed in the
/// header.
pub fn handler(header: &RequestHeaderV2, raw_body: Vec<u8>) -> (r: Result<
    DescribeTopicPartitionsResponse,
    Error,
>)
    ensures
        crate::codec::spec_decode_message(
            DescribeTopicPartitionsRequestBody::spec_schema(),
            raw_body@,
        ) matches Err(e) ==> r == Err::<DescribeTopicPartitionsResponse, Error>(e),
        crate::codec::spec_decode_message(
            DescribeTopicPartitionsRequestBody::spec_schema(),
            raw_body@,
        ) matches Ok(bv) ==> (r matches Ok(resp) && resp.as_value() == spec_response_value(
            header.correlation_id,
            bv->Struct_0[0]->Array_0,
        ) && resp.header.correlation_id == header.correlation_id && resp.header.tag_buffer == 0
            && resp.body.throttle_time == 0 && resp.body.next_cursor == 0xff
            && resp.body.tag_buffer == 0 && (bv->Struct_0[0]->Array_0.len() == 0
            ==> resp.body.topics@.len() == 0) && (bv->Struct_0[0]->Array_0.len() > 0 ==> (
        resp.body.topics@.len() == 1 && resp.body.topics@[0].error_code == ErrorCode::UnknownTopic
            && resp.body.topics@[0].name@ == bv->Struct_0[0]->Array_0[0]->Struct_0[0]->CompactStr_0
            && resp.body.topics@[0].uuid@ =~= Seq::new(16, |i: int| 0u8)
            && resp.body.topics@[0].partitions_array == 1
            && resp.body.topics@[0].authorized_operations == 0x0df8))),
{
    let schema = DescribeTopicPartitionsRequestBody::schema();
    let decoded = match crate::codec::from_bytes(raw_body.as_slice(), &schema) {
        Ok(v) => v,
        Err(e) => {
            return Err(e);
        },
    };
    proof {
        crate::value::lemma_decode_conforms(
            DescribeTopicPartitionsRequestBody::spec_schema(),
            raw_body@,
        );
    }
    let body = DescribeTopicPartitionsRequestBody::from_value(&decoded);
    let topics: Vec<TopicResponse> = if body.topics.len() == 0 {
        Vec::new()
    } else {
        let first = &body.topics[0];
        vec![
            TopicResponse {
                error_code: ErrorCode::UnknownTopic,
                name: CompactString(first.name.0.clone()),
                uuid: Uuid::nil(),
                is_internal: false,
                partitions_array: 1,
                authorized_operations: 0x0df8,
                tag_buffer: 0,
            },
        ]
    };
    let resp = DescribeTopicPartitionsResponse {
        header: ResponseHeaderV1 { correlation_id: header.correlation_id, tag_buffer: 0 },
        body: DescribeTopicPartitionsResponseBody {
            throttle_time: 0,
            topics,
            next_cursor: 0xff,
            tag_buffer: 0,
        },
    };
    proof {
        let bv = crate::codec::spec_decode_message(
            DescribeTopicPartitionsRequestBody::spec_schema(),
            raw_body@,
        )->Ok_0;
        let ts = bv->Struct_0[0]->Array_0;
        assert(body.as_value() == bv);
        assert(body.topics@.map_values(|t: TopicRequest| t.as_value()) == ts);
        if body.topics@.len() == 0 {
            assert(resp.body.topics@.map_values(|t: TopicResponse| t.as_value())
                =~= Seq::<SpecValue>::empty());
        } else {
            assert(ts[0] == body.topics@[0].as_value());
            assert(resp.body.topics@[0].uuid.as_value()->Tuple_0 =~= Seq::new(
                16,
                |i: int| SpecValue::U8(0u8),
            ));
            assert(resp.body.topics@[0].as_value()->Struct_0 =~= spec_topic_response_value(
                ts[0]->Struct_0[0]->CompactStr_0,
            )->Struct_0);
            assert(resp.body.topics@.map_values(|t: TopicResponse| t.as_value())
                =~= seq![spec_topic_response_value(ts[0]->Struct_0[0]->CompactStr_0)]);
        }
        assert(resp.body.as_value()->Struct_0 =~= spec_response_value(
            header.correlation_id,
            ts,
        )->Struct_0[1]->Struct_0);
        assert(resp.as_value()->Struct_0 =~= spec_response_value(
            header.correlation_id,
            ts,
        )->Struct_0);
    }
    Ok(resp)
}

} // verus!
