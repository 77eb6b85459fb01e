//! The version-negotiation exchange: its request and response payloads
//! and the handler that answers which apis this server supports.

use vstd::prelude::*;

use crate::compact_string::CompactString;
use crate::constants::{ApiKey, ErrorCode};
use crate::error::Error;
use crate::headers::{RequestHeaderV2, ResponseHeaderV0};
use crate::value::{
    conforms, lemma_conforms_zip_index, lemma_schemas_view, lemma_values_view, schemas_view, value_view,
    values_view, Schema, SpecSchema, SpecValue, Value,
};

verus! {

broadcast use vstd::seq_lib::group_seq_properties;

/// The request body: two compact strings naming the client, then the
/// reserved tag buffer.
#[derive(Debug, PartialEq, Eq, Clone, Default)]
pub struct ApiVersionsRequestBody {
    pub client_id: CompactString,
    pub client_software_version: CompactString,
    pub tag_buffer: i8,
}

impl ApiVersionsRequestBody {
    pub open spec fn spec_schema() -> SpecSchema {
        SpecSchema::Struct(seq![SpecSchema::CompactStr, SpecSchema::CompactStr, SpecSchema::I8])
    }

    pub fn schema() -> (s: Schema)
        ensures
            s@ == Self::spec_schema(),
    {
        let fields = vec![Schema::CompactStr, Schema::CompactStr, Schema::I8];
        let ghost fv = fields@;
        let s = Schema::Struct(fields);
        proof {
            lemma_schemas_view(fv);
            assert(schemas_view(fv) =~= Self::spec_schema()->Struct_0);
        }
        s
    }

    pub open spec fn as_value(self) -> SpecValue {
        SpecValue::Struct(
            seq![
                SpecValue::CompactStr(self.client_id@),
                SpecValue::CompactStr(self.client_software_version@),
                SpecValue::I8(self.tag_buffer),
            ],
        )
    }

    pub fn to_value(&self) -> (r: Value)
        ensures
            r@ == self.as_value(),
    {
        let fields = vec![
            Value::CompactStr(CompactString(self.client_id.0.clone())),
            Value::CompactStr(CompactString(self.client_software_version.0.clone())),
            Value::I8(self.tag_buffer),
        ];
        let ghost fv = fields@;
        let v = Value::Struct(fields);
        proof {
            lemma_values_view(fv);
            assert(values_view(fv) =~= self.as_value()->Struct_0);
        }
        v
    }

    /// Rebuild the body from a structured value of its shape.
    pub fn from_value(v: &Value) -> (r: Self)
        requires
            conforms(v@, Self::spec_schema()),
        ensures
            r.as_value() == v@,
    {
        match v {
            Value::Struct(fields) => {
                proof {
                    lemma_values_view(fields@);
                    lemma_conforms_zip_index(values_view(fields@), Self::spec_schema()->Struct_0);
                    let ss = Self::spec_schema()->Struct_0;
                    assert(conforms(values_view(fields@)[0], ss[0]) && ss[0]
                        == SpecSchema::CompactStr);
                    assert(conforms(values_view(fields@)[1], ss[1]) && ss[1]
                        == SpecSchema::CompactStr);
                    assert(conforms(values_view(fields@)[2], ss[2]) && ss[2] == SpecSchema::I8);
                }
                let client_id = match &fields[0] {
                    Value::CompactStr(x) => CompactString(x.0.clone()),
                    _ => vstd::pervasive::unreached(),
                };
                let client_software_version = match &fields[1] {
                    Value::CompactStr(x) => CompactString(x.0.clone()),
                    _ => vstd::pervasive::unreached(),
                };
                let tag_buffer = match &fields[2] {
                    Value::I8(x) => *x,
                    _ => vstd::pervasive::unreached(),
                };
                let r = ApiVersionsRequestBody { client_id, client_software_version, tag_buffer };
                proof {
                    assert(r.as_value()->Struct_0 =~= values_view(fields@));
                }
                r
            },
            _ => vstd::pervasive::unreached(),
        }
    }
}

/// One supported api: its key and the version range this server answers.
#[derive(Debug, PartialEq, Eq, Clone, Default)]
pub struct ApiVersion {
    pub api_key: ApiKey,
    pub min_supported_api_version: i16,
    pub max_supported_api_version: i16,
    pub tag_buffer: i8,
}

impl ApiVersion {
    pub open spec fn spec_schema() -> SpecSchema {
        SpecSchema::Struct(seq![SpecSchema::I16, SpecSchema::I16, SpecSchema::I16, SpecSchema::I8])
    }

    pub open spec fn as_value(self) -> SpecValue {
        SpecValue::Struct(
            seq![
                SpecValue::I16(self.api_key.spec_code()),
                SpecValue::I16(self.min_supported_api_version),
                SpecValue::I16(self.max_supported_api_version),
                SpecValue::I8(self.tag_buffer),
            ],
        )
    }

    pub fn to_value(&self) -> (r: Value)
        ensures
            r@ == self.as_value(),
    {
        let fields = vec![
            Value::I16(self.api_key.code()),
            Value::I16(self.min_supported_api_version),
            Value::I16(self.max_supported_api_version),
            Value::I8(self.tag_buffer),
        ];
        let ghost fv = fields@;
        let v = Value::Struct(fields);
        proof {
            lemma_values_view(fv);
            assert(values_view(fv) =~= self.as_value()->Struct_0);
        }
        v
    }
}

/// The response body: an error code, the compact array of supported
/// apis, the throttle time, and the reserved tag buffer.
#[derive(Debug, PartialEq, Eq, Clone, Default)]
pub struct ApiVersionsResponseBody {
    pub error_code: ErrorCode,
    pub api_versions: Vec<ApiVersion>,
    pub throttle_time: i32,
    pub tag_buffer: i8,
}

impl ApiVersionsResponseBody {
    pub open spec fn spec_schema() -> SpecSchema {
        SpecSchema::Struct(
            seq![
                SpecSchema::I16,
                SpecSchema::Array(Box::new(ApiVersion::spec_schema())),
                SpecSchema::I32,
                SpecSchema::I8,
            ],
        )
    }

    pub open spec fn as_value(self) -> SpecValue {
        SpecValue::Struct(
            seq![
                SpecValue::I16(self.error_code.spec_code()),
                SpecValue::Array(self.api_versions@.map_values(|a: ApiVersion| a.as_value())),
                SpecValue::I32(self.throttle_time),
                SpecValue::I8(self.tag_buffer),
            ],
        )
    }

    pub fn to_value(&self) -> (r: Value)
        ensures
            r@ == self.as_value(),
    {
        let mut entries: Vec<Value> = Vec::new();
        let mut i: usize = 0;
        while i < self.api_versions.len()
            invariant
                i <= self.api_versions@.len(),
                entries@.len() == i,
                forall|j: int|
                    0 <= j < i ==> #[trigger] entries@[j]@ == self.api_versions@[j].as_value(),
            decreases self.api_versions@.len() - i,
        {
            let e = self.api_versions[i].to_value();
            entries.push(e);
            i = i + 1;
        }
        let ghost ev = entries@;
        let fields = vec![
            Value::I16(self.error_code.code()),
            Value::Array(entries),
            Value::I32(self.throttle_time),
            Value::I8(self.tag_buffer),
        ];
        let ghost fv = fields@;
        let v = Value::Struct(fields);
        proof {
            lemma_values_view(ev);
            assert forall|j: int| 0 <= j < ev.len() implies values_view(ev)[j]
                == self.api_versions@.map_values(|a: ApiVersion| a.as_value())[j] by {
                assert(values_view(ev)[j] == value_view(ev[j]));
                assert(ev[j]@ == self.api_versions@[j].as_value());
            }
            assert(values_view(ev) =~= self.api_versions@.map_values(
                |a: ApiVersion| a.as_value(),
            ));
            lemma_values_view(fv);
            assert(values_view(fv) =~= self.as_value()->Struct_0);
        }
        v
    }
}

/// The whole response: the plain header, then the body.
#[derive(Debug, PartialEq, Eq, Clone, Default)]
pub struct ApiVersionsResponse {
    pub header: ResponseHeaderV0,
    pub body: ApiVersionsResponseBody,
}

impl ApiVersionsResponse {
    pub open spec fn spec_schema() -> SpecSchema {
        SpecSchema::Struct(
            seq![ResponseHeaderV0::spec_schema(), ApiVersionsResponseBody::spec_schema()],
        )
    }

    pub open spec fn as_value(self) -> SpecValue {
        SpecValue::Struct(seq![self.header.as_value(), self.body.as_value()])
    }

    pub fn to_value(&self) -> (r: Value)
        ensures
            r@ == self.as_value(),
    {
        let fields = vec![self.header.to_value(), self.body.to_value()];
        let ghost fv = fields@;
        let v = Value::Struct(fields);
        proof {
            lemma_values_view(fv);
            assert(values_view(fv) =~= self.as_value()->Struct_0);
        }
        v
    }
}

/// A whole request: the header, then the version-negotiation body.
#[derive(Debug, PartialEq, Eq, Clone, Default)]
pub struct ApiVersionsRequest {
    pub header: RequestHeaderV2,
    pub body: ApiVersionsRequestBody,
}

impl ApiVersionsRequest {
    pub open spec fn spec_schema() -> SpecSchema {
        SpecSchema::Struct(
            seq![RequestHeaderV2::spec_schema(), ApiVersionsRequestBody::spec_schema()],
        )
    }

    pub open spec fn as_value(self) -> SpecValue {
        SpecValue::Struct(seq![self.header.as_value(), self.body.as_value()])
    }

    pub fn to_value(&self) -> (r: Value)
        ensures
            r@ == self.as_value(),
    {
        let fields = vec![self.header.to_value(), self.body.to_value()];
        let ghost fv = fields@;
        let v = Value::Struct(fields);
        proof {
            lemma_values_view(fv);
            assert(values_view(fv) =~= self.as_value()->Struct_0);
        }
        v
    }
}

// ---------------------------------------------------------------------------
// The handler.
// ---------------------------------------------------------------------------

/// The three apis this server supports, with their version ranges.
pub open spec fn spec_supported_apis() -> Seq<ApiVersion> {
    seq![
        ApiVersion {
            api_key: ApiKey::Fetch,
            min_supported_api_version: 0,
            max_supported_api_version: 17,
            tag_buffer: 0,
        },
        ApiVersion {
            api_key: ApiKey::ApiVersions,
            min_supported_api_version: 0,
            max_supported_api_version: 4,
            tag_buffer: 0,
        },
        ApiVersion {
            api_key: ApiKey::DescribeTopicPartitions,
            min_supported_api_version: 0,
            max_supported_api_version: 0,
            tag_buffer: 0,
        },
    ]
}

/// The response answered when the request's version is out of the
/// supported range, or its api key names no known api: the error code
/// alone, with no api listing.
pub open spec fn spec_error_response_value(correlation_id: i32) -> SpecValue {
    SpecValue::Struct(
        seq![
            (ResponseHeaderV0 { correlation_id }).as_value(),
            SpecValue::Struct(
                seq![
                    SpecValue::I16(ErrorCode::UnsupportedVersion.spec_code()),
                    SpecValue::Array(Seq::<SpecValue>::empty()),
                    SpecValue::I32(0),
                    SpecValue::I8(0),
                ],
            ),
        ],
    )
}

/// The response the handler owes for any correlation id and requested
/// version: the supported apis for versions zero to four, the
/// unsupported-version error for everything else.
pub open spec fn spec_response_value(correlation_id: i32, api_version: i16) -> SpecValue {
    if 0 <= api_version <= 4 {
        SpecValue::Struct(
            seq![
                (ResponseHeaderV0 { correlation_id }).as_value(),
                SpecValue::Struct(
                    seq![
                        SpecValue::I16(ErrorCode::NoError.spec_code()),
                        SpecValue::Array(
                            spec_supported_apis().map_values(|a: ApiVersion| a.as_value()),
                        ),
                        SpecValue::I32(0),
                        SpecValue::I8(0),
                    ],
                ),
            ],
        )
    } else {
        spec_error_response_value(correlation_id)
    }
}

/// The unsupported answer, as a value: used for out-of-range versions
/// and for api keys the dispatcher does not know.
pub fn error_response(correlation_id: i32) -> (r: ApiVersionsResponse)
    ensures
        r.as_value() == spec_error_response_value(correlation_id),
        r.header.correlation_id == correlation_id,
        r.body.error_code == ErrorCode::UnsupportedVersion,
        r.body.api_versions@ == Seq::<ApiVersion>::empty(),
        r.body.throttle_time == 0,
        r.body.tag_buffer == 0,
{
    let r = ApiVersionsResponse {
        header: ResponseHeaderV0 { correlation_id },
        body: ApiVersionsResponseBody {
            error_code: ErrorCode::UnsupportedVersion,
            api_versions: Vec::new(),
            throttle_time: 0,
            tag_buffer: 0,
        },
    };
    proof {
        assert(r.body.api_versions@.map_values(|a: ApiVersion| a.as_value())
            =~= Seq::<SpecValue>::empty());
        assert(r.body.as_value()->Struct_0 =~= spec_error_response_value(
            correlation_id,
        )->Struct_0[1]->Struct_0);
        assert(r.as_value()->Struct_0 =~= spec_error_response_value(correlation_id)->Struct_0);
    }
    r
}

/// Answer a version-negotiation request: validate the body against its
/// schema, then answer from the header alone, echoing the correlation id.
pub fn handler(header: &RequestHeaderV2, raw_body: Vec<u8>) -> (r: Result<
    ApiVersionsResponse,
    Error,
>)
    ensures
        crate::codec::spec_decode_message(ApiVersionsRequestBody::spec_schema(), raw_body@) matches
            Err(e) ==> r == Err::<ApiVersionsResponse, Error>(e),
        crate::codec::spec_decode_message(ApiVersionsRequestBody::spec_schema(), raw_body@) is Ok
            ==> (r matches Ok(resp) && resp.as_value() == spec_response_value(
            header.correlation_id,
            header.api_version,
        ) && resp.header.correlation_id == header.correlation_id && (0 <= header.api_version <= 4
            ==> resp.body.error_code == ErrorCode::NoError && resp.body.api_versions@
            == spec_supported_apis()) && (!(0 <= header.api_version <= 4)
            ==> resp.body.error_code == ErrorCode::UnsupportedVersion
                && resp.body.api_versions@ == Seq::<ApiVersion>::empty())),
{
    let schema = ApiVersionsRequestBody::schema();
    let _validated = match crate::codec::from_bytes(raw_body.as_slice(), &schema) {
        Ok(v) => v,
        Err(e) => {
            return Err(e);
        },
    };
    if 0 <= header.api_version && header.api_version <= 4 {
        let entries = vec![
            ApiVersion {
                api_key: ApiKey::Fetch,
                min_supported_api_version: 0,
                max_supported_api_version: 17,
                tag_buffer: 0,
            },
            ApiVersion {
                api_key: ApiKey::ApiVersions,
                min_supported_api_version: 0,
                max_supported_api_version: 4,
                tag_buffer: 0,
            },
            ApiVersion {
                api_key: ApiKey::DescribeTopicPartitions,
                min_supported_api_version: 0,
                max_supported_api_version: 0,
                tag_buffer: 0,
            },
        ];
        let resp = ApiVersionsResponse {
            header: ResponseHeaderV0 { correlation_id: header.correlation_id },
            body: ApiVersionsResponseBody {
                error_code: ErrorCode::NoError,
                api_versions: entries,
                throttle_time: 0,
                tag_buffer: 0,
            },
        };
        proof {
            assert(resp.body.api_versions@ =~= spec_supported_apis());
            assert(resp.body.as_value()->Struct_0 =~= spec_response_value(
                header.correlation_id,
                header.api_version,
            )->Struct_0[1]->Struct_0);
            assert(resp.as_value()->Struct_0 =~= spec_response_value(
                header.correlation_id,
                header.api_version,
            )->Struct_0);
        }
        Ok(resp)
    } else {
        Ok(error_response(header.correlation_id))
    }
}

} // verus!
