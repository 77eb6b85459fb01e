//! The request and response header shapes that frame every exchange.

use vstd::prelude::*;

use crate::constants::ApiKey;
use crate::value::{
    conforms, lemma_conforms_zip_index, lemma_schemas_view, lemma_values_view, schemas_view,
    values_view, Schema, SpecSchema, SpecValue, Value,
};

verus! {

broadcast use vstd::seq_lib::group_seq_properties;

/// The header every request starts with: api key, api version,
/// correlation id, a plain-string client id, and the reserved tag buffer.
#[derive(Debug, PartialEq, Eq, Clone, Default)]
pub struct RequestHeaderV2 {
    pub api_key: ApiKey,
    pub api_version: i16,
    pub correlation_id: i32,
    pub client_id: String,
    pub tag_buffer: i8,
}

impl RequestHeaderV2 {
    /// Wire shape: the api key's two-byte code, then the remaining fields
    /// in declaration order.
    pub open spec fn spec_schema() -> SpecSchema {
        SpecSchema::Struct(
            seq![
                SpecSchema::I16,
                SpecSchema::I16,
                SpecSchema::I32,
                SpecSchema::Str,
                SpecSchema::I8,
            ],
        )
    }

    pub fn schema() -> (s: Schema)
        ensures
            s@ == Self::spec_schema(),
    {
        let fields = vec![Schema::I16, Schema::I16, Schema::I32, Schema::Str, Schema::I8];
        let ghost fv = fields@;
        let s = Schema::Struct(fields);
        proof {
            lemma_schemas_view(fv);
            assert(schemas_view(fv) =~= Self::spec_schema()->Struct_0);
        }
        s
    }

    /// The header as a structured value, fields in declaration order.
    pub open spec fn as_value(self) -> SpecValue {
        SpecValue::Struct(
            seq![
                SpecValue::I16(self.api_key.spec_code()),
                SpecValue::I16(self.api_version),
                SpecValue::I32(self.correlation_id),
                SpecValue::Str(self.client_id@),
                SpecValue::I8(self.tag_buffer),
            ],
        )
    }

    pub fn to_value(&self) -> (r: Value)
        ensures
            r@ == self.as_value(),
    {
        let fields = vec![
            Value::I16(self.api_key.code()),
            Value::I16(self.api_version),
            Value::I32(self.correlation_id),
            Value::Str(self.client_id.clone()),
            Value::I8(self.tag_buffer),
        ];
        let ghost fv = fields@;
        let v = Value::Struct(fields);
        proof {
            lemma_values_view(fv);
            assert(values_view(fv) =~= self.as_value()->Struct_0);
        }
        v
    }

    /// Rebuild a header from a structured value of its shape; an api key
    /// code naming no known api reads as `ApiKey::Invalid`.
    pub fn from_value(v: &Value) -> (r: Self)
        requires
            conforms(v@, Self::spec_schema()),
        ensures
            ({
                let fs = v@->Struct_0;
                r.api_key == ApiKey::spec_from_code(fs[0]->I16_0) && r.api_version == fs[1]->I16_0
                    && r.correlation_id == fs[2]->I32_0 && r.client_id@ == fs[3]->Str_0
                    && r.tag_buffer == fs[4]->I8_0
            }),
    {
        match v {
            Value::Struct(fields) => {
                proof {
                    lemma_values_view(fields@);
                    lemma_conforms_zip_index(values_view(fields@), Self::spec_schema()->Struct_0);
                    let ss = Self::spec_schema()->Struct_0;
                    assert(conforms(values_view(fields@)[0], ss[0]) && ss[0] == SpecSchema::I16);
                    assert(conforms(values_view(fields@)[1], ss[1]) && ss[1] == SpecSchema::I16);
                    assert(conforms(values_view(fields@)[2], ss[2]) && ss[2] == SpecSchema::I32);
                    assert(conforms(values_view(fields@)[3], ss[3]) && ss[3] == SpecSchema::Str);
                    assert(conforms(values_view(fields@)[4], ss[4]) && ss[4] == SpecSchema::I8);
                }
                let api_key_code = match &fields[0] {
                    Value::I16(x) => *x,
                    _ => vstd::pervasive::unreached(),
                };
                let api_version = match &fields[1] {
                    Value::I16(x) => *x,
                    _ => vstd::pervasive::unreached(),
                };
                let correlation_id = match &fields[2] {
                    Value::I32(x) => *x,
                    _ => vstd::pervasive::unreached(),
                };
                let client_id = match &fields[3] {
                    Value::Str(x) => x.clone(),
                    _ => vstd::pervasive::unreached(),
                };
                let tag_buffer = match &fields[4] {
                    Value::I8(x) => *x,
                    _ => vstd::pervasive::unreached(),
                };
                RequestHeaderV2 {
                    api_key: ApiKey::from_code(api_key_code),
                    api_version,
                    correlation_id,
                    client_id,
                    tag_buffer,
                }
            },
            _ => vstd::pervasive::unreached(),
        }
    }
}

/// The plain response header: the request's correlation id echoed back.
#[derive(Debug, PartialEq, Eq, Clone, Default)]
pub struct ResponseHeaderV0 {
    pub correlation_id: i32,
}

impl ResponseHeaderV0 {
    pub open spec fn spec_schema() -> SpecSchema {
        SpecSchema::Struct(seq![SpecSchema::I32])
    }

    pub fn schema() -> (s: Schema)
        ensures
            s@ == Self::spec_schema(),
    {
        let fields = vec![Schema::I32];
        let ghost fv = fields@;
        let s = Schema::Struct(fields);
        proof {
            lemma_schemas_view(fv);
            assert(schemas_view(fv) =~= Self::spec_schema()->Struct_0);
        }
        s
    }

    pub open spec fn as_value(self) -> SpecValue {
        SpecValue::Struct(seq![SpecValue::I32(self.correlation_id)])
    }

    pub fn to_value(&self) -> (r: Value)
        ensures
            r@ == self.as_value(),
    {
        let fields = vec![Value::I32(self.correlation_id)];
        let ghost fv = fields@;
        let v = Value::Struct(fields);
        proof {
            lemma_values_view(fv);
            assert(values_view(fv) =~= self.as_value()->Struct_0);
        }
        v
    }
}

/// The tagged response header: the correlation id echoed back, then the
/// reserved tag buffer.
#[derive(Debug, PartialEq, Eq, Clone, Default)]
pub struct ResponseHeaderV1 {
    pub correlation_id: i32,
    pub tag_buffer: i8,
}

impl ResponseHeaderV1 {
    pub open spec fn spec_schema() -> SpecSchema {
        SpecSchema::Struct(seq![SpecSchema::I32, SpecSchema::I8])
    }

    pub fn schema() -> (s: Schema)
        ensures
            s@ == Self::spec_schema(),
    {
        let fields = vec![Schema::I32, Schema::I8];
        let ghost fv = fields@;
        let s = Schema::Struct(fields);
        proof {
            lemma_schemas_view(fv);
            assert(schemas_view(fv) =~= Self::spec_schema()->Struct_0);
        }
        s
    }

    pub open spec fn as_value(self) -> SpecValue {
        SpecValue::Struct(
            seq![SpecValue::I32(self.correlation_id), SpecValue::I8(self.tag_buffer)],
        )
    }

    pub fn to_value(&self) -> (r: Value)
        ensures
            r@ == self.as_value(),
    {
        let fields = vec![Value::I32(self.correlation_id), Value::I8(self.tag_buffer)];
        let ghost fv = fields@;
        let v = Value::Struct(fields);
        proof {
            lemma_values_view(fv);
            assert(values_view(fv) =~= self.as_value()->Struct_0);
        }
        v
    }
}

} // verus!
