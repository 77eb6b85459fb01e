//! The per-message decision path of the server: take one unframed request,
//! decode its header, dispatch on the api key, and hand back the framed
//! response bytes. The surrounding program only moves bytes between the
//! network stream and this function.

use vstd::prelude::*;

use crate::api_versions;
use crate::codec::{from_bytes_trail, spec_decode_message};
use crate::constants::ApiKey;
use crate::describe_topic_partitions;
use crate::error::Error;
use crate::framing::{spec_frame, to_framed_bytes};
use crate::headers::RequestHeaderV2;
use crate::value::{spec_decode, spec_encode, SpecValue};

verus! {

broadcast use vstd::seq_lib::group_seq_properties;

/// A structured value behind its frame, or the failure encoding it would
/// report.
pub open spec fn spec_framed(v: SpecValue) -> Result<Seq<u8>, Error> {
    match spec_encode(v) {
        Ok(p) => if p.len() <= 0x7fff_ffff {
            Ok(spec_frame(p))
        } else {
            Err(Error::MalformedLength)
        },
        Err(e) => Err(e),
    }
}

/// What answering one unframed request yields, for every input: the
/// framed response bytes, or the classified failure of the first step
/// that refuses the message.
pub open spec fn spec_handle(message: Seq<u8>) -> Result<Seq<u8>, Error> {
    match spec_decode(RequestHeaderV2::spec_schema(), message) {
        Err(e) => Err(e),
        Ok((hv, n)) => {
            let key = ApiKey::spec_from_code(hv->Struct_0[0]->I16_0);
            let version = hv->Struct_0[1]->I16_0;
            let correlation_id = hv->Struct_0[2]->I32_0;
            let body = message.skip(n);
            if key == ApiKey::ApiVersions {
                match spec_decode_message(
                    api_versions::ApiVersionsRequestBody::spec_schema(),
                    body,
                ) {
                    Err(e) => Err(e),
                    Ok(_) => spec_framed(
                        api_versions::spec_response_value(correlation_id, version),
                    ),
                }
            } else if key == ApiKey::DescribeTopicPartitions {
                match spec_decode_message(
                    describe_topic_partitions::DescribeTopicPartitionsRequestBody::spec_schema(),
                    body,
                ) {
                    Err(e) => Err(e),
                    Ok(bv) => spec_framed(
                        describe_topic_partitions::spec_response_value(
                            correlation_id,
                            bv->Struct_0[0]->Array_0,
                        ),
                    ),
                }
            } else {
                spec_framed(api_versions::spec_error_response_value(correlation_id))
            }
        },
    }
}

/// Answer one unframed request: decode the header, dispatch on its api
/// key, and return the response already framed for the wire. An api key
/// naming no known api is answered as unsupported rather than dropped.
pub fn handle_request(message: &[u8]) -> (r: Result<Vec<u8>, Error>)
    ensures
        spec_handle(message@) matches Ok(o) ==> (r matches Ok(out) && out@ == o),
        spec_handle(message@) matches Err(e) ==> r == Err::<Vec<u8>, Error>(e),
{
    let header_schema = RequestHeaderV2::schema();
    let (header_value, body) = match from_bytes_trail(message, &header_schema) {
        Ok(p) => p,
        Err(e) => {
            return Err(e);
        },
    };
    proof {
        crate::value::lemma_decode_conforms(RequestHeaderV2::spec_schema(), message@);
    }
    let header = RequestHeaderV2::from_value(&header_value);
    match header.api_key {
        ApiKey::ApiVersions => {
            match api_versions::handler(&header, body) {
                Ok(resp) => {
                    let v = resp.to_value();
                    to_framed_bytes(&v)
                },
                Err(e) => Err(e),
            }
        },
        ApiKey::DescribeTopicPartitions => {
            match describe_topic_partitions::handler(&header, body) {
                Ok(resp) => {
                    let v = resp.to_value();
                    to_framed_bytes(&v)
                },
                Err(e) => Err(e),
            }
        },
        _ => {
            let resp = api_versions::error_response(header.correlation_id);
            let v = resp.to_value();
            to_framed_bytes(&v)
        },
    }
}

} // verus!
