//! The message framing layer: every message on the wire is a four-byte
//! big-endian signed length followed by exactly that many payload bytes.

use vstd::prelude::*;

use crate::codec::{spec_decode_message, to_bytes_mut};
use crate::error::Error;
use crate::primitives::{
    be32, i32_of_bits, lemma_be32_inverse, u32_bits, u32_of_be, Deserializer, Serializer,
};
use crate::value::{conforms, spec_encode, SpecSchema, SpecValue, Value};

verus! {

broadcast use vstd::seq_lib::group_seq_properties;

/// The frame a payload travels in: its length as a four-byte big-endian
/// signed integer, then the payload itself.
pub open spec fn spec_frame(payload: Seq<u8>) -> Seq<u8> {
    be32(u32_bits(payload.len() as i32)) + payload
}

/// What taking one frame off the front of a buffer yields: the payload
/// and the unconsumed rest, or the classified failure.
pub open spec fn spec_unframe(b: Seq<u8>) -> Result<(Seq<u8>, Seq<u8>), Error> {
    if b.len() < 4 {
        Err(Error::Truncated)
    } else {
        let stored = i32_of_bits(u32_of_be(b[0], b[1], b[2], b[3]));
        if stored < 0 {
            Err(Error::MalformedLength)
        } else if b.len() - 4 < stored {
            Err(Error::Truncated)
        } else {
            Ok((b.subrange(4, 4 + stored), b.skip(4 + stored)))
        }
    }
}

/// Wrap a payload in its length-prefixed frame.
pub fn frame_message(payload: &Vec<u8>) -> (r: Result<Vec<u8>, Error>)
    ensures
        payload@.len() <= 0x7fff_ffff ==> (r matches Ok(f) && f@ == spec_frame(payload@)),
        payload@.len() > 0x7fff_ffff ==> r == Err::<Vec<u8>, Error>(Error::MalformedLength),
{
    if payload.len() > 0x7fff_ffff {
        Err(Error::MalformedLength)
    } else {
        let mut ser = Serializer::new();
        ser.put_i32(payload.len() as i32);
        ser.put_slice(payload.as_slice());
        let out = ser.into_bytes();
        assert(out@ =~= spec_frame(payload@));
        Ok(out)
    }
}

/// Encode a structured value and wrap the encoding in its frame: the
/// compute half of sending one message.
pub fn to_framed_bytes(value: &Value) -> (r: Result<Vec<u8>, Error>)
    ensures
        spec_encode(value@) is Ok && spec_encode(value@)->Ok_0.len() <= 0x7fff_ffff ==> (r matches
            Ok(f) && f@ == spec_frame(spec_encode(value@)->Ok_0)),
        spec_encode(value@) matches Err(e) ==> r == Err::<Vec<u8>, Error>(e),
        spec_encode(value@) is Ok && spec_encode(value@)->Ok_0.len() > 0x7fff_ffff ==> r == Err::<
            Vec<u8>,
            Error,
        >(Error::MalformedLength),
{
    match to_bytes_mut(value) {
        Ok(payload) => frame_message(&payload),
        Err(e) => Err(e),
    }
}

/// Take one frame off the front of a buffer, handing back the payload and
/// whatever follows the frame.
pub fn read_frame(bytes: &[u8]) -> (r: Result<(Vec<u8>, Vec<u8>), Error>)
    ensures
        spec_unframe(bytes@) matches Ok(p) ==> (r matches Ok(q) && q.0@ == p.0 && q.1@ == p.1),
        spec_unframe(bytes@) matches Err(e) ==> r == Err::<(Vec<u8>, Vec<u8>), Error>(e),
{
    let mut de = Deserializer::from_bytes(bytes);
    let stored = match de.get_i32() {
        Ok(x) => x,
        Err(e) => {
            return Err(e);
        },
    };
    if stored < 0 {
        Err(Error::MalformedLength)
    } else {
        let payload = match de.get_bytes(stored as usize) {
            Ok(p) => p,
            Err(e) => {
                return Err(e);
            },
        };
        let rest = de.rest();
        assert(payload@ =~= bytes@.subrange(4, 4 + stored as int));
        assert(rest@ =~= bytes@.skip(4 + stored as int));
        Ok((payload, rest))
    }
}

/// The length a frame's prefix declares, read from its first four bytes:
/// the compute half of receiving one message from a stream.
pub fn frame_length(prefix: &[u8]) -> (r: Result<usize, Error>)
    requires
        prefix@.len() == 4,
    ensures
        i32_of_bits(u32_of_be(prefix@[0], prefix@[1], prefix@[2], prefix@[3])) >= 0 ==> (r matches
            Ok(n) && n == i32_of_bits(
            u32_of_be(prefix@[0], prefix@[1], prefix@[2], prefix@[3]),
        )),
        i32_of_bits(u32_of_be(prefix@[0], prefix@[1], prefix@[2], prefix@[3])) < 0 ==> r == Err::<
            usize,
            Error,
        >(Error::MalformedLength),
{
    let mut de = Deserializer::from_bytes(prefix);
    let stored = match de.get_i32() {
        Ok(x) => x,
        Err(e) => {
            return Err(e);
        },
    };
    if stored < 0 {
        Err(Error::MalformedLength)
    } else {
        Ok(stored as usize)
    }
}

// ---------------------------------------------------------------------------
// Frame integrity.
// ---------------------------------------------------------------------------

/// Unframing a framed payload yields the payload and the trailing bytes
/// exactly, and the four-byte prefix holds exactly the payload's length.
pub proof fn lemma_unframe_frame(p: Seq<u8>, t: Seq<u8>)
    requires
        p.len() <= 0x7fff_ffff,
    ensures
        spec_unframe(spec_frame(p) + t) == Ok::<(Seq<u8>, Seq<u8>), Error>((p, t)),
        spec_frame(p).subrange(0, 4) == be32(p.len() as u32),
{
    let full = spec_frame(p) + t;
    lemma_be32_inverse(u32_bits(p.len() as i32));
    assert(full[0] == be32(u32_bits(p.len() as i32))[0]);
    assert(full[1] == be32(u32_bits(p.len() as i32))[1]);
    assert(full[2] == be32(u32_bits(p.len() as i32))[2]);
    assert(full[3] == be32(u32_bits(p.len() as i32))[3]);
    assert(full.subrange(4, 4 + p.len() as int) =~= p);
    assert(full.skip(4 + p.len() as int) =~= t);
    assert(spec_frame(p).subrange(0, 4) =~= be32(u32_bits(p.len() as i32)));
    assert(u32_bits(p.len() as i32) == p.len() as u32);
}

/// Frame integrity: a structured value written through the framing layer
/// and read back through it against the same schema comes out equal, and
/// the frame's length prefix equals the encoded payload's byte length.
pub proof fn lemma_frame_integrity(v: SpecValue, s: SpecSchema, t: Seq<u8>)
    requires
        conforms(v, s),
        spec_encode(v) is Ok,
        spec_encode(v)->Ok_0.len() <= 0x7fff_ffff,
    ensures
        spec_unframe(spec_frame(spec_encode(v)->Ok_0) + t) == Ok::<(Seq<u8>, Seq<u8>), Error>(
            (spec_encode(v)->Ok_0, t),
        ),
        spec_decode_message(s, spec_encode(v)->Ok_0) == Ok::<SpecValue, Error>(v),
        spec_frame(spec_encode(v)->Ok_0).subrange(0, 4) == be32(spec_encode(v)->Ok_0.len() as u32),
{
    lemma_unframe_frame(spec_encode(v)->Ok_0, t);
    crate::codec::lemma_message_round_trip(v, s);
}

} // verus!
