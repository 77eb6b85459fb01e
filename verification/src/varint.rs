//! The variable-length integer convention the on-disk record framing
//! uses: seven value bits per byte, low group first, the high bit of each
//! byte marking a continuation; signed values ride on it with the zigzag
//! mapping, which keeps small magnitudes short.

use vstd::prelude::*;

use crate::error::Error;
use crate::primitives::{Deserializer, Serializer};

verus! {

broadcast use vstd::seq_lib::group_seq_properties;

/// The bytes of an unsigned value: seven bits at a time, low group
/// first, the high bit set on every byte but the last.
pub open spec fn spec_varint(u: u32) -> Seq<u8> {
    if u < 0x80 {
        seq![u as u8]
    } else if u < 0x4000 {
        seq![((u & 0x7f) | 0x80) as u8, (u >> 7) as u8]
    } else if u < 0x20_0000 {
        seq![((u & 0x7f) | 0x80) as u8, (((u >> 7) & 0x7f) | 0x80) as u8, (u >> 14) as u8]
    } else if u < 0x1000_0000 {
        seq![
            ((u & 0x7f) | 0x80) as u8,
            (((u >> 7) & 0x7f) | 0x80) as u8,
            (((u >> 14) & 0x7f) | 0x80) as u8,
            (u >> 21) as u8,
        ]
    } else {
        seq![
            ((u & 0x7f) | 0x80) as u8,
            (((u >> 7) & 0x7f) | 0x80) as u8,
            (((u >> 14) & 0x7f) | 0x80) as u8,
            (((u >> 21) & 0x7f) | 0x80) as u8,
            (u >> 28) as u8,
        ]
    }
}

/// What reading one unsigned value off the front of `b` yields: the
/// value and how many bytes it took, or the classified failure. A run of
/// five continuation markers, or a fifth byte carrying bits past the
/// thirty-second, is a malformed length.
#[verifier::opaque]
pub open spec fn spec_decode_varint(b: Seq<u8>) -> Result<(u32, int), Error> {
    if b.len() < 1 {
        Err(Error::Truncated)
    } else if b[0] < 0x80 {
        Ok((b[0] as u32, 1))
    } else if b.len() < 2 {
        Err(Error::Truncated)
    } else if b[1] < 0x80 {
        Ok((((b[0] & 0x7f) as u32 | ((b[1] as u32) << 7)) as u32, 2))
    } else if b.len() < 3 {
        Err(Error::Truncated)
    } else if b[2] < 0x80 {
        Ok(
            (
                ((b[0] & 0x7f) as u32 | (((b[1] & 0x7f) as u32) << 7) | ((b[2] as u32)
                    << 14)) as u32,
                3,
            ),
        )
    } else if b.len() < 4 {
        Err(Error::Truncated)
    } else if b[3] < 0x80 {
        Ok(
            (
                ((b[0] & 0x7f) as u32 | (((b[1] & 0x7f) as u32) << 7) | (((b[2] & 0x7f) as u32)
                    << 14) | ((b[3] as u32) << 21)) as u32,
                4,
            ),
        )
    } else if b.len() < 5 {
        Err(Error::Truncated)
    } else if b[4] < 0x10 {
        Ok(
            (
                ((b[0] & 0x7f) as u32 | (((b[1] & 0x7f) as u32) << 7) | (((b[2] & 0x7f) as u32)
                    << 14) | (((b[3] & 0x7f) as u32) << 21) | ((b[4] as u32) << 28)) as u32,
                5,
            ),
        )
    } else {
        Err(Error::MalformedLength)
    }
}

/// The zigzag mapping: non-negative values to the evens, negatives to
/// the odds, so small magnitudes of either sign stay small.
pub open spec fn spec_zigzag(x: i32) -> u32 {
    if x >= 0 {
        (2 * x) as u32
    } else {
        (-2 * (x as int) - 1) as u32
    }
}

/// The inverse of the zigzag mapping.
pub open spec fn spec_unzigzag(u: u32) -> i32 {
    if u % 2 == 0 {
        (u / 2) as i32
    } else {
        (-((u / 2) as int) - 1) as i32
    }
}

pub proof fn lemma_zigzag_inverse(x: i32)
    ensures
        spec_unzigzag(spec_zigzag(x)) == x,
{
}

/// Reading an encoded value back, with anything at all after it, yields
/// the value and consumes exactly its encoding.
pub proof fn lemma_varint_round(u: u32, t: Seq<u8>)
    ensures
        spec_decode_varint(spec_varint(u) + t) == Ok::<(u32, int), Error>(
            (u, spec_varint(u).len() as int),
        ),
{
    reveal(spec_decode_varint);
    let b = spec_varint(u) + t;
    if u < 0x80 {
        assert(b[0] == u as u8);
    } else if u < 0x4000 {
        assert(b[0] == (((u & 0x7f) | 0x80) as u8) && b[1] == ((u >> 7) as u8));
        assert(u >= 0x80 && u < 0x4000 ==> ((((u & 0x7f) | 0x80) as u8) >= 0x80) && (((u
            >> 7) as u8) < 0x80) && (((((((u & 0x7f) | 0x80) as u8) & 0x7f) as u32) | ((((u
            >> 7) as u8) as u32) << 7)) == u)) by (bit_vector);
    } else if u < 0x20_0000 {
        assert(b[0] == (((u & 0x7f) | 0x80) as u8) && b[1] == ((((u >> 7) & 0x7f) | 0x80) as u8)
            && b[2] == ((u >> 14) as u8));
        assert(u >= 0x4000 && u < 0x20_0000 ==> ((((u & 0x7f) | 0x80) as u8) >= 0x80) && (((((u
            >> 7) & 0x7f) | 0x80) as u8) >= 0x80) && (((u >> 14) as u8) < 0x80) && (((((((u & 0x7f)
            | 0x80) as u8) & 0x7f) as u32) | (((((((u >> 7) & 0x7f) | 0x80) as u8) & 0x7f) as u32)
            << 7) | ((((u >> 14) as u8) as u32) << 14)) == u)) by (bit_vector);
    } else if u < 0x1000_0000 {
        assert(b[0] == (((u & 0x7f) | 0x80) as u8) && b[1] == ((((u >> 7) & 0x7f) | 0x80) as u8)
            && b[2] == ((((u >> 14) & 0x7f) | 0x80) as u8) && b[3] == ((u >> 21) as u8));
        assert(u >= 0x20_0000 && u < 0x1000_0000 ==> ((((u & 0x7f) | 0x80) as u8) >= 0x80)
            && (((((u >> 7) & 0x7f) | 0x80) as u8) >= 0x80) && (((((u >> 14) & 0x7f)
            | 0x80) as u8) >= 0x80) && (((u >> 21) as u8) < 0x80) && (((((((u & 0x7f)
            | 0x80) as u8) & 0x7f) as u32) | (((((((u >> 7) & 0x7f) | 0x80) as u8) & 0x7f) as u32)
            << 7) | (((((((u >> 14) & 0x7f) | 0x80) as u8) & 0x7f) as u32) << 14) | ((((u
            >> 21) as u8) as u32) << 21)) == u)) by (bit_vector);
    } else {
        assert(b[0] == (((u & 0x7f) | 0x80) as u8) && b[1] == ((((u >> 7) & 0x7f) | 0x80) as u8)
            && b[2] == ((((u >> 14) & 0x7f) | 0x80) as u8) && b[3] == ((((u >> 21) & 0x7f)
            | 0x80) as u8) && b[4] == ((u >> 28) as u8));
        assert(u >= 0x1000_0000 ==> ((((u & 0x7f) | 0x80) as u8) >= 0x80) && (((((u >> 7) & 0x7f)
            | 0x80) as u8) >= 0x80) && (((((u >> 14) & 0x7f) | 0x80) as u8) >= 0x80) && (((((u
            >> 21) & 0x7f) | 0x80) as u8) >= 0x80) && (((u >> 28) as u8) < 0x10) && (((((((u
            & 0x7f) | 0x80) as u8) & 0x7f) as u32) | (((((((u >> 7) & 0x7f)
            | 0x80) as u8) & 0x7f) as u32) << 7) | (((((((u >> 14) & 0x7f)
            | 0x80) as u8) & 0x7f) as u32) << 14) | (((((((u >> 21) & 0x7f)
            | 0x80) as u8) & 0x7f) as u32) << 21) | ((((u >> 28) as u8) as u32) << 28)) == u))
            by (bit_vector);
    }
}

/// Append one unsigned value in the variable-length convention.
pub fn put_varint(ser: &mut Serializer, u: u32)
    ensures
        final(ser).bytes() == old(ser).bytes() + spec_varint(u),
{
    if u < 0x80 {
        ser.put_u8(u as u8);
    } else if u < 0x4000 {
        ser.put_u8(((u & 0x7f) | 0x80) as u8);
        ser.put_u8((u >> 7) as u8);
        assert(final(ser).bytes() =~= old(ser).bytes() + spec_varint(u));
    } else if u < 0x20_0000 {
        ser.put_u8(((u & 0x7f) | 0x80) as u8);
        ser.put_u8((((u >> 7) & 0x7f) | 0x80) as u8);
        ser.put_u8((u >> 14) as u8);
        assert(final(ser).bytes() =~= old(ser).bytes() + spec_varint(u));
    } else if u < 0x1000_0000 {
        ser.put_u8(((u & 0x7f) | 0x80) as u8);
        ser.put_u8((((u >> 7) & 0x7f) | 0x80) as u8);
        ser.put_u8((((u >> 14) & 0x7f) | 0x80) as u8);
        ser.put_u8((u >> 21) as u8);
        assert(final(ser).bytes() =~= old(ser).bytes() + spec_varint(u));
    } else {
        ser.put_u8(((u & 0x7f) | 0x80) as u8);
        ser.put_u8((((u >> 7) & 0x7f) | 0x80) as u8);
        ser.put_u8((((u >> 14) & 0x7f) | 0x80) as u8);
        ser.put_u8((((u >> 21) & 0x7f) | 0x80) as u8);
        ser.put_u8((u >> 28) as u8);
        assert(final(ser).bytes() =~= old(ser).bytes() + spec_varint(u));
    }
}

/// Append one signed value: zigzag first, then the unsigned convention.
pub fn put_zigzag_varint(ser: &mut Serializer, x: i32)
    ensures
        final(ser).bytes() == old(ser).bytes() + spec_varint(spec_zigzag(x)),
{
    let u: u32 = if x >= 0 {
        (2 * (x as i64)) as u32
    } else {
        proof {
            assert(-2 * (x as int) - 1 >= 1 && -2 * (x as int) - 1 <= 0xffff_ffffu32);
        }
        ((-2 * (x as i64)) - 1) as u32
    };
    put_varint(ser, u);
}

/// Consume one unsigned value in the variable-length convention.
pub fn get_varint(de: &mut Deserializer) -> (r: Result<u32, Error>)
    requires
        old(de).wf(),
    ensures
        final(de).wf(),
        spec_decode_varint(old(de).remaining()) matches Ok(p) ==> (r == Ok::<u32, Error>(p.0)
            && final(de).remaining() == old(de).remaining().skip(p.1)),
        spec_decode_varint(old(de).remaining()) matches Err(e) ==> r == Err::<u32, Error>(e),
{
    proof {
        reveal(spec_decode_varint);
    }
    let b0 = match de.get_u8() {
        Ok(x) => x,
        Err(e) => {
            return Err(e);
        },
    };
    if b0 < 0x80 {
        return Ok(b0 as u32);
    }
    let b1 = match de.get_u8() {
        Ok(x) => x,
        Err(e) => {
            return Err(e);
        },
    };
    if b1 < 0x80 {
        return Ok((b0 & 0x7f) as u32 | ((b1 as u32) << 7));
    }
    let b2 = match de.get_u8() {
        Ok(x) => x,
        Err(e) => {
            return Err(e);
        },
    };
    if b2 < 0x80 {
        return Ok((b0 & 0x7f) as u32 | (((b1 & 0x7f) as u32) << 7) | ((b2 as u32) << 14));
    }
    let b3 = match de.get_u8() {
        Ok(x) => x,
        Err(e) => {
            return Err(e);
        },
    };
    if b3 < 0x80 {
        return Ok(
            (b0 & 0x7f) as u32 | (((b1 & 0x7f) as u32) << 7) | (((b2 & 0x7f) as u32) << 14) | ((
            b3 as u32) << 21),
        );
    }
    let b4 = match de.get_u8() {
        Ok(x) => x,
        Err(e) => {
            return Err(e);
        },
    };
    if b4 < 0x10 {
        Ok(
            (b0 & 0x7f) as u32 | (((b1 & 0x7f) as u32) << 7) | (((b2 & 0x7f) as u32) << 14) | (((b3
                & 0x7f) as u32) << 21) | ((b4 as u32) << 28),
        )
    } else {
        Err(Error::MalformedLength)
    }
}

/// Consume one signed value: the unsigned convention, then undo the
/// zigzag.
pub fn get_zigzag_varint(de: &mut Deserializer) -> (r: Result<i32, Error>)
    requires
        old(de).wf(),
    ensures
        final(de).wf(),
        spec_decode_varint(old(de).remaining()) matches Ok(p) ==> (r == Ok::<i32, Error>(
            spec_unzigzag(p.0),
        ) && final(de).remaining() == old(de).remaining().skip(p.1)),
        spec_decode_varint(old(de).remaining()) matches Err(e) ==> r == Err::<i32, Error>(e),
{
    let u = match get_varint(de) {
        Ok(x) => x,
        Err(e) => {
            return Err(e);
        },
    };
    proof {
        assert(((u >> 1) < 0x8000_0000) && ((u >> 1) == u / 2) && ((u & 1 == 0) == (u % 2 == 0)))
            by (bit_vector);
    }
    let half = (u >> 1) as i32;
    if u & 1 == 0 {
        Ok(half)
    } else {
        Ok(-half - 1)
    }
}

} // verus!
