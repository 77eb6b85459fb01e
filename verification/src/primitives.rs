//! The primitive writer and reader: fixed-width big-endian integers and raw
//! byte runs, written into a growable byte buffer and read back from a byte
//! cursor.

use vstd::prelude::*;

use crate::error::Error;

verus! {

// ---------------------------------------------------------------------------
// Two's-complement views of the signed integers.
// ---------------------------------------------------------------------------

/// The two's-complement bit pattern of an `i8`, as a `u8`.
pub open spec fn u8_bits(x: i8) -> u8 {
    if x >= 0 {
        x as u8
    } else {
        (x + 0x100) as u8
    }
}

/// The `i8` whose two's-complement bit pattern is the given `u8`.
pub open spec fn i8_of_bits(x: u8) -> i8 {
    if x < 0x80 {
        x as i8
    } else {
        (x - 0x100) as i8
    }
}

/// The two's-complement bit pattern of an `i16`, as a `u16`.
pub open spec fn u16_bits(x: i16) -> u16 {
    if x >= 0 {
        x as u16
    } else {
        (x + 0x1_0000) as u16
    }
}

/// The `i16` whose two's-complement bit pattern is the given `u16`.
pub open spec fn i16_of_bits(x: u16) -> i16 {
    if x < 0x8000 {
        x as i16
    } else {
        (x - 0x1_0000) as i16
    }
}

/// The two's-complement bit pattern of an `i32`, as a `u32`.
pub open spec fn u32_bits(x: i32) -> u32 {
    if x >= 0 {
        x as u32
    } else {
        (x + 0x1_0000_0000) as u32
    }
}

/// The `i32` whose two's-complement bit pattern is the given `u32`.
pub open spec fn i32_of_bits(x: u32) -> i32 {
    if x < 0x8000_0000 {
        x as i32
    } else {
        (x - 0x1_0000_0000) as i32
    }
}

/// The two's-complement bit pattern of an `i64`, as a `u64`.
pub open spec fn u64_bits(x: i64) -> u64 {
    if x >= 0 {
        x as u64
    } else {
        (x + 0x1_0000_0000_0000_0000) as u64
    }
}

/// The `i64` whose two's-complement bit pattern is the given `u64`.
pub open spec fn i64_of_bits(x: u64) -> i64 {
    if x < 0x8000_0000_0000_0000 {
        x as i64
    } else {
        (x - 0x1_0000_0000_0000_0000) as i64
    }
}

pub proof fn lemma_i8_bits_inverse(x: i8)
    ensures
        i8_of_bits(u8_bits(x)) == x,
{
}

pub proof fn lemma_i16_bits_inverse(x: i16)
    ensures
        i16_of_bits(u16_bits(x)) == x,
{
}

pub proof fn lemma_i32_bits_inverse(x: i32)
    ensures
        i32_of_bits(u32_bits(x)) == x,
{
}

pub proof fn lemma_i64_bits_inverse(x: i64)
    ensures
        i64_of_bits(u64_bits(x)) == x,
{
}

// ---------------------------------------------------------------------------
// Big-endian byte sequences.
// ---------------------------------------------------------------------------

/// The big-endian bytes of a `u16`.
pub open spec fn be16(x: u16) -> Seq<u8> {
    seq![(x >> 8) as u8, x as u8]
}

/// The big-endian bytes of a `u32`.
pub open spec fn be32(x: u32) -> Seq<u8> {
    seq![(x >> 24) as u8, (x >> 16) as u8, (x >> 8) as u8, x as u8]
}

/// The big-endian bytes of a `u64`.
pub open spec fn be64(x: u64) -> Seq<u8> {
    seq![
        (x >> 56) as u8,
        (x >> 48) as u8,
        (x >> 40) as u8,
        (x >> 32) as u8,
        (x >> 24) as u8,
        (x >> 16) as u8,
        (x >> 8) as u8,
        x as u8,
    ]
}

/// The `u16` whose big-endian bytes are `b0 b1`.
pub open spec fn u16_of_be(b0: u8, b1: u8) -> u16 {
    (((b0 as u16) << 8) | (b1 as u16)) as u16
}

/// The `u32` whose big-endian bytes are `b0 b1 b2 b3`.
pub open spec fn u32_of_be(b0: u8, b1: u8, b2: u8, b3: u8) -> u32 {
    (((b0 as u32) << 24) | ((b1 as u32) << 16) | ((b2 as u32) << 8) | (b3 as u32)) as u32
}

/// The `u64` whose big-endian bytes are `b0` through `b7`.
pub open spec fn u64_of_be(b0: u8, b1: u8, b2: u8, b3: u8, b4: u8, b5: u8, b6: u8, b7: u8) -> u64 {
    (((b0 as u64) << 56) | ((b1 as u64) << 48) | ((b2 as u64) << 40) | ((b3 as u64) << 32) | (
    (b4 as u64) << 24) | ((b5 as u64) << 16) | ((b6 as u64) << 8) | (b7 as u64)) as u64
}

pub proof fn lemma_be16_inverse(x: u16)
    ensures
        u16_of_be(be16(x)[0], be16(x)[1]) == x,
{
    assert((((((x >> 8) as u8) as u16) << 8) | ((x as u8) as u16)) == x) by (bit_vector);
}

pub proof fn lemma_be32_inverse(x: u32)
    ensures
        u32_of_be(be32(x)[0], be32(x)[1], be32(x)[2], be32(x)[3]) == x,
{
    assert(((((x >> 24) as u8 as u32) << 24) | (((x >> 16) as u8 as u32) << 16) | (((x
        >> 8) as u8 as u32) << 8) | (x as u8 as u32)) == x) by (bit_vector);
}

pub proof fn lemma_be64_inverse(x: u64)
    ensures
        u64_of_be(
            be64(x)[0],
            be64(x)[1],
            be64(x)[2],
            be64(x)[3],
            be64(x)[4],
            be64(x)[5],
            be64(x)[6],
            be64(x)[7],
        ) == x,
{
    assert(((((x >> 56) as u8 as u64) << 56) | (((x >> 48) as u8 as u64) << 48) | (((x
        >> 40) as u8 as u64) << 40) | (((x >> 32) as u8 as u64) << 32) | (((x
        >> 24) as u8 as u64) << 24) | (((x >> 16) as u8 as u64) << 16) | (((x >> 8) as u8 as u64)
        << 8) | (x as u8 as u64)) == x) by (bit_vector);
}

// ---------------------------------------------------------------------------
// Exec conversions between signed values and their bit patterns.
// ---------------------------------------------------------------------------

pub fn i8_to_bits(x: i8) -> (r: u8)
    ensures
        r == u8_bits(x),
{
    if x >= 0 {
        x as u8
    } else {
        ((x as i16) + 0x100) as u8
    }
}

pub fn bits_to_i8(x: u8) -> (r: i8)
    ensures
        r == i8_of_bits(x),
{
    if x < 0x80 {
        x as i8
    } else {
        ((x as i16) - 0x100) as i8
    }
}

pub fn i16_to_bits(x: i16) -> (r: u16)
    ensures
        r == u16_bits(x),
{
    if x >= 0 {
        x as u16
    } else {
        ((x as i32) + 0x1_0000) as u16
    }
}

pub fn bits_to_i16(x: u16) -> (r: i16)
    ensures
        r == i16_of_bits(x),
{
    if x < 0x8000 {
        x as i16
    } else {
        ((x as i32) - 0x1_0000) as i16
    }
}

pub fn i32_to_bits(x: i32) -> (r: u32)
    ensures
        r == u32_bits(x),
{
    if x >= 0 {
        x as u32
    } else {
        ((x as i64) + 0x1_0000_0000) as u32
    }
}

pub fn bits_to_i32(x: u32) -> (r: i32)
    ensures
        r == i32_of_bits(x),
{
    if x < 0x8000_0000 {
        x as i32
    } else {
        ((x as i64) - 0x1_0000_0000) as i32
    }
}

pub fn i64_to_bits(x: i64) -> (r: u64)
    ensures
        r == u64_bits(x),
{
    if x >= 0 {
        x as u64
    } else {
        ((x as i128) + 0x1_0000_0000_0000_0000) as u64
    }
}

pub fn bits_to_i64(x: u64) -> (r: i64)
    ensures
        r == i64_of_bits(x),
{
    if x < 0x8000_0000_0000_0000 {
        x as i64
    } else {
        ((x as i128) - 0x1_0000_0000_0000_0000) as i64
    }
}

// ---------------------------------------------------------------------------
// The primitive writer.
// ---------------------------------------------------------------------------

/// A growable byte buffer that primitive values are appended to in
/// big-endian order.
pub struct Serializer {
    pub output: Vec<u8>,
}

impl Serializer {
    /// The bytes written so far.
    pub open spec fn bytes(&self) -> Seq<u8> {
        self.output@
    }

    pub fn new() -> (r: Serializer)
        ensures
            r.bytes() == Seq::<u8>::empty(),
    {
        Serializer { output: Vec::new() }
    }

    /// Hand the finished buffer out.
    pub fn into_bytes(self) -> (r: Vec<u8>)
        ensures
            r@ == self.bytes(),
    {
        self.output
    }

    pub fn put_u8(&mut self, x: u8)
        ensures
            final(self).bytes() == old(self).bytes() + seq![x],
    {
        self.output.push(x);
    }

    pub fn put_i8(&mut self, x: i8)
        ensures
            final(self).bytes() == old(self).bytes() + seq![u8_bits(x)],
    {
        let b = i8_to_bits(x);
        self.output.push(b);
    }

    pub fn put_u16(&mut self, x: u16)
        ensures
            final(self).bytes() == old(self).bytes() + be16(x),
    {
        self.output.push((x >> 8) as u8);
        self.output.push(x as u8);
        assert(final(self).bytes() =~= old(self).bytes() + be16(x));
    }

    pub fn put_i16(&mut self, x: i16)
        ensures
            final(self).bytes() == old(self).bytes() + be16(u16_bits(x)),
    {
        let b = i16_to_bits(x);
        self.put_u16(b);
    }

    pub fn put_u32(&mut self, x: u32)
        ensures
            final(self).bytes() == old(self).bytes() + be32(x),
    {
        self.output.push((x >> 24) as u8);
        self.output.push((x >> 16) as u8);
        self.output.push((x >> 8) as u8);
        self.output.push(x as u8);
        assert(final(self).bytes() =~= old(self).bytes() + be32(x));
    }

    pub fn put_i32(&mut self, x: i32)
        ensures
            final(self).bytes() == old(self).bytes() + be32(u32_bits(x)),
    {
        let b = i32_to_bits(x);
        self.put_u32(b);
    }

    pub fn put_u64(&mut self, x: u64)
        ensures
            final(self).bytes() == old(self).bytes() + be64(x),
    {
        self.output.push((x >> 56) as u8);
        self.output.push((x >> 48) as u8);
        self.output.push((x >> 40) as u8);
        self.output.push((x >> 32) as u8);
        self.output.push((x >> 24) as u8);
        self.output.push((x >> 16) as u8);
        self.output.push((x >> 8) as u8);
        self.output.push(x as u8);
        assert(final(self).bytes() =~= old(self).bytes() + be64(x));
    }

    pub fn put_i64(&mut self, x: i64)
        ensures
            final(self).bytes() == old(self).bytes() + be64(u64_bits(x)),
    {
        let b = i64_to_bits(x);
        self.put_u64(b);
    }

    pub fn put_slice(&mut self, s: &[u8])
        ensures
            final(self).bytes() == old(self).bytes() + s@,
    {
        let mut i: usize = 0;
        while i < s.len()
            invariant
                i <= s@.len(),
                self.bytes() == old(self).bytes() + s@.take(i as int),
            decreases s@.len() - i,
        {
            let b = s[i];
            self.output.push(b);
            assert(self.bytes() =~= old(self).bytes() + s@.take(i + 1));
            i = i + 1;
        }
        assert(s@.take(s@.len() as int) =~= s@);
    }
}

// ---------------------------------------------------------------------------
// The primitive reader.
// ---------------------------------------------------------------------------

/// A cursor over a borrowed byte buffer, consuming primitive values from the
/// front.
pub struct Deserializer<'de> {
    pub input: &'de [u8],
    pub pos: usize,
}

impl<'de> Deserializer<'de> {
    /// The cursor never stands past the end of the buffer.
    pub open spec fn wf(&self) -> bool {
        self.pos <= self.input@.len()
    }

    /// The bytes not yet consumed.
    pub open spec fn remaining(&self) -> Seq<u8> {
        self.input@.skip(self.pos as int)
    }

    /// Start a cursor at the front of the given buffer.
    pub fn from_bytes(input: &'de [u8]) -> (r: Deserializer<'de>)
        ensures
            r.wf(),
            r.remaining() == input@,
    {
        let r = Deserializer { input, pos: 0 };
        assert(r.remaining() =~= input@);
        r
    }

    /// How many bytes are left to consume.
    pub fn len(&self) -> (r: usize)
        requires
            self.wf(),
        ensures
            r == self.remaining().len(),
    {
        self.input.len() - self.pos
    }

    pub fn is_empty(&self) -> (r: bool)
        requires
            self.wf(),
        ensures
            r == (self.remaining().len() == 0),
    {
        self.input.len() == self.pos
    }

    /// Copy the unconsumed remainder out.
    pub fn rest(&self) -> (r: Vec<u8>)
        requires
            self.wf(),
        ensures
            r@ == self.remaining(),
    {
        let s = vstd::slice::slice_subrange(self.input, self.pos, self.input.len());
        vstd::slice::slice_to_vec(s)
    }

    pub fn get_u8(&mut self) -> (r: Result<u8, Error>)
        requires
            old(self).wf(),
        ensures
            final(self).wf(),
            old(self).remaining().len() == 0 ==> r == Err::<u8, Error>(Error::Truncated) && *final(self) == *old(self),
            old(self).remaining().len() >= 1 ==> r == Ok::<u8, Error>(old(self).remaining()[0])
                && final(self).remaining() == old(self).remaining().skip(1),
    {
        if self.pos < self.input.len() {
            let b = self.input[self.pos];
            self.pos = self.pos + 1;
            assert(final(self).remaining() =~= old(self).remaining().skip(1));
            Ok(b)
        } else {
            Err(Error::Truncated)
        }
    }

    pub fn get_i8(&mut self) -> (r: Result<i8, Error>)
        requires
            old(self).wf(),
        ensures
            final(self).wf(),
            old(self).remaining().len() == 0 ==> r == Err::<i8, Error>(Error::Truncated) && *final(self) == *old(self),
            old(self).remaining().len() >= 1 ==> r == Ok::<i8, Error>(
                i8_of_bits(old(self).remaining()[0]),
            ) && final(self).remaining() == old(self).remaining().skip(1),
    {
        match self.get_u8() {
            Ok(b) => Ok(bits_to_i8(b)),
            Err(e) => Err(e),
        }
    }

    pub fn get_u16(&mut self) -> (r: Result<u16, Error>)
        requires
            old(self).wf(),
        ensures
            final(self).wf(),
            old(self).remaining().len() < 2 ==> r == Err::<u16, Error>(Error::Truncated) && *final(self) == *old(self),
            old(self).remaining().len() >= 2 ==> r == Ok::<u16, Error>(
                u16_of_be(old(self).remaining()[0], old(self).remaining()[1]),
            ) && final(self).remaining() == old(self).remaining().skip(2),
    {
        if self.input.len() - self.pos >= 2 {
            let b0 = self.input[self.pos];
            let b1 = self.input[self.pos + 1];
            self.pos = self.pos + 2;
            assert(final(self).remaining() =~= old(self).remaining().skip(2));
            Ok(((b0 as u16) << 8) | (b1 as u16))
        } else {
            Err(Error::Truncated)
        }
    }

    pub fn get_i16(&mut self) -> (r: Result<i16, Error>)
        requires
            old(self).wf(),
        ensures
            final(self).wf(),
            old(self).remaining().len() < 2 ==> r == Err::<i16, Error>(Error::Truncated) && *final(self) == *old(self),
            old(self).remaining().len() >= 2 ==> r == Ok::<i16, Error>(
                i16_of_bits(u16_of_be(old(self).remaining()[0], old(self).remaining()[1])),
            ) && final(self).remaining() == old(self).remaining().skip(2),
    {
        match self.get_u16() {
            Ok(b) => Ok(bits_to_i16(b)),
            Err(e) => Err(e),
        }
    }

    pub fn get_u32(&mut self) -> (r: Result<u32, Error>)
        requires
            old(self).wf(),
        ensures
            final(self).wf(),
            old(self).remaining().len() < 4 ==> r == Err::<u32, Error>(Error::Truncated) && *final(self) == *old(self),
            old(self).remaining().len() >= 4 ==> r == Ok::<u32, Error>(
                u32_of_be(
                    old(self).remaining()[0],
                    old(self).remaining()[1],
                    old(self).remaining()[2],
                    old(self).remaining()[3],
                ),
            ) && final(self).remaining() == old(self).remaining().skip(4),
    {
        if self.input.len() - self.pos >= 4 {
            let b0 = self.input[self.pos];
            let b1 = self.input[self.pos + 1];
            let b2 = self.input[self.pos + 2];
            let b3 = self.input[self.pos + 3];
            self.pos = self.pos + 4;
            assert(final(self).remaining() =~= old(self).remaining().skip(4));
            Ok(((b0 as u32) << 24) | ((b1 as u32) << 16) | ((b2 as u32) << 8) | (b3 as u32))
        } else {
            Err(Error::Truncated)
        }
    }

    pub fn get_i32(&mut self) -> (r: Result<i32, Error>)
        requires
            old(self).wf(),
        ensures
            final(self).wf(),
            old(self).remaining().len() < 4 ==> r == Err::<i32, Error>(Error::Truncated) && *final(self) == *old(self),
            old(self).remaining().len() >= 4 ==> r == Ok::<i32, Error>(
                i32_of_bits(
                    u32_of_be(
                        old(self).remaining()[0],
                        old(self).remaining()[1],
                        old(self).remaining()[2],
                        old(self).remaining()[3],
                    ),
                ),
            ) && final(self).remaining() == old(self).remaining().skip(4),
    {
        match self.get_u32() {
            Ok(b) => Ok(bits_to_i32(b)),
            Err(e) => Err(e),
        }
    }

    pub fn get_u64(&mut self) -> (r: Result<u64, Error>)
        requires
            old(self).wf(),
        ensures
            final(self).wf(),
            old(self).remaining().len() < 8 ==> r == Err::<u64, Error>(Error::Truncated) && *final(self) == *old(self),
            old(self).remaining().len() >= 8 ==> r == Ok::<u64, Error>(
                u64_of_be(
                    old(self).remaining()[0],
                    old(self).remaining()[1],
                    old(self).remaining()[2],
                    old(self).remaining()[3],
                    old(self).remaining()[4],
                    old(self).remaining()[5],
                    old(self).remaining()[6],
                    old(self).remaining()[7],
                ),
            ) && final(self).remaining() == old(self).remaining().skip(8),
    {
        if self.input.len() - self.pos >= 8 {
            let b0 = self.input[self.pos];
            let b1 = self.input[self.pos + 1];
            let b2 = self.input[self.pos + 2];
            let b3 = self.input[self.pos + 3];
            let b4 = self.input[self.pos + 4];
            let b5 = self.input[self.pos + 5];
            let b6 = self.input[self.pos + 6];
            let b7 = self.input[self.pos + 7];
            self.pos = self.pos + 8;
            assert(final(self).remaining() =~= old(self).remaining().skip(8));
            Ok(
                ((b0 as u64) << 56) | ((b1 as u64) << 48) | ((b2 as u64) << 40) | ((b3 as u64)
                    << 32) | ((b4 as u64) << 24) | ((b5 as u64) << 16) | ((b6 as u64) << 8) | (
                b7 as u64),
            )
        } else {
            Err(Error::Truncated)
        }
    }

    pub fn get_i64(&mut self) -> (r: Result<i64, Error>)
        requires
            old(self).wf(),
        ensures
            final(self).wf(),
            old(self).remaining().len() < 8 ==> r == Err::<i64, Error>(Error::Truncated) && *final(self) == *old(self),
            old(self).remaining().len() >= 8 ==> r == Ok::<i64, Error>(
                i64_of_bits(
                    u64_of_be(
                        old(self).remaining()[0],
                        old(self).remaining()[1],
                        old(self).remaining()[2],
                        old(self).remaining()[3],
                        old(self).remaining()[4],
                        old(self).remaining()[5],
                        old(self).remaining()[6],
                        old(self).remaining()[7],
                    ),
                ),
            ) && final(self).remaining() == old(self).remaining().skip(8),
    {
        match self.get_u64() {
            Ok(b) => Ok(bits_to_i64(b)),
            Err(e) => Err(e),
        }
    }

    /// Consume exactly `n` raw bytes.
    pub fn get_bytes(&mut self, n: usize) -> (r: Result<Vec<u8>, Error>)
        requires
            old(self).wf(),
        ensures
            final(self).wf(),
            old(self).remaining().len() < n ==> r == Err::<Vec<u8>, Error>(Error::Truncated)
                && *final(self) == *old(self),
            old(self).remaining().len() >= n ==> (r matches Ok(v) && v@ == old(
                self,
            ).remaining().take(n as int) && final(self).remaining() == old(self).remaining().skip(
                n as int,
            )),
    {
        if self.input.len() - self.pos >= n {
            let s = vstd::slice::slice_subrange(self.input, self.pos, self.pos + n);
            let v = vstd::slice::slice_to_vec(s);
            self.pos = self.pos + n;
            assert(v@ =~= old(self).remaining().take(n as int));
            assert(final(self).remaining() =~= old(self).remaining().skip(n as int));
            Ok(v)
        } else {
            Err(Error::Truncated)
        }
    }
}

} // verus!
