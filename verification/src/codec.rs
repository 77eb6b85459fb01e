//! The schema-driven engine: walking a structured value to produce its
//! bytes, and walking a schema to read a structured value back out of a
//! byte cursor.

use vstd::prelude::*;

use crate::error::Error;
use crate::primitives::{Deserializer, Serializer};
use crate::value::{
    lemma_schemas_view, lemma_values_view_push, schema_view, schemas_view,
    conforms, lemma_encode_seq_push, lemma_encode_seq_split, lemma_round_trip, lemma_values_view,
    spec_decode, spec_decode_elems, spec_decode_fields, spec_encode, spec_encode_seq, values_view,
    Schema, SpecSchema, SpecValue, Value,
};

verus! {

broadcast use vstd::seq_lib::group_seq_properties;

// ---------------------------------------------------------------------------
// Encoding.
// ---------------------------------------------------------------------------

impl Serializer {
    /// Append the encoding of one structured value, or report the first
    /// failure; on failure the buffer may hold a partial prefix, which the
    /// top-level entry point discards.
    pub fn encode_value(&mut self, v: &Value) -> (r: Result<(), Error>)
        ensures
            spec_encode(v@) is Ok ==> r is Ok && final(self).bytes() == old(self).bytes()
                + spec_encode(v@)->Ok_0,
            spec_encode(v@) is Err ==> r == Err::<(), Error>(spec_encode(v@)->Err_0),
        decreases *v, 0int,
    {
        match v {
            Value::Bool(b) => {
                self.put_u8(if *b {
                    1
                } else {
                    0
                });
                Ok(())
            },
            Value::I8(x) => {
                self.put_i8(*x);
                Ok(())
            },
            Value::I16(x) => {
                self.put_i16(*x);
                Ok(())
            },
            Value::I32(x) => {
                self.put_i32(*x);
                Ok(())
            },
            Value::I64(_) => Err(Error::UnsupportedShape),
            Value::U8(x) => {
                self.put_u8(*x);
                Ok(())
            },
            Value::U16(x) => {
                self.put_u16(*x);
                Ok(())
            },
            Value::U32(x) => {
                self.put_u32(*x);
                Ok(())
            },
            Value::U64(_) => Err(Error::UnsupportedShape),
            Value::Str(s) => {
                let bs = s.as_str().as_bytes();
                if bs.len() > 0x7fff {
                    Err(Error::MalformedLength)
                } else {
                    self.put_i16(bs.len() as i16);
                    self.put_slice(bs);
                    assert(final(self).bytes() =~= old(self).bytes() + spec_encode(v@)->Ok_0);
                    Ok(())
                }
            },
            Value::CompactStr(cs) => {
                let bs = cs.as_str().as_bytes();
                if bs.len() > 126 {
                    Err(Error::MalformedLength)
                } else {
                    self.put_i8((bs.len() + 1) as i8);
                    self.put_slice(bs);
                    assert(final(self).bytes() =~= old(self).bytes() + spec_encode(v@)->Ok_0);
                    Ok(())
                }
            },
            Value::Bytes(b) => {
                if b.len() > 0x7fff_ffff {
                    Err(Error::MalformedLength)
                } else {
                    self.put_i32(b.len() as i32);
                    self.put_slice(b.as_slice());
                    assert(final(self).bytes() =~= old(self).bytes() + spec_encode(v@)->Ok_0);
                    Ok(())
                }
            },
            Value::Array(es) => {
                proof {
                    lemma_values_view(es@);
                }
                if es.len() > 126 {
                    Err(Error::MalformedLength)
                } else {
                    self.put_i8((es.len() + 1) as i8);
                    let r = self.encode_run(es);
                    proof {
                        lemma_values_view(es@);
                        if spec_encode_seq(values_view(es@)) is Ok {
                            assert(final(self).bytes() =~= old(self).bytes() + spec_encode(
                                v@,
                            )->Ok_0);
                        }
                    }
                    r
                }
            },
            Value::Tuple(es) => self.encode_run(es),
            Value::Struct(es) => self.encode_run(es),
        }
    }

    /// Append the encodings of a run of values, in order.
    fn encode_run(&mut self, es: &Vec<Value>) -> (r: Result<(), Error>)
        ensures
            spec_encode_seq(values_view(es@)) is Ok ==> r is Ok && final(self).bytes() == old(
                self,
            ).bytes() + spec_encode_seq(values_view(es@))->Ok_0,
            spec_encode_seq(values_view(es@)) is Err ==> r == Err::<(), Error>(
                spec_encode_seq(values_view(es@))->Err_0,
            ),
        decreases es@, 1int,
    {
        let ghost vv = values_view(es@);
        proof {
            lemma_values_view(es@);
        }
        let mut i: usize = 0;
        while i < es.len()
            invariant
                i <= es@.len(),
                vv == values_view(es@),
                vv.len() == es@.len(),
                forall|j: int| 0 <= j < es@.len() ==> #[trigger] vv[j] == es@[j]@,
                spec_encode_seq(vv.take(i as int)) is Ok,
                self.bytes() == old(self).bytes() + spec_encode_seq(vv.take(i as int))->Ok_0,
            decreases es@.len() - i,
        {
            let r = self.encode_value(&es[i]);
            match r {
                Ok(()) => {
                    proof {
                        lemma_encode_seq_push(vv.take(i as int), vv[i as int]);
                        assert(vv.take(i as int) + seq![vv[i as int]] =~= vv.take(i + 1));
                        assert(self.bytes() =~= old(self).bytes() + spec_encode_seq(
                            vv.take(i + 1),
                        )->Ok_0);
                    }
                },
                Err(e) => {
                    proof {
                        lemma_encode_seq_split(vv, i as int);
                        assert(vv.skip(i as int)[0] == vv[i as int]);
                        assert(spec_encode_seq(vv) == Err::<Seq<u8>, Error>(e));
                    }
                    return Err(e);
                },
            }
            i = i + 1;
        }
        assert(vv.take(es@.len() as int) =~= vv);
        Ok(())
    }
}

// ---------------------------------------------------------------------------
// Decoding.
// ---------------------------------------------------------------------------

/// Relies on `String::from_utf8`: it succeeds exactly on valid UTF-8 and
/// returns the unique string whose UTF-8 encoding is the input.
#[verifier::external_body]
fn string_from_utf8(bytes: Vec<u8>) -> (r: Option<String>)
    ensures
        r is Some <==> vstd::utf8::valid_utf8(bytes@),
        r is Some ==> r->0@ == vstd::utf8::decode_utf8(bytes@),
{
    String::from_utf8(bytes).ok()
}

impl<'de> Deserializer<'de> {
    /// Decode one value of the given shape from the front of the cursor,
    /// consuming exactly the bytes the schema specifies, or fail with the
    /// classified error; on failure the cursor position is unspecified.
    #[verifier::rlimit(100)]
    pub fn decode_value(&mut self, s: &Schema) -> (r: Result<Value, Error>)
        requires
            old(self).wf(),
        ensures
            final(self).wf(),
            spec_decode(s@, old(self).remaining()) matches Ok(p) ==> (r matches Ok(v) && v@ == p.0
                && final(self).remaining() == old(self).remaining().skip(p.1)),
            spec_decode(s@, old(self).remaining()) matches Err(e) ==> r == Err::<Value, Error>(e),
        decreases *s, 0int, 0int,
    {
        let ghost rem0 = old(self).remaining();
        match s {
            Schema::Bool => {
                match self.get_u8() {
                    Ok(b) => Ok(Value::Bool(b != 0)),
                    Err(e) => Err(e),
                }
            },
            Schema::I8 => {
                match self.get_i8() {
                    Ok(x) => Ok(Value::I8(x)),
                    Err(e) => Err(e),
                }
            },
            Schema::I16 => {
                match self.get_i16() {
                    Ok(x) => Ok(Value::I16(x)),
                    Err(e) => Err(e),
                }
            },
            Schema::I32 => {
                match self.get_i32() {
                    Ok(x) => Ok(Value::I32(x)),
                    Err(e) => Err(e),
                }
            },
            Schema::I64 => Err(Error::UnsupportedShape),
            Schema::U8 => {
                match self.get_u8() {
                    Ok(x) => Ok(Value::U8(x)),
                    Err(e) => Err(e),
                }
            },
            Schema::U16 => {
                match self.get_u16() {
                    Ok(x) => Ok(Value::U16(x)),
                    Err(e) => Err(e),
                }
            },
            Schema::U32 => {
                match self.get_u32() {
                    Ok(x) => Ok(Value::U32(x)),
                    Err(e) => Err(e),
                }
            },
            Schema::U64 => Err(Error::UnsupportedShape),
            Schema::Str => self.decode_str(),
            Schema::CompactStr => self.decode_compact_str(),
            Schema::Bytes => self.decode_blob(),
            Schema::Array(e) => self.decode_array(e),
            Schema::Tuple(fs) => {
                match self.decode_fields(fs) {
                    Ok(vs) => Ok(Value::Tuple(vs)),
                    Err(er) => Err(er),
                }
            },
            Schema::Struct(fs) => {
                match self.decode_fields(fs) {
                    Ok(vs) => Ok(Value::Struct(vs)),
                    Err(er) => Err(er),
                }
            },
        }
    }

    /// Decode a plain string: two-byte signed length, then UTF-8 bytes.
    fn decode_str(&mut self) -> (r: Result<Value, Error>)
        requires
            old(self).wf(),
        ensures
            final(self).wf(),
            spec_decode(SpecSchema::Str, old(self).remaining()) matches Ok(p) ==> (r matches Ok(v)
                && v@ == p.0 && final(self).remaining() == old(self).remaining().skip(p.1)),
            spec_decode(SpecSchema::Str, old(self).remaining()) matches Err(e) ==> r == Err::<
                Value,
                Error,
            >(e),
    {
        let ghost rem0 = old(self).remaining();
        let stored = match self.get_i16() {
            Ok(x) => x,
            Err(e) => {
                return Err(e);
            },
        };
        if stored == 0 {
            Ok(Value::Str(String::new()))
        } else if stored < 0 {
            Err(Error::MalformedLength)
        } else {
            let n = stored as usize;
            let content = match self.get_bytes(n) {
                Ok(c) => c,
                Err(e) => {
                    return Err(e);
                },
            };
            assert(content@ =~= rem0.subrange(2, 2 + stored as int));
            assert(self.remaining() =~= rem0.skip(2 + stored as int));
            match string_from_utf8(content) {
                Some(text) => Ok(Value::Str(text)),
                None => Err(Error::InvalidUtf8),
            }
        }
    }

    /// Decode a compact string: one signed byte holding the UTF-8 byte
    /// length plus one, where a stored length of zero or less is refused.
    fn decode_compact_str(&mut self) -> (r: Result<Value, Error>)
        requires
            old(self).wf(),
        ensures
            final(self).wf(),
            spec_decode(SpecSchema::CompactStr, old(self).remaining()) matches Ok(p) ==> (r matches
                Ok(v) && v@ == p.0 && final(self).remaining() == old(self).remaining().skip(p.1)),
            spec_decode(SpecSchema::CompactStr, old(self).remaining()) matches Err(e) ==> r
                == Err::<Value, Error>(e),
    {
        let ghost rem0 = old(self).remaining();
        let stored = match self.get_i8() {
            Ok(x) => x,
            Err(e) => {
                return Err(e);
            },
        };
        if stored <= 0 {
            Err(Error::MalformedLength)
        } else {
            let n = (stored - 1) as usize;
            let content = match self.get_bytes(n) {
                Ok(c) => c,
                Err(e) => {
                    return Err(e);
                },
            };
            assert(content@ =~= rem0.subrange(1, stored as int));
            assert(self.remaining() =~= rem0.skip(stored as int));
            match string_from_utf8(content) {
                Some(text) => Ok(Value::CompactStr(crate::compact_string::CompactString(text))),
                None => Err(Error::InvalidUtf8),
            }
        }
    }

    /// Decode an opaque byte block: four-byte signed length, then raw
    /// bytes.
    fn decode_blob(&mut self) -> (r: Result<Value, Error>)
        requires
            old(self).wf(),
        ensures
            final(self).wf(),
            spec_decode(SpecSchema::Bytes, old(self).remaining()) matches Ok(p) ==> (r matches Ok(
                v,
            ) && v@ == p.0 && final(self).remaining() == old(self).remaining().skip(p.1)),
            spec_decode(SpecSchema::Bytes, old(self).remaining()) matches Err(e) ==> r == Err::<
                Value,
                Error,
            >(e),
    {
        let ghost rem0 = old(self).remaining();
        let stored = match self.get_i32() {
            Ok(x) => x,
            Err(e) => {
                return Err(e);
            },
        };
        if stored < 0 {
            Err(Error::MalformedLength)
        } else {
            let n = stored as usize;
            let content = match self.get_bytes(n) {
                Ok(c) => c,
                Err(e) => {
                    return Err(e);
                },
            };
            assert(content@ =~= rem0.subrange(4, 4 + stored as int));
            assert(self.remaining() =~= rem0.skip(4 + stored as int));
            Ok(Value::Bytes(content))
        }
    }

    /// Decode a compact array: one signed byte holding the count plus one,
    /// then that many elements of one shape.
    fn decode_array(&mut self, e: &Schema) -> (r: Result<Value, Error>)
        requires
            old(self).wf(),
        ensures
            final(self).wf(),
            spec_decode(SpecSchema::Array(Box::new(e@)), old(self).remaining()) matches Ok(p) ==> (
            r matches Ok(v) && v@ == p.0 && final(self).remaining() == old(self).remaining().skip(
                p.1,
            )),
            spec_decode(SpecSchema::Array(Box::new(e@)), old(self).remaining()) matches Err(er)
                ==> r == Err::<Value, Error>(er),
        decreases *e, 128int, 0int,
    {
        let ghost rem0 = old(self).remaining();
        let stored = match self.get_i8() {
            Ok(x) => x,
            Err(er) => {
                return Err(er);
            },
        };
        if stored <= 0 {
            Err(Error::MalformedLength)
        } else {
            let count = (stored - 1) as usize;
            match self.decode_elems(e, count) {
                Ok(vs) => {
                    proof {
                        crate::value::lemma_decode_elems_len(e@, count as nat, rem0.skip(1));
                        if let Ok((sv, n)) = spec_decode_elems(e@, count as nat, rem0.skip(1)) {
                            assert(rem0.skip(1).skip(n) =~= rem0.skip(1 + n));
                        }
                    }
                    Ok(Value::Array(vs))
                },
                Err(er) => Err(er),
            }
        }
    }

    /// Decode exactly `count` values of one shape, in order.
    fn decode_elems(&mut self, e: &Schema, count: usize) -> (r: Result<Vec<Value>, Error>)
        requires
            old(self).wf(),
        ensures
            final(self).wf(),
            spec_decode_elems(e@, count as nat, old(self).remaining()) matches Ok(p) ==> (r matches
                Ok(vs) && values_view(vs@) == p.0 && final(self).remaining() == old(
                self,
            ).remaining().skip(p.1)),
            spec_decode_elems(e@, count as nat, old(self).remaining()) matches Err(er) ==> r
                == Err::<Vec<Value>, Error>(er),
        decreases *e, count, 1int,
    {
        let ghost rem0 = old(self).remaining();
        let ghost full = spec_decode_elems(e@, count as nat, rem0);
        let mut out: Vec<Value> = Vec::new();
        let ghost mut consumed: int = 0;
        let mut k: usize = 0;
        proof {
            assert(rem0.skip(0) =~= rem0);
            if let Ok(p) = full {
                assert(values_view(out@) + p.0 =~= p.0);
            }
        }
        while k < count
            invariant
                self.wf(),
                k <= count,
                rem0 == old(self).remaining(),
                full == spec_decode_elems(e@, count as nat, rem0),
                0 <= consumed <= rem0.len(),
                self.remaining() == rem0.skip(consumed),
                (match spec_decode_elems(e@, (count - k) as nat, self.remaining()) {
                    Ok(p) => full == Ok::<(Seq<SpecValue>, int), Error>(
                        (values_view(out@) + p.0, consumed + p.1),
                    ),
                    Err(er) => full == Err::<(Seq<SpecValue>, int), Error>(er),
                }),
            decreases count - k,
        {
            let ghost cur = self.remaining();
            let r = self.decode_value(e);
            match r {
                Ok(v) => {
                    proof {
                        let n1 = spec_decode(e@, cur)->Ok_0.1;
                        crate::value::lemma_decode_len(e@, cur);
                        lemma_values_view_push(out@, v);
                        assert(rem0.skip(consumed).skip(n1) =~= rem0.skip(consumed + n1));
                        let tail = spec_decode_elems(e@, (count - k - 1) as nat, cur.skip(n1));
                        if let Ok(q) = tail {
                            assert((values_view(out@) + seq![v@]) + q.0 =~= values_view(out@) + (
                            seq![v@] + q.0));
                        }
                        consumed = consumed + n1;
                    }
                    out.push(v);
                },
                Err(er) => {
                    proof {
                        assert(spec_decode(e@, cur) == Err::<(SpecValue, int), Error>(er));
                        assert(spec_decode_elems(e@, (count - k) as nat, cur) == Err::<
                            (Seq<SpecValue>, int),
                            Error,
                        >(er));
                    }
                    return Err(er);
                },
            }
            k = k + 1;
        }
        proof {
            if let Ok(p) = full {
                assert(values_view(out@) + Seq::<SpecValue>::empty() =~= values_view(out@));
            }
        }
        Ok(out)
    }

    /// Decode one value for each field schema, in declaration order.
    fn decode_fields(&mut self, fs: &Vec<Schema>) -> (r: Result<Vec<Value>, Error>)
        requires
            old(self).wf(),
        ensures
            final(self).wf(),
            spec_decode_fields(schemas_view(fs@), old(self).remaining()) matches Ok(p) ==> (r
                matches Ok(vs) && values_view(vs@) == p.0 && final(self).remaining() == old(
                self,
            ).remaining().skip(p.1)),
            spec_decode_fields(schemas_view(fs@), old(self).remaining()) matches Err(er) ==> r
                == Err::<Vec<Value>, Error>(er),
        decreases fs@, 0int, 2int,
    {
        let ghost rem0 = old(self).remaining();
        let ghost sv = schemas_view(fs@);
        let ghost full = spec_decode_fields(sv, rem0);
        proof {
            lemma_schemas_view(fs@);
        }
        let mut out: Vec<Value> = Vec::new();
        let ghost mut consumed: int = 0;
        let mut k: usize = 0;
        proof {
            assert(rem0.skip(0) =~= rem0);
            assert(sv.skip(0) =~= sv);
            if let Ok(p) = full {
                assert(values_view(out@) + p.0 =~= p.0);
            }
        }
        while k < fs.len()
            invariant
                self.wf(),
                k <= fs@.len(),
                rem0 == old(self).remaining(),
                sv == schemas_view(fs@),
                sv.len() == fs@.len(),
                forall|j: int| 0 <= j < fs@.len() ==> #[trigger] sv[j] == fs@[j]@,
                full == spec_decode_fields(sv, rem0),
                0 <= consumed <= rem0.len(),
                self.remaining() == rem0.skip(consumed),
                (match spec_decode_fields(sv.skip(k as int), self.remaining()) {
                    Ok(p) => full == Ok::<(Seq<SpecValue>, int), Error>(
                        (values_view(out@) + p.0, consumed + p.1),
                    ),
                    Err(er) => full == Err::<(Seq<SpecValue>, int), Error>(er),
                }),
            decreases fs@.len() - k,
        {
            let ghost cur = self.remaining();
            proof {
                assert(sv.skip(k as int)[0] == sv[k as int]);
                assert(sv.skip(k as int).drop_first() =~= sv.skip(k + 1));
            }
            let r = self.decode_value(&fs[k]);
            match r {
                Ok(v) => {
                    proof {
                        let n1 = spec_decode(sv[k as int], cur)->Ok_0.1;
                        crate::value::lemma_decode_len(sv[k as int], cur);
                        lemma_values_view_push(out@, v);
                        assert(rem0.skip(consumed).skip(n1) =~= rem0.skip(consumed + n1));
                        let tail = spec_decode_fields(sv.skip(k + 1), cur.skip(n1));
                        if let Ok(q) = tail {
                            assert((values_view(out@) + seq![v@]) + q.0 =~= values_view(out@) + (
                            seq![v@] + q.0));
                        }
                        consumed = consumed + n1;
                    }
                    out.push(v);
                },
                Err(er) => {
                    proof {
                        assert(spec_decode(sv[k as int], cur) == Err::<(SpecValue, int), Error>(
                            er,
                        ));
                        assert(spec_decode_fields(sv.skip(k as int), cur) == Err::<
                            (Seq<SpecValue>, int),
                            Error,
                        >(er));
                    }
                    return Err(er);
                },
            }
            k = k + 1;
        }
        proof {
            assert(sv.skip(fs@.len() as int) =~= Seq::<SpecSchema>::empty());
            if let Ok(p) = full {
                assert(values_view(out@) + Seq::<SpecValue>::empty() =~= values_view(out@));
            }
        }
        Ok(out)
    }
}

/// What decoding a whole message yields: the value, or the classified
/// failure, where unconsumed bytes after the schema has been fully read
/// are the trailing-data failure.
pub open spec fn spec_decode_message(s: SpecSchema, b: Seq<u8>) -> Result<SpecValue, Error> {
    match spec_decode(s, b) {
        Ok((v, n)) => if n == b.len() {
            Ok(v)
        } else {
            Err(Error::TrailingData)
        },
        Err(e) => Err(e),
    }
}

/// Decode a whole message: every byte of the input must be consumed, or
/// the decode fails with the trailing-data error.
pub fn from_bytes<'de>(bytes: &'de [u8], schema: &Schema) -> (r: Result<Value, Error>)
    ensures
        spec_decode_message(schema@, bytes@) matches Ok(v) ==> (r matches Ok(rv) && rv@ == v),
        spec_decode_message(schema@, bytes@) matches Err(e) ==> r == Err::<Value, Error>(e),
{
    proof {
        crate::value::lemma_decode_len(schema@, bytes@);
    }
    let mut de = Deserializer::from_bytes(bytes);
    match de.decode_value(schema) {
        Ok(v) => {
            if de.is_empty() {
                Ok(v)
            } else {
                Err(Error::TrailingData)
            }
        },
        Err(e) => Err(e),
    }
}

/// Decode one structured value from the front of the input and hand back
/// the unconsumed remainder unchanged, for callers expecting more data to
/// follow in the same buffer.
pub fn from_bytes_trail<'de>(bytes: &'de [u8], schema: &Schema) -> (r: Result<
    (Value, Vec<u8>),
    Error,
>)
    ensures
        spec_decode(schema@, bytes@) matches Ok(p) ==> (r matches Ok(pair) && pair.0@ == p.0
            && pair.1@ == bytes@.skip(p.1)),
        spec_decode(schema@, bytes@) matches Err(e) ==> r == Err::<(Value, Vec<u8>), Error>(e),
{
    let mut de = Deserializer::from_bytes(bytes);
    match de.decode_value(schema) {
        Ok(v) => Ok((v, de.rest())),
        Err(e) => Err(e),
    }
}

// ---------------------------------------------------------------------------
// The round-trip law at the message level.
// ---------------------------------------------------------------------------

/// Round-trip law, first direction: decoding the encoding of any value of
/// the schema's shape yields that value back, with nothing left over.
pub proof fn lemma_message_round_trip(v: SpecValue, s: SpecSchema)
    requires
        conforms(v, s),
        spec_encode(v) is Ok,
    ensures
        spec_decode_message(s, spec_encode(v)->Ok_0) == Ok::<SpecValue, Error>(v),
{
    lemma_round_trip(v, s, Seq::<u8>::empty());
    assert(spec_encode(v)->Ok_0 + Seq::<u8>::empty() =~= spec_encode(v)->Ok_0);
}

/// Round-trip law, second direction: bytes produced by a valid encode
/// decode successfully and re-encode to the identical bytes.
pub proof fn lemma_message_reencode(b: Seq<u8>, s: SpecSchema, v: SpecValue)
    requires
        conforms(v, s),
        spec_encode(v) == Ok::<Seq<u8>, Error>(b),
    ensures
        spec_decode_message(s, b) is Ok,
        spec_encode(spec_decode_message(s, b)->Ok_0) == Ok::<Seq<u8>, Error>(b),
{
    lemma_message_round_trip(v, s);
}

/// Trailing-data detection: with extra bytes after a valid encoding, the
/// whole-message decode fails with the trailing-data error, while the
/// trailing-aware decode succeeds and leaves the remainder exactly as it
/// stands.
pub proof fn lemma_trailing_data(v: SpecValue, s: SpecSchema, t: Seq<u8>)
    requires
        conforms(v, s),
        spec_encode(v) is Ok,
        t.len() > 0,
    ensures
        spec_decode_message(s, spec_encode(v)->Ok_0 + t) == Err::<SpecValue, Error>(
            Error::TrailingData,
        ),
        spec_decode(s, spec_encode(v)->Ok_0 + t) == Ok::<(SpecValue, int), Error>(
            (v, spec_encode(v)->Ok_0.len() as int),
        ),
        (spec_encode(v)->Ok_0 + t).skip(spec_encode(v)->Ok_0.len() as int) == t,
{
    lemma_round_trip(v, s, t);
    assert((spec_encode(v)->Ok_0 + t).skip(spec_encode(v)->Ok_0.len() as int) =~= t);
}

/// Encode one structured value into a fresh byte buffer: the single
/// encode entry point.
pub fn to_bytes_mut(value: &Value) -> (r: Result<Vec<u8>, Error>)
    ensures
        spec_encode(value@) is Ok ==> r is Ok && r->Ok_0@ == spec_encode(value@)->Ok_0,
        spec_encode(value@) is Err ==> r == Err::<Vec<u8>, Error>(spec_encode(value@)->Err_0),
{
    let mut ser = Serializer::new();
    match ser.encode_value(value) {
        Ok(()) => Ok(ser.into_bytes()),
        Err(e) => Err(e),
    }
}

} // verus!
