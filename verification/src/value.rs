//! The structured values the codec walks, the schemas that drive decoding,
//! and the mathematical model of both directions of the codec.
//!
//! The wire format carries no field names or tags: fields are encoded in
//! declaration order, so a value's shape and the schema used to decode it
//! must agree or the decode fails (or yields a different value).

use vstd::prelude::*;

use crate::compact_string::CompactString;
use crate::error::Error;
use crate::primitives::{be16, be32, lemma_be16_inverse, lemma_be32_inverse, lemma_i16_bits_inverse, lemma_i32_bits_inverse, lemma_i8_bits_inverse, i16_of_bits, i32_of_bits, i8_of_bits, u16_bits, u16_of_be, u32_bits, u32_of_be, u8_bits};

verus! {

broadcast use vstd::seq_lib::group_seq_properties;

/// A structured value: the input of encoding and the output of decoding.
///
/// Sixty-four-bit integers can be held but not encoded: the engine reports
/// an unsupported shape for them instead of corrupting the output.
#[derive(Debug, PartialEq)]
pub enum Value {
    Bool(bool),
    I8(i8),
    I16(i16),
    I32(i32),
    I64(i64),
    U8(u8),
    U16(u16),
    U32(u32),
    U64(u64),
    /// A plain string: two-byte signed length prefix, then UTF-8 bytes.
    Str(String),
    /// A compact string: one signed byte holding the byte length plus one.
    CompactStr(CompactString),
    /// An opaque byte block: four-byte signed length prefix, then raw bytes.
    Bytes(Vec<u8>),
    /// A compact array: one signed byte holding the count plus one, then
    /// each element in order.
    Array(Vec<Value>),
    /// A fixed-size tuple: each element in order, with no length prefix.
    Tuple(Vec<Value>),
    /// A nested struct: each field in order, with no length prefix.
    Struct(Vec<Value>),
}

/// The mathematical shadow of [`Value`], over sequences instead of owned
/// containers; contracts and laws are stated over this type.
pub enum SpecValue {
    Bool(bool),
    I8(i8),
    I16(i16),
    I32(i32),
    I64(i64),
    U8(u8),
    U16(u16),
    U32(u32),
    U64(u64),
    Str(Seq<char>),
    CompactStr(Seq<char>),
    Bytes(Seq<u8>),
    Array(Seq<SpecValue>),
    Tuple(Seq<SpecValue>),
    Struct(Seq<SpecValue>),
}

/// A schema: what shape to expect next when decoding.
#[derive(Debug, PartialEq)]
pub enum Schema {
    Bool,
    I8,
    I16,
    I32,
    I64,
    U8,
    U16,
    U32,
    U64,
    Str,
    CompactStr,
    Bytes,
    Array(Box<Schema>),
    Tuple(Vec<Schema>),
    Struct(Vec<Schema>),
}

/// The mathematical shadow of [`Schema`].
pub enum SpecSchema {
    Bool,
    I8,
    I16,
    I32,
    I64,
    U8,
    U16,
    U32,
    U64,
    Str,
    CompactStr,
    Bytes,
    Array(Box<SpecSchema>),
    Tuple(Seq<SpecSchema>),
    Struct(Seq<SpecSchema>),
}

/// The mathematical shadow of one executable value.
pub open spec fn value_view(v: Value) -> SpecValue
    decreases v, 0int,
{
    match v {
        Value::Bool(b) => SpecValue::Bool(b),
        Value::I8(x) => SpecValue::I8(x),
        Value::I16(x) => SpecValue::I16(x),
        Value::I32(x) => SpecValue::I32(x),
        Value::I64(x) => SpecValue::I64(x),
        Value::U8(x) => SpecValue::U8(x),
        Value::U16(x) => SpecValue::U16(x),
        Value::U32(x) => SpecValue::U32(x),
        Value::U64(x) => SpecValue::U64(x),
        Value::Str(s) => SpecValue::Str(s@),
        Value::CompactStr(s) => SpecValue::CompactStr(s@),
        Value::Bytes(b) => SpecValue::Bytes(b@),
        Value::Array(es) => SpecValue::Array(values_view(es@)),
        Value::Tuple(es) => SpecValue::Tuple(values_view(es@)),
        Value::Struct(es) => SpecValue::Struct(values_view(es@)),
    }
}

/// The shadows of a run of executable values, element by element.
pub open spec fn values_view(vs: Seq<Value>) -> Seq<SpecValue>
    decreases vs, 1int,
{
    if vs.len() == 0 {
        Seq::<SpecValue>::empty()
    } else {
        seq![value_view(vs[0])] + values_view(vs.drop_first())
    }
}

impl View for Value {
    type V = SpecValue;

    open spec fn view(&self) -> SpecValue {
        value_view(*self)
    }
}

/// The mathematical shadow of one executable schema.
pub open spec fn schema_view(s: Schema) -> SpecSchema
    decreases s, 0int,
{
    match s {
        Schema::Bool => SpecSchema::Bool,
        Schema::I8 => SpecSchema::I8,
        Schema::I16 => SpecSchema::I16,
        Schema::I32 => SpecSchema::I32,
        Schema::I64 => SpecSchema::I64,
        Schema::U8 => SpecSchema::U8,
        Schema::U16 => SpecSchema::U16,
        Schema::U32 => SpecSchema::U32,
        Schema::U64 => SpecSchema::U64,
        Schema::Str => SpecSchema::Str,
        Schema::CompactStr => SpecSchema::CompactStr,
        Schema::Bytes => SpecSchema::Bytes,
        Schema::Array(e) => SpecSchema::Array(Box::new(schema_view(*e))),
        Schema::Tuple(fs) => SpecSchema::Tuple(schemas_view(fs@)),
        Schema::Struct(fs) => SpecSchema::Struct(schemas_view(fs@)),
    }
}

/// The shadows of a run of executable schemas, element by element.
pub open spec fn schemas_view(ss: Seq<Schema>) -> Seq<SpecSchema>
    decreases ss, 1int,
{
    if ss.len() == 0 {
        Seq::<SpecSchema>::empty()
    } else {
        seq![schema_view(ss[0])] + schemas_view(ss.drop_first())
    }
}

impl View for Schema {
    type V = SpecSchema;

    open spec fn view(&self) -> SpecSchema {
        schema_view(*self)
    }
}

/// How `values_view` relates to indexing: the shadow of element `i` is
/// element `i` of the shadow.
pub proof fn lemma_values_view(vs: Seq<Value>)
    ensures
        values_view(vs).len() == vs.len(),
        forall|i: int| 0 <= i < vs.len() ==> #[trigger] values_view(vs)[i] == value_view(vs[i]),
    decreases vs.len(),
{
    if vs.len() > 0 {
        lemma_values_view(vs.drop_first());
    }
}

/// Pushing one value onto a run appends its shadow.
pub proof fn lemma_values_view_push(vs: Seq<Value>, x: Value)
    ensures
        values_view(vs.push(x)) == values_view(vs) + seq![value_view(x)],
    decreases vs.len(),
{
    let p = vs.push(x);
    if vs.len() == 0 {
        assert(p[0] == x);
        assert(p.drop_first() =~= Seq::<Value>::empty());
        assert(values_view(p) =~= values_view(vs) + seq![value_view(x)]);
    } else {
        assert(p[0] == vs[0]);
        assert(p.drop_first() =~= vs.drop_first().push(x));
        lemma_values_view_push(vs.drop_first(), x);
        assert(seq![value_view(vs[0])] + (values_view(vs.drop_first()) + seq![value_view(x)]) =~= (
        seq![value_view(vs[0])] + values_view(vs.drop_first())) + seq![value_view(x)]);
    }
}

/// How `schemas_view` relates to indexing.
pub proof fn lemma_schemas_view(ss: Seq<Schema>)
    ensures
        schemas_view(ss).len() == ss.len(),
        forall|i: int| 0 <= i < ss.len() ==> #[trigger] schemas_view(ss)[i] == schema_view(ss[i]),
    decreases ss.len(),
{
    if ss.len() > 0 {
        lemma_schemas_view(ss.drop_first());
    }
}

/// Does the value have the shape the schema describes?
pub open spec fn conforms(v: SpecValue, s: SpecSchema) -> bool
    decreases v, 0int,
{
    match (v, s) {
        (SpecValue::Bool(_), SpecSchema::Bool) => true,
        (SpecValue::I8(_), SpecSchema::I8) => true,
        (SpecValue::I16(_), SpecSchema::I16) => true,
        (SpecValue::I32(_), SpecSchema::I32) => true,
        (SpecValue::I64(_), SpecSchema::I64) => true,
        (SpecValue::U8(_), SpecSchema::U8) => true,
        (SpecValue::U16(_), SpecSchema::U16) => true,
        (SpecValue::U32(_), SpecSchema::U32) => true,
        (SpecValue::U64(_), SpecSchema::U64) => true,
        (SpecValue::Str(_), SpecSchema::Str) => true,
        (SpecValue::CompactStr(_), SpecSchema::CompactStr) => true,
        (SpecValue::Bytes(_), SpecSchema::Bytes) => true,
        (SpecValue::Array(es), SpecSchema::Array(e)) => conforms_all(es, *e),
        (SpecValue::Tuple(vs), SpecSchema::Tuple(fs)) => conforms_zip(vs, fs),
        (SpecValue::Struct(vs), SpecSchema::Struct(fs)) => conforms_zip(vs, fs),
        _ => false,
    }
}

/// Does every value in the run have the one shape `e`?
pub open spec fn conforms_all(vs: Seq<SpecValue>, e: SpecSchema) -> bool
    decreases vs, 1int,
{
    vs.len() == 0 || (conforms(vs[0], e) && conforms_all(vs.drop_first(), e))
}

/// Does each value have the shape of the field schema standing at its
/// position?
pub open spec fn conforms_zip(vs: Seq<SpecValue>, fs: Seq<SpecSchema>) -> bool
    decreases vs, 1int,
{
    if vs.len() != fs.len() {
        false
    } else if vs.len() == 0 {
        true
    } else {
        conforms(vs[0], fs[0]) && conforms_zip(vs.drop_first(), fs.drop_first())
    }
}

// ---------------------------------------------------------------------------
// The encode direction, as mathematics.
// ---------------------------------------------------------------------------

/// What encoding a value produces: the exact bytes, or the classified
/// failure, for every value.
pub open spec fn spec_encode(v: SpecValue) -> Result<Seq<u8>, Error>
    decreases v, 0int,
{
    match v {
        SpecValue::Bool(b) => Ok(
            seq![
                if b {
                    1u8
                } else {
                    0u8
                },
            ],
        ),
        SpecValue::I8(x) => Ok(seq![u8_bits(x)]),
        SpecValue::I16(x) => Ok(be16(u16_bits(x))),
        SpecValue::I32(x) => Ok(be32(u32_bits(x))),
        SpecValue::I64(_) => Err(Error::UnsupportedShape),
        SpecValue::U8(x) => Ok(seq![x]),
        SpecValue::U16(x) => Ok(be16(x)),
        SpecValue::U32(x) => Ok(be32(x)),
        SpecValue::U64(_) => Err(Error::UnsupportedShape),
        SpecValue::Str(s) => {
            let bs = vstd::utf8::encode_utf8(s);
            if bs.len() > 0x7fff {
                Err(Error::MalformedLength)
            } else {
                Ok(be16(bs.len() as u16) + bs)
            }
        },
        SpecValue::CompactStr(s) => {
            let bs = vstd::utf8::encode_utf8(s);
            if bs.len() > 126 {
                Err(Error::MalformedLength)
            } else {
                Ok(seq![(bs.len() + 1) as u8] + bs)
            }
        },
        SpecValue::Bytes(bs) => {
            if bs.len() > 0x7fff_ffff {
                Err(Error::MalformedLength)
            } else {
                Ok(be32(bs.len() as u32) + bs)
            }
        },
        SpecValue::Array(es) => {
            if es.len() > 126 {
                Err(Error::MalformedLength)
            } else {
                match spec_encode_seq(es) {
                    Ok(body) => Ok(seq![(es.len() + 1) as u8] + body),
                    Err(e) => Err(e),
                }
            }
        },
        SpecValue::Tuple(es) => spec_encode_seq(es),
        SpecValue::Struct(es) => spec_encode_seq(es),
    }
}

/// The concatenation of the encodings of a run of values, or the first
/// failure among them.
pub open spec fn spec_encode_seq(vs: Seq<SpecValue>) -> Result<Seq<u8>, Error>
    decreases vs, 1int,
{
    if vs.len() == 0 {
        Ok(Seq::<u8>::empty())
    } else {
        match spec_encode(vs[0]) {
            Ok(h) => match spec_encode_seq(vs.drop_first()) {
                Ok(t) => Ok(h + t),
                Err(e) => Err(e),
            },
            Err(e) => Err(e),
        }
    }
}

// ---------------------------------------------------------------------------
// The decode direction, as mathematics.
// ---------------------------------------------------------------------------

/// What decoding a schema from the front of `b` yields: the value and the
/// exact number of bytes consumed, or the classified failure, for every
/// input.
pub open spec fn spec_decode(s: SpecSchema, b: Seq<u8>) -> Result<(SpecValue, int), Error>
    decreases s, 0int, 0int,
{
    match s {
        SpecSchema::Bool => if b.len() < 1 {
            Err(Error::Truncated)
        } else {
            Ok((SpecValue::Bool(b[0] != 0), 1))
        },
        SpecSchema::I8 => if b.len() < 1 {
            Err(Error::Truncated)
        } else {
            Ok((SpecValue::I8(i8_of_bits(b[0])), 1))
        },
        SpecSchema::I16 => if b.len() < 2 {
            Err(Error::Truncated)
        } else {
            Ok((SpecValue::I16(i16_of_bits(u16_of_be(b[0], b[1]))), 2))
        },
        SpecSchema::I32 => if b.len() < 4 {
            Err(Error::Truncated)
        } else {
            Ok((SpecValue::I32(i32_of_bits(u32_of_be(b[0], b[1], b[2], b[3]))), 4))
        },
        SpecSchema::I64 => Err(Error::UnsupportedShape),
        SpecSchema::U8 => if b.len() < 1 {
            Err(Error::Truncated)
        } else {
            Ok((SpecValue::U8(b[0]), 1))
        },
        SpecSchema::U16 => if b.len() < 2 {
            Err(Error::Truncated)
        } else {
            Ok((SpecValue::U16(u16_of_be(b[0], b[1])), 2))
        },
        SpecSchema::U32 => if b.len() < 4 {
            Err(Error::Truncated)
        } else {
            Ok((SpecValue::U32(u32_of_be(b[0], b[1], b[2], b[3])), 4))
        },
        SpecSchema::U64 => Err(Error::UnsupportedShape),
        SpecSchema::Str => if b.len() < 2 {
            Err(Error::Truncated)
        } else {
            let stored = i16_of_bits(u16_of_be(b[0], b[1]));
            if stored == 0 {
                Ok((SpecValue::Str(Seq::<char>::empty()), 2))
            } else if stored < 0 {
                Err(Error::MalformedLength)
            } else if b.len() - 2 < stored {
                Err(Error::Truncated)
            } else {
                let content = b.subrange(2, 2 + stored);
                if vstd::utf8::valid_utf8(content) {
                    Ok((SpecValue::Str(vstd::utf8::decode_utf8(content)), 2 + stored))
                } else {
                    Err(Error::InvalidUtf8)
                }
            }
        },
        SpecSchema::CompactStr => if b.len() < 1 {
            Err(Error::Truncated)
        } else {
            let stored = i8_of_bits(b[0]);
            if stored <= 0 {
                Err(Error::MalformedLength)
            } else if b.len() - 1 < stored - 1 {
                Err(Error::Truncated)
            } else {
                let content = b.subrange(1, stored as int);
                if vstd::utf8::valid_utf8(content) {
                    Ok((SpecValue::CompactStr(vstd::utf8::decode_utf8(content)), stored as int))
                } else {
                    Err(Error::InvalidUtf8)
                }
            }
        },
        SpecSchema::Bytes => if b.len() < 4 {
            Err(Error::Truncated)
        } else {
            let stored = i32_of_bits(u32_of_be(b[0], b[1], b[2], b[3]));
            if stored < 0 {
                Err(Error::MalformedLength)
            } else if b.len() - 4 < stored {
                Err(Error::Truncated)
            } else {
                Ok((SpecValue::Bytes(b.subrange(4, 4 + stored)), 4 + stored))
            }
        },
        SpecSchema::Array(e) => if b.len() < 1 {
            Err(Error::Truncated)
        } else {
            let stored = i8_of_bits(b[0]);
            if stored <= 0 {
                Err(Error::MalformedLength)
            } else {
                match spec_decode_elems(*e, (stored - 1) as nat, b.skip(1)) {
                    Ok((vs, n)) => Ok((SpecValue::Array(vs), 1 + n)),
                    Err(e2) => Err(e2),
                }
            }
        },
        SpecSchema::Tuple(fs) => match spec_decode_fields(fs, b) {
            Ok((vs, n)) => Ok((SpecValue::Tuple(vs), n)),
            Err(e2) => Err(e2),
        },
        SpecSchema::Struct(fs) => match spec_decode_fields(fs, b) {
            Ok((vs, n)) => Ok((SpecValue::Struct(vs), n)),
            Err(e2) => Err(e2),
        },
    }
}

/// Decode exactly `count` elements of shape `e` from the front of `b`.
pub open spec fn spec_decode_elems(e: SpecSchema, count: nat, b: Seq<u8>) -> Result<
    (Seq<SpecValue>, int),
    Error,
>
    decreases e, count, 1int,
{
    if count == 0 {
        Ok((Seq::<SpecValue>::empty(), 0))
    } else {
        match spec_decode(e, b) {
            Ok((v, n)) => match spec_decode_elems(e, (count - 1) as nat, b.skip(n)) {
                Ok((vs, m)) => Ok((seq![v] + vs, n + m)),
                Err(e2) => Err(e2),
            },
            Err(e2) => Err(e2),
        }
    }
}

/// Decode one value for each schema in `fs`, in order, from the front of
/// `b`.
pub open spec fn spec_decode_fields(fs: Seq<SpecSchema>, b: Seq<u8>) -> Result<
    (Seq<SpecValue>, int),
    Error,
>
    decreases fs, 0int, 2int,
{
    if fs.len() == 0 {
        Ok((Seq::<SpecValue>::empty(), 0))
    } else {
        match spec_decode(fs[0], b) {
            Ok((v, n)) => match spec_decode_fields(fs.drop_first(), b.skip(n)) {
                Ok((vs, m)) => Ok((seq![v] + vs, n + m)),
                Err(e2) => Err(e2),
            },
            Err(e2) => Err(e2),
        }
    }
}

// ---------------------------------------------------------------------------
// How much a decode consumes.
// ---------------------------------------------------------------------------

/// A successful decode consumes between zero bytes and the whole input.
pub proof fn lemma_decode_len(s: SpecSchema, b: Seq<u8>)
    ensures
        spec_decode(s, b) matches Ok((v, n)) ==> 0 <= n <= b.len(),
    decreases s, 0int, 0int,
{
    match s {
        SpecSchema::Array(e) => {
            if b.len() >= 1 {
                let stored = i8_of_bits(b[0]);
                if stored > 0 {
                    lemma_decode_elems_len(*e, (stored - 1) as nat, b.skip(1));
                }
            }
        },
        SpecSchema::Tuple(fs) => {
            lemma_decode_fields_len(fs, b);
        },
        SpecSchema::Struct(fs) => {
            lemma_decode_fields_len(fs, b);
        },
        _ => {},
    }
}

pub proof fn lemma_decode_elems_len(e: SpecSchema, count: nat, b: Seq<u8>)
    ensures
        spec_decode_elems(e, count, b) matches Ok((vs, n)) ==> 0 <= n <= b.len() && vs.len()
            == count,
    decreases e, count, 1int,
{
    if count > 0 {
        lemma_decode_len(e, b);
        if let Ok((v, n)) = spec_decode(e, b) {
            lemma_decode_elems_len(e, (count - 1) as nat, b.skip(n));
        }
    }
}

pub proof fn lemma_decode_fields_len(fs: Seq<SpecSchema>, b: Seq<u8>)
    ensures
        spec_decode_fields(fs, b) matches Ok((vs, n)) ==> 0 <= n <= b.len() && vs.len()
            == fs.len(),
    decreases fs, 0int, 2int,
{
    if fs.len() > 0 {
        lemma_decode_len(fs[0], b);
        if let Ok((v, n)) = spec_decode(fs[0], b) {
            lemma_decode_fields_len(fs.drop_first(), b.skip(n));
        }
    }
}

/// What `conforms_all` says of each element.
pub proof fn lemma_conforms_all_index(vs: Seq<SpecValue>, e: SpecSchema)
    requires
        conforms_all(vs, e),
    ensures
        forall|i: int| 0 <= i < vs.len() ==> #[trigger] conforms(vs[i], e),
    decreases vs.len(),
{
    if vs.len() > 0 {
        lemma_conforms_all_index(vs.drop_first(), e);
        assert forall|i: int| 0 <= i < vs.len() implies #[trigger] conforms(vs[i], e) by {
            if i > 0 {
                assert(vs.drop_first()[i - 1] == vs[i]);
            }
        }
    }
}

/// What `conforms_zip` says of each position.
pub proof fn lemma_conforms_zip_index(vs: Seq<SpecValue>, fs: Seq<SpecSchema>)
    requires
        conforms_zip(vs, fs),
    ensures
        vs.len() == fs.len(),
        forall|i: int| 0 <= i < vs.len() ==> #[trigger] conforms(vs[i], fs[i]),
    decreases vs.len(),
{
    if vs.len() > 0 {
        lemma_conforms_zip_index(vs.drop_first(), fs.drop_first());
        assert forall|i: int| 0 <= i < vs.len() implies #[trigger] conforms(vs[i], fs[i]) by {
            if i > 0 {
                assert(vs.drop_first()[i - 1] == vs[i]);
                assert(fs.drop_first()[i - 1] == fs[i]);
            }
        }
    }
}

// ---------------------------------------------------------------------------
// What decoding yields always fits the schema.
// ---------------------------------------------------------------------------

/// Whatever a decode yields conforms to the schema that drove it.
pub proof fn lemma_decode_conforms(s: SpecSchema, b: Seq<u8>)
    ensures
        spec_decode(s, b) matches Ok(p) ==> conforms(p.0, s),
    decreases s, 0int, 0int,
{
    match s {
        SpecSchema::Array(e) => {
            if b.len() >= 1 {
                let stored = i8_of_bits(b[0]);
                if stored > 0 {
                    lemma_decode_elems_conforms(*e, (stored - 1) as nat, b.skip(1));
                }
            }
        },
        SpecSchema::Tuple(fs) => {
            lemma_decode_fields_conforms(fs, b);
        },
        SpecSchema::Struct(fs) => {
            lemma_decode_fields_conforms(fs, b);
        },
        _ => {},
    }
}

pub proof fn lemma_decode_elems_conforms(e: SpecSchema, count: nat, b: Seq<u8>)
    ensures
        spec_decode_elems(e, count, b) matches Ok(p) ==> conforms_all(p.0, e),
    decreases e, count, 1int,
{
    if count > 0 {
        lemma_decode_conforms(e, b);
        if let Ok((v, n)) = spec_decode(e, b) {
            lemma_decode_elems_conforms(e, (count - 1) as nat, b.skip(n));
            if let Ok((vs, m)) = spec_decode_elems(e, (count - 1) as nat, b.skip(n)) {
                let whole = seq![v] + vs;
                assert(whole[0] == v);
                assert(whole.drop_first() =~= vs);
            }
        }
    }
}

pub proof fn lemma_decode_fields_conforms(fs: Seq<SpecSchema>, b: Seq<u8>)
    ensures
        spec_decode_fields(fs, b) matches Ok(p) ==> conforms_zip(p.0, fs),
    decreases fs, 0int, 2int,
{
    if fs.len() > 0 {
        lemma_decode_conforms(fs[0], b);
        if let Ok((v, n)) = spec_decode(fs[0], b) {
            lemma_decode_fields_conforms(fs.drop_first(), b.skip(n));
            lemma_decode_fields_len(fs.drop_first(), b.skip(n));
            if let Ok((vs, m)) = spec_decode_fields(fs.drop_first(), b.skip(n)) {
                let whole = seq![v] + vs;
                assert(whole[0] == v);
                assert(whole.drop_first() =~= vs);
            }
        }
    }
}

// ---------------------------------------------------------------------------
// How encoding a run of values grows.
// ---------------------------------------------------------------------------

/// Appending one value to a run appends its encoding, or surfaces the
/// first failure.
pub proof fn lemma_encode_seq_push(a: Seq<SpecValue>, x: SpecValue)
    ensures
        spec_encode_seq(a) matches Err(e) ==> spec_encode_seq(a + seq![x]) == Err::<Seq<u8>, Error>(
            e,
        ),
        spec_encode_seq(a) is Ok && spec_encode(x) is Err ==> spec_encode_seq(a + seq![x]) == Err::<
            Seq<u8>,
            Error,
        >(spec_encode(x)->Err_0),
        spec_encode_seq(a) is Ok && spec_encode(x) is Ok ==> spec_encode_seq(a + seq![x]) == Ok::<
            Seq<u8>,
            Error,
        >(spec_encode_seq(a)->Ok_0 + spec_encode(x)->Ok_0),
    decreases a.len(),
{
    let ax = a + seq![x];
    if a.len() == 0 {
        assert(ax[0] == x);
        assert(ax.drop_first() =~= Seq::<SpecValue>::empty());
        if spec_encode(x) is Ok {
            assert(spec_encode(x)->Ok_0 + Seq::<u8>::empty() =~= spec_encode(x)->Ok_0);
            assert(Seq::<u8>::empty() + spec_encode(x)->Ok_0 =~= spec_encode(x)->Ok_0);
        }
    } else {
        assert(ax[0] == a[0]);
        assert(ax.drop_first() =~= a.drop_first() + seq![x]);
        lemma_encode_seq_push(a.drop_first(), x);
        if spec_encode_seq(a) is Ok && spec_encode(x) is Ok {
            assert(spec_encode(a[0])->Ok_0 + (spec_encode_seq(a.drop_first())->Ok_0 + spec_encode(
                x,
            )->Ok_0) =~= (spec_encode(a[0])->Ok_0 + spec_encode_seq(a.drop_first())->Ok_0)
                + spec_encode(x)->Ok_0);
        }
    }
}

/// Encoding a run splits at any point: the whole run encodes to the bytes
/// of its first part followed by the bytes of the rest, and a failure in
/// either part is the failure of the whole.
pub proof fn lemma_encode_seq_split(vs: Seq<SpecValue>, i: int)
    requires
        0 <= i <= vs.len(),
    ensures
        spec_encode_seq(vs.take(i)) matches Err(e) ==> spec_encode_seq(vs) == Err::<Seq<u8>, Error>(
            e,
        ),
        spec_encode_seq(vs.take(i)) is Ok ==> spec_encode_seq(vs) == (
        match spec_encode_seq(vs.skip(i)) {
            Ok(q) => Ok(spec_encode_seq(vs.take(i))->Ok_0 + q),
            Err(e) => Err(e),
        }),
    decreases i,
{
    if i == 0 {
        assert(vs.take(0) =~= Seq::<SpecValue>::empty());
        assert(vs.skip(0) =~= vs);
        if spec_encode_seq(vs) is Ok {
            assert(Seq::<u8>::empty() + spec_encode_seq(vs)->Ok_0 =~= spec_encode_seq(vs)->Ok_0);
        }
    } else {
        let head = vs.take(i);
        assert(head[0] == vs[0]);
        assert(head.drop_first() =~= vs.drop_first().take(i - 1));
        assert(vs.skip(i) =~= vs.drop_first().skip(i - 1));
        lemma_encode_seq_split(vs.drop_first(), i - 1);
        match spec_encode(vs[0]) {
            Ok(h) => {
                if spec_encode_seq(head) is Ok {
                    let p1 = spec_encode_seq(vs.drop_first().take(i - 1))->Ok_0;
                    match spec_encode_seq(vs.drop_first().skip(i - 1)) {
                        Ok(q) => {
                            assert(h + (p1 + q) =~= (h + p1) + q);
                        },
                        Err(_) => {},
                    }
                }
            },
            Err(_) => {},
        }
    }
}

// ---------------------------------------------------------------------------
// The round-trip law.
// ---------------------------------------------------------------------------

/// The round-trip law, one value at a time: whatever a value of the
/// schema's shape encodes to decodes back to that same value, consuming
/// exactly the encoding and leaving any trailing bytes untouched.
pub proof fn lemma_round_trip(v: SpecValue, s: SpecSchema, t: Seq<u8>)
    requires
        conforms(v, s),
        spec_encode(v) is Ok,
    ensures
        spec_decode(s, spec_encode(v)->Ok_0 + t) == Ok::<(SpecValue, int), Error>(
            (v, spec_encode(v)->Ok_0.len() as int),
        ),
    decreases v, 0int,
{
    let b = spec_encode(v)->Ok_0;
    let full = b + t;
    match v {
        SpecValue::Bool(x) => {
            assert(full[0] == b[0]);
        },
        SpecValue::I8(x) => {
            assert(full[0] == b[0]);
            lemma_i8_bits_inverse(x);
        },
        SpecValue::I16(x) => {
            assert(full[0] == b[0] && full[1] == b[1]);
            lemma_be16_inverse(u16_bits(x));
            lemma_i16_bits_inverse(x);
        },
        SpecValue::I32(x) => {
            assert(full[0] == b[0] && full[1] == b[1] && full[2] == b[2] && full[3] == b[3]);
            lemma_be32_inverse(u32_bits(x));
            lemma_i32_bits_inverse(x);
        },
        SpecValue::I64(_) => {},
        SpecValue::U8(x) => {
            assert(full[0] == b[0]);
        },
        SpecValue::U16(x) => {
            assert(full[0] == b[0] && full[1] == b[1]);
            lemma_be16_inverse(x);
        },
        SpecValue::U32(x) => {
            assert(full[0] == b[0] && full[1] == b[1] && full[2] == b[2] && full[3] == b[3]);
            lemma_be32_inverse(x);
        },
        SpecValue::U64(_) => {},
        SpecValue::Str(cs) => {
            let bs = vstd::utf8::encode_utf8(cs);
            let len = bs.len();
            assert(full[0] == b[0] && full[1] == b[1]);
            lemma_be16_inverse(len as u16);
            assert(i16_of_bits(u16_of_be(full[0], full[1])) == len as i16);
            vstd::utf8::encode_utf8_decode_utf8(cs);
            if len == 0 {
                assert(vstd::utf8::decode_utf8(bs) =~= Seq::<char>::empty());
                assert(cs =~= Seq::<char>::empty());
            } else {
                assert(full.subrange(2, 2 + len as int) =~= bs);
                vstd::utf8::encode_utf8_valid_utf8(cs);
            }
        },
        SpecValue::CompactStr(cs) => {
            let bs = vstd::utf8::encode_utf8(cs);
            let len = bs.len();
            assert(full[0] == b[0]);
            assert(i8_of_bits((len + 1) as u8) == (len + 1) as i8);
            assert(full.subrange(1, 1 + len as int) =~= bs);
            vstd::utf8::encode_utf8_decode_utf8(cs);
            vstd::utf8::encode_utf8_valid_utf8(cs);
        },
        SpecValue::Bytes(bs) => {
            let len = bs.len();
            assert(full[0] == b[0] && full[1] == b[1] && full[2] == b[2] && full[3] == b[3]);
            lemma_be32_inverse(len as u32);
            assert(i32_of_bits(u32_of_be(full[0], full[1], full[2], full[3])) == len as i32);
            assert(full.subrange(4, 4 + len as int) =~= bs);
        },
        SpecValue::Array(es) => {
            if let SpecSchema::Array(e) = s {
                let body = spec_encode_seq(es)->Ok_0;
                assert(full[0] == b[0]);
                assert(i8_of_bits((es.len() + 1) as u8) == (es.len() + 1) as i8);
                assert(full.skip(1) =~= body + t);
                lemma_round_trip_run(es, *e, t);
            }
        },
        SpecValue::Tuple(es) => {
            if let SpecSchema::Tuple(fs) = s {
                lemma_round_trip_record(es, fs, t);
            }
        },
        SpecValue::Struct(es) => {
            if let SpecSchema::Struct(fs) = s {
                lemma_round_trip_record(es, fs, t);
            }
        },
    }
}

/// The round-trip law for a compact array's body: a run of values of one
/// shape decodes back element by element.
pub proof fn lemma_round_trip_run(vs: Seq<SpecValue>, e: SpecSchema, t: Seq<u8>)
    requires
        conforms_all(vs, e),
        spec_encode_seq(vs) is Ok,
    ensures
        spec_decode_elems(e, vs.len(), spec_encode_seq(vs)->Ok_0 + t) == Ok::<
            (Seq<SpecValue>, int),
            Error,
        >((vs, spec_encode_seq(vs)->Ok_0.len() as int)),
    decreases vs, 1int,
{
    let body = spec_encode_seq(vs)->Ok_0;
    if vs.len() == 0 {
        assert(body + t =~= t);
        assert(vs =~= Seq::<SpecValue>::empty());
    } else {
        let h = spec_encode(vs[0])->Ok_0;
        let rest = spec_encode_seq(vs.drop_first())->Ok_0;
        assert(body + t =~= h + (rest + t));
        lemma_round_trip(vs[0], e, rest + t);
        assert((body + t).skip(h.len() as int) =~= rest + t);
        lemma_round_trip_run(vs.drop_first(), e, t);
        assert(seq![vs[0]] + vs.drop_first() =~= vs);
    }
}

/// The round-trip law for a struct or tuple body: fields encoded in
/// declaration order decode back in that same order.
pub proof fn lemma_round_trip_record(vs: Seq<SpecValue>, fs: Seq<SpecSchema>, t: Seq<u8>)
    requires
        conforms_zip(vs, fs),
        spec_encode_seq(vs) is Ok,
    ensures
        spec_decode_fields(fs, spec_encode_seq(vs)->Ok_0 + t) == Ok::<(Seq<SpecValue>, int), Error>(
            (vs, spec_encode_seq(vs)->Ok_0.len() as int),
        ),
    decreases vs, 1int,
{
    let body = spec_encode_seq(vs)->Ok_0;
    if vs.len() == 0 {
        assert(body + t =~= t);
        assert(vs =~= Seq::<SpecValue>::empty());
    } else {
        let h = spec_encode(vs[0])->Ok_0;
        let rest = spec_encode_seq(vs.drop_first())->Ok_0;
        assert(body + t =~= h + (rest + t));
        lemma_round_trip(vs[0], fs[0], rest + t);
        assert((body + t).skip(h.len() as int) =~= rest + t);
        lemma_round_trip_record(vs.drop_first(), fs.drop_first(), t);
        assert(seq![vs[0]] + vs.drop_first() =~= vs);
    }
}


} // verus!
