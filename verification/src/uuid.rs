//! The 128-bit identifier used for topics and directories, carried on the
//! wire as exactly sixteen raw bytes through the fixed-tuple convention,
//! with no length prefix.

use vstd::prelude::*;

use crate::error::Error;
use crate::value::{
    conforms, lemma_values_view, schemas_view, spec_encode, spec_encode_seq, values_view, Schema,
    SpecSchema, SpecValue, Value,
};

verus! {

broadcast use vstd::seq_lib::group_seq_properties, vstd::array::group_array_axioms;

/// A 128-bit identifier: sixteen opaque bytes.
#[derive(Debug, Clone, Copy, PartialEq, Eq)]
pub struct Uuid {
    pub bytes: [u8; 16],
}

impl View for Uuid {
    type V = Seq<u8>;

    open spec fn view(&self) -> Seq<u8> {
        self.bytes@
    }
}

impl Uuid {
    pub fn from_bytes(bytes: [u8; 16]) -> (r: Uuid)
        ensures
            r@ == bytes@,
    {
        Uuid { bytes }
    }

    /// The all-zero identifier.
    pub fn nil() -> (r: Uuid)
        ensures
            r@.len() == 16,
            forall|i: int| 0 <= i < 16 ==> r@[i] == 0u8,
    {
        Uuid { bytes: [0u8; 16] }
    }

    /// Wire shape: a fixed tuple of sixteen single bytes.
    pub open spec fn spec_schema() -> SpecSchema {
        SpecSchema::Tuple(Seq::new(16, |i: int| SpecSchema::U8))
    }

    pub fn schema() -> (s: Schema)
        ensures
            s@ == Self::spec_schema(),
    {
        let mut fields: Vec<Schema> = Vec::new();
        let mut i: usize = 0;
        while i < 16
            invariant
                i <= 16,
                fields@.len() == i,
                forall|j: int| 0 <= j < i ==> fields@[j] == Schema::U8,
            decreases 16 - i,
        {
            fields.push(Schema::U8);
            i = i + 1;
        }
        let ghost fv = fields@;
        let s = Schema::Tuple(fields);
        proof {
            crate::value::lemma_schemas_view(fv);
            assert(schemas_view(fv) =~= Seq::new(16, |i: int| SpecSchema::U8));
        }
        s
    }

    /// The shadow of this identifier as a structured value: sixteen
    /// unsigned bytes in order.
    pub open spec fn as_value(self) -> SpecValue {
        SpecValue::Tuple(Seq::new(16, |i: int| SpecValue::U8(self@[i])))
    }

    pub fn to_value(&self) -> (r: Value)
        ensures
            r@ == self.as_value(),
    {
        let mut fields: Vec<Value> = Vec::new();
        let mut i: usize = 0;
        while i < 16
            invariant
                i <= 16,
                fields@.len() == i,
                forall|j: int| 0 <= j < i ==> fields@[j] == Value::U8(self@[j]),
            decreases 16 - i,
        {
            fields.push(Value::U8(self.bytes[i]));
            i = i + 1;
        }
        let ghost fv = fields@;
        let v = Value::Tuple(fields);
        proof {
            lemma_values_view(fv);
            assert(values_view(fv) =~= Seq::new(16, |i: int| SpecValue::U8(self@[i])));
        }
        v
    }

    /// Rebuild the identifier from its structured value.
    pub fn from_value(v: &Value) -> (r: Uuid)
        requires
            conforms(v@, Self::spec_schema()),
        ensures
            r.as_value() == v@,
    {
        match v {
            Value::Tuple(fields) => {
                proof {
                    lemma_values_view(fields@);
                    crate::value::lemma_conforms_zip_index(
                        values_view(fields@),
                        Self::spec_schema()->Tuple_0,
                    );
                }
                let mut bytes: [u8; 16] = [0u8; 16];
                let mut i: usize = 0;
                while i < 16
                    invariant
                        i <= 16,
                        fields@.len() == 16,
                        values_view(fields@).len() == 16,
                        forall|j: int|
                            0 <= j < 16 ==> #[trigger] values_view(fields@)[j] == fields@[j]@,
                        forall|j: int|
                            0 <= j < 16 ==> conforms(
                                #[trigger] values_view(fields@)[j],
                                Self::spec_schema()->Tuple_0[j],
                            ),
                        bytes@.len() == 16,
                        forall|j: int| 0 <= j < i ==> bytes@[j] == fields@[j]@->U8_0,
                    decreases 16 - i,
                {
                    proof {
                        assert(Self::spec_schema()->Tuple_0[i as int] == SpecSchema::U8);
                        assert(conforms(values_view(fields@)[i as int], SpecSchema::U8));
                    }
                    let b = match &fields[i] {
                        Value::U8(x) => *x,
                        _ => vstd::pervasive::unreached(),
                    };
                    bytes[i] = b;
                    i = i + 1;
                }
                let r = Uuid { bytes };
                proof {
                    assert(r.as_value()->Tuple_0 =~= values_view(fields@));
                }
                r
            },
            _ => vstd::pervasive::unreached(),
        }
    }
}

/// The fixed-byte-tuple identity: an identifier's encoding is its sixteen
/// bytes themselves, in order, with no length prefix, and decoding that
/// encoding yields the identifier back.
pub proof fn lemma_byte_tuple_identity(u: Uuid)
    requires
        u@.len() == 16,
    ensures
        spec_encode(u.as_value()) == Ok::<Seq<u8>, Error>(u@),
        crate::codec::spec_decode_message(Uuid::spec_schema(), u@) == Ok::<SpecValue, Error>(
            u.as_value(),
        ),
{
    lemma_bytes_encode_as_units(u@);
    assert(conforms_units(u@)) by {
        lemma_units_conform(u@);
    }
    crate::codec::lemma_message_round_trip(u.as_value(), Uuid::spec_schema());
}

/// A run of single-byte values encodes to exactly those bytes.
proof fn lemma_bytes_encode_as_units(bs: Seq<u8>)
    ensures
        spec_encode_seq(Seq::new(bs.len(), |i: int| SpecValue::U8(bs[i]))) == Ok::<Seq<u8>, Error>(
            bs,
        ),
    decreases bs.len(),
{
    let units = Seq::new(bs.len(), |i: int| SpecValue::U8(bs[i]));
    if bs.len() == 0 {
        assert(bs =~= Seq::<u8>::empty());
    } else {
        lemma_bytes_encode_as_units(bs.drop_first());
        assert(units[0] == SpecValue::U8(bs[0]));
        assert(spec_encode(SpecValue::U8(bs[0])) == Ok::<Seq<u8>, Error>(seq![bs[0]]));
        assert(units.drop_first() =~= Seq::new(
            bs.drop_first().len(),
            |i: int| SpecValue::U8(bs.drop_first()[i]),
        ));
        assert(seq![bs[0]] + bs.drop_first() =~= bs);
    }
}

spec fn conforms_units(bs: Seq<u8>) -> bool {
    crate::value::conforms_zip(
        Seq::new(bs.len(), |i: int| SpecValue::U8(bs[i])),
        Seq::new(bs.len(), |i: int| SpecSchema::U8),
    )
}

proof fn lemma_units_conform(bs: Seq<u8>)
    ensures
        conforms_units(bs),
    decreases bs.len(),
{
    let vs = Seq::new(bs.len(), |i: int| SpecValue::U8(bs[i]));
    let ss = Seq::new(bs.len(), |i: int| SpecSchema::U8);
    if bs.len() > 0 {
        lemma_units_conform(bs.drop_first());
        assert(vs[0] == SpecValue::U8(bs[0]));
        assert(ss[0] == SpecSchema::U8);
        assert(conforms(SpecValue::U8(bs[0]), SpecSchema::U8));
        assert(vs.drop_first() =~= Seq::new(
            bs.drop_first().len(),
            |i: int| SpecValue::U8(bs.drop_first()[i]),
        ));
        assert(ss.drop_first() =~= Seq::new(bs.drop_first().len(), |i: int| SpecSchema::U8));
    }
}

} // verus!
