//! The mathematical reading of the wire format: an abstract value tree, a
//! byte-level decoder, and the proof that decoding inverts encoding — so the
//! encoding is self-describing and loses nothing but the distinction between
//! a field bound to null and a field with no bound value.

use vstd::prelude::*;
use vstd::bytes::{
    lemma_auto_spec_u32_to_from_le_bytes, lemma_auto_spec_u64_to_from_le_bytes,
    spec_u32_from_le_bytes, spec_u32_to_le_bytes, spec_u64_from_le_bytes, spec_u64_to_le_bytes,
};

use crate::encode::{
    TAG_ARRAY, TAG_BOOL, TAG_ENUM, TAG_FLOAT, TAG_INT, TAG_NULL, TAG_RECORD, TAG_STRING, wire,
    wire_elems, wire_field, wire_fields,
};
use crate::value::{Value, wf};

verus! {

/// The abstract value tree that a wire-format byte stream denotes. It is the
/// view of `Value`: strings are byte sequences, and a record field with no
/// bound value reads as `Null`, exactly as the encoding writes it.
pub enum ValueModel {
    Null,
    Bool(bool),
    Int(i64),
    Float(u64),
    Str(Seq<u8>),
    Array(Seq<ValueModel>),
    Record(Seq<(Seq<u8>, ValueModel)>),
    EnumTag(Seq<u8>),
    EnumVariant(Seq<u8>, Box<ValueModel>),
}

/// The abstract reading of one record field.
pub open spec fn field_model(field: (Vec<u8>, Option<Value>)) -> (Seq<u8>, ValueModel)
    decreases field,
{
    (
        field.0@,
        match field.1 {
            Some(v) => model(v),
            None => ValueModel::Null,
        },
    )
}

/// The abstract value tree that a concrete one denotes.
pub open spec fn model(v: Value) -> ValueModel
    decreases v,
{
    match v {
        Value::Null => ValueModel::Null,
        Value::Bool(b) => ValueModel::Bool(b),
        Value::Int(n) => ValueModel::Int(n),
        Value::Float(bits) => ValueModel::Float(bits),
        Value::Str(s) => ValueModel::Str(s@),
        Value::Array(items) => ValueModel::Array(models(items@)),
        Value::Record(fields) => ValueModel::Record(field_models(fields@)),
        Value::EnumTag(tag) => ValueModel::EnumTag(tag@),
        Value::EnumVariant(tag, arg) => ValueModel::EnumVariant(tag@, Box::new(model(*arg))),
    }
}

/// The abstract reading of a sequence of array elements, in order.
pub open spec fn models(items: Seq<Value>) -> Seq<ValueModel>
    decreases items,
{
    if items.len() == 0 {
        Seq::empty()
    } else {
        seq![model(items.first())] + models(items.drop_first())
    }
}

/// The abstract reading of a sequence of record fields, in order.
pub open spec fn field_models(fields: Seq<(Vec<u8>, Option<Value>)>) -> Seq<
    (Seq<u8>, ValueModel),
>
    decreases fields,
{
    if fields.len() == 0 {
        Seq::empty()
    } else {
        seq![field_model(fields.first())] + field_models(fields.drop_first())
    }
}

impl View for Value {
    type V = ValueModel;

    open spec fn view(&self) -> ValueModel {
        model(*self)
    }
}

/// Decode the value encoded at the front of `bytes`: the value's abstract
/// tree and how many bytes it occupied, or `None` if no value starts there.
pub open spec fn decode_at(bytes: Seq<u8>) -> Option<(ValueModel, int)>
    decreases bytes.len(), 0int, 0int,
{
    if bytes.len() < 1 {
        None
    } else {
        let tag = bytes[0];
        if tag == TAG_NULL {
            Some((ValueModel::Null, 1int))
        } else if tag == TAG_BOOL {
            if bytes.len() < 2 {
                None
            } else if bytes[1] == 1u8 {
                Some((ValueModel::Bool(true), 2int))
            } else if bytes[1] == 0u8 {
                Some((ValueModel::Bool(false), 2int))
            } else {
                None
            }
        } else if tag == TAG_INT {
            if bytes.len() < 9 {
                None
            } else {
                Some((ValueModel::Int(spec_u64_from_le_bytes(bytes.subrange(1, 9)) as i64), 9int))
            }
        } else if tag == TAG_FLOAT {
            if bytes.len() < 9 {
                None
            } else {
                Some((ValueModel::Float(spec_u64_from_le_bytes(bytes.subrange(1, 9))), 9int))
            }
        } else if tag == TAG_STRING {
            if bytes.len() < 5 {
                None
            } else {
                let len = spec_u32_from_le_bytes(bytes.subrange(1, 5)) as int;
                if bytes.len() < 5 + len {
                    None
                } else {
                    Some((ValueModel::Str(bytes.subrange(5, 5 + len)), 5 + len))
                }
            }
        } else if tag == TAG_ARRAY {
            if bytes.len() < 5 {
                None
            } else {
                let count = spec_u32_from_le_bytes(bytes.subrange(1, 5)) as int;
                match decode_elems(bytes.skip(5), count) {
                    Some((items, used)) => Some((ValueModel::Array(items), 5 + used)),
                    None => None,
                }
            }
        } else if tag == TAG_RECORD {
            if bytes.len() < 5 {
                None
            } else {
                let count = spec_u32_from_le_bytes(bytes.subrange(1, 5)) as int;
                match decode_fields(bytes.skip(5), count) {
                    Some((fields, used)) => Some((ValueModel::Record(fields), 5 + used)),
                    None => None,
                }
            }
        } else if tag == TAG_ENUM {
            if bytes.len() < 5 {
                None
            } else {
                let len = spec_u32_from_le_bytes(bytes.subrange(1, 5)) as int;
                if bytes.len() < 5 + len + 1 {
                    None
                } else {
                    let name = bytes.subrange(5, 5 + len);
                    let flag = bytes[5 + len];
                    if flag == 0u8 {
                        Some((ValueModel::EnumTag(name), 5 + len + 1))
                    } else if flag == 1u8 {
                        match decode_at(bytes.skip(6 + len)) {
                            Some((arg, used)) => Some(
                                (ValueModel::EnumVariant(name, Box::new(arg)), 6 + len + used),
                            ),
                            None => None,
                        }
                    } else {
                        None
                    }
                }
            }
        } else {
            None
        }
    }
}

/// Decode `count` consecutive values from the front of `bytes`.
pub open spec fn decode_elems(bytes: Seq<u8>, count: int) -> Option<(Seq<ValueModel>, int)>
    decreases bytes.len(), 1int, count,
{
    if count <= 0 {
        Some((Seq::empty(), 0int))
    } else {
        match decode_at(bytes) {
            Some((v, used)) => {
                if used < 1 || used > bytes.len() {
                    None
                } else {
                    match decode_elems(bytes.skip(used), count - 1) {
                        Some((rest, used2)) => Some((seq![v] + rest, used + used2)),
                        None => None,
                    }
                }
            },
            None => None,
        }
    }
}

/// Decode `count` consecutive key/value pairs from the front of `bytes`.
pub open spec fn decode_fields(bytes: Seq<u8>, count: int) -> Option<
    (Seq<(Seq<u8>, ValueModel)>, int),
>
    decreases bytes.len(), 1int, count,
{
    if count <= 0 {
        Some((Seq::empty(), 0int))
    } else if bytes.len() < 4 {
        None
    } else {
        let klen = spec_u32_from_le_bytes(bytes.subrange(0, 4)) as int;
        if bytes.len() < 4 + klen {
            None
        } else {
            let key = bytes.subrange(4, 4 + klen);
            match decode_at(bytes.skip(4 + klen)) {
                Some((v, used)) => {
                    if used < 1 || 4 + klen + used > bytes.len() {
                        None
                    } else {
                        match decode_fields(bytes.skip(4 + klen + used), count - 1) {
                            Some((rest, used2)) => Some(
                                (seq![(key, v)] + rest, 4 + klen + used + used2),
                            ),
                            None => None,
                        }
                    }
                },
                None => None,
            }
        }
    }
}

/// Every encoding starts with its tag byte, so it is never empty.
pub proof fn lemma_wire_len(v: Value)
    ensures
        wire(v).len() >= 1,
{
    match v {
        Value::Null => {},
        Value::Bool(_) => {},
        Value::Int(_) => {},
        Value::Float(_) => {},
        Value::Str(_) => {},
        Value::Array(_) => {},
        Value::Record(_) => {},
        Value::EnumTag(_) => {},
        Value::EnumVariant(_, _) => {},
    }
}

/// Law: decoding inverts encoding. The byte stream of a well-formed value,
/// followed by anything at all, decodes to exactly that value's abstract
/// tree, consuming exactly the value's own bytes. In particular the stream is
/// self-describing: no other abstract tree shares it.
pub proof fn lemma_wire_round_trip(v: Value, rest: Seq<u8>)
    requires
        wf(v),
    ensures
        decode_at(wire(v) + rest) == Some((v@, wire(v).len() as int)),
    decreases v,
{
    lemma_auto_spec_u32_to_from_le_bytes();
    lemma_auto_spec_u64_to_from_le_bytes();
    let bytes = wire(v) + rest;
    match v {
        Value::Null => {
            assert(bytes[0] == TAG_NULL);
        },
        Value::Bool(b) => {
            assert(bytes[0] == TAG_BOOL);
            assert(bytes[1] == (if b { 1u8 } else { 0u8 }));
        },
        Value::Int(n) => {
            assert(bytes[0] == TAG_INT);
            assert(bytes.subrange(1, 9) =~= spec_u64_to_le_bytes(n as u64));
            assert(spec_u64_from_le_bytes(spec_u64_to_le_bytes(n as u64)) == n as u64);
            assert(((n as u64) as i64) == n) by (bit_vector);
        },
        Value::Float(bits) => {
            assert(bytes[0] == TAG_FLOAT);
            assert(bytes.subrange(1, 9) =~= spec_u64_to_le_bytes(bits));
        },
        Value::Str(s) => {
            assert(bytes[0] == TAG_STRING);
            assert(bytes.subrange(1, 5) =~= spec_u32_to_le_bytes(s@.len() as u32));
            let len = spec_u32_from_le_bytes(bytes.subrange(1, 5)) as int;
            assert(len == s@.len());
            assert(bytes.subrange(5, 5 + len) =~= s@);
        },
        Value::Array(items) => {
            assert(bytes[0] == TAG_ARRAY);
            assert(bytes.subrange(1, 5) =~= spec_u32_to_le_bytes(items@.len() as u32));
            let count = spec_u32_from_le_bytes(bytes.subrange(1, 5)) as int;
            assert(count == items@.len());
            assert(bytes.skip(5) =~= wire_elems(items@) + rest);
            lemma_elems_round_trip(items@, rest);
        },
        Value::Record(fields) => {
            assert(bytes[0] == TAG_RECORD);
            assert(bytes.subrange(1, 5) =~= spec_u32_to_le_bytes(fields@.len() as u32));
            let count = spec_u32_from_le_bytes(bytes.subrange(1, 5)) as int;
            assert(count == fields@.len());
            assert(bytes.skip(5) =~= wire_fields(fields@) + rest);
            lemma_fields_round_trip(fields@, rest);
        },
        Value::EnumTag(tag) => {
            assert(bytes[0] == TAG_ENUM);
            assert(bytes.subrange(1, 5) =~= spec_u32_to_le_bytes(tag@.len() as u32));
            let len = spec_u32_from_le_bytes(bytes.subrange(1, 5)) as int;
            assert(len == tag@.len());
            assert(bytes.subrange(5, 5 + len) =~= tag@);
            assert(bytes[5 + len] == 0u8);
        },
        Value::EnumVariant(tag, arg) => {
            assert(bytes[0] == TAG_ENUM);
            assert(bytes.subrange(1, 5) =~= spec_u32_to_le_bytes(tag@.len() as u32));
            let len = spec_u32_from_le_bytes(bytes.subrange(1, 5)) as int;
            assert(len == tag@.len());
            assert(bytes.subrange(5, 5 + len) =~= tag@);
            assert(bytes[5 + len] == 1u8);
            assert(bytes.skip(6 + len) =~= wire(*arg) + rest);
            lemma_wire_round_trip(*arg, rest);
            lemma_wire_len(*arg);
        },
    }
}

/// Decoding a run of `items.len()` values from the encodings of `items`
/// recovers each element's abstract tree, in the original order.
pub proof fn lemma_elems_round_trip(items: Seq<Value>, rest: Seq<u8>)
    requires
        forall|i: int| 0 <= i < items.len() ==> wf(#[trigger] items[i]),
    ensures
        decode_elems(wire_elems(items) + rest, items.len() as int) == Some(
            (models(items), wire_elems(items).len() as int),
        ),
    decreases items,
{
    if items.len() == 0 {
    } else {
        let first = items.first();
        let tail = items.drop_first();
        let bytes = wire_elems(items) + rest;
        assert(wf(first));
        assert(bytes =~= wire(first) + (wire_elems(tail) + rest));
        lemma_wire_round_trip(first, wire_elems(tail) + rest);
        lemma_wire_len(first);
        let used = wire(first).len() as int;
        assert(decode_at(bytes) == Some((model(first), used)));
        assert(bytes.skip(used) =~= wire_elems(tail) + rest);
        assert(forall|i: int| 0 <= i < tail.len() ==> wf(#[trigger] tail[i]));
        lemma_elems_round_trip(tail, rest);
        assert(models(items) == seq![model(first)] + models(tail));
        assert(wire_elems(items).len() == used + wire_elems(tail).len());
    }
}

/// Decoding a run of `fields.len()` key/value pairs from the encodings of
/// `fields` recovers each field's key and value, in the original order, with
/// an unbound field reading as null.
pub proof fn lemma_fields_round_trip(fields: Seq<(Vec<u8>, Option<Value>)>, rest: Seq<u8>)
    requires
        forall|i: int| 0 <= i < fields.len() ==> (#[trigger] fields[i]).0@.len() <= u32::MAX,
        forall|i: int|
            0 <= i < fields.len() ==> match (#[trigger] fields[i]).1 {
                Some(v) => wf(v),
                None => true,
            },
    ensures
        decode_fields(wire_fields(fields) + rest, fields.len() as int) == Some(
            (field_models(fields), wire_fields(fields).len() as int),
        ),
    decreases fields,
{
    lemma_auto_spec_u32_to_from_le_bytes();
    if fields.len() == 0 {
    } else {
        let first = fields.first();
        let tail = fields.drop_first();
        let bytes = wire_fields(fields) + rest;
        assert(bytes =~= wire_field(first) + (wire_fields(tail) + rest));
        let klen = first.0@.len() as int;
        assert(bytes.subrange(0, 4) =~= spec_u32_to_le_bytes(first.0@.len() as u32));
        assert(spec_u32_from_le_bytes(bytes.subrange(0, 4)) as int == klen);
        assert(bytes.subrange(4, 4 + klen) =~= first.0@);
        let value_bytes = match first.1 {
            Some(w) => wire(w),
            None => seq![TAG_NULL],
        };
        assert(bytes.skip(4 + klen) =~= value_bytes + (wire_fields(tail) + rest));
        let used = value_bytes.len() as int;
        match first.1 {
            Some(w) => {
                assert(wf(w));
                lemma_wire_round_trip(w, wire_fields(tail) + rest);
                lemma_wire_len(w);
                assert(decode_at(bytes.skip(4 + klen)) == Some((model(w), used)));
            },
            None => {
                assert((value_bytes + (wire_fields(tail) + rest))[0] == TAG_NULL);
                assert(decode_at(bytes.skip(4 + klen)) == Some((ValueModel::Null, 1int)));
            },
        }
        assert(bytes.skip(4 + klen + used) =~= wire_fields(tail) + rest);
        assert(forall|i: int| 0 <= i < tail.len() ==> (#[trigger] tail[i]).0@.len() <= u32::MAX);
        assert(forall|i: int|
            0 <= i < tail.len() ==> match (#[trigger] tail[i]).1 {
                Some(v) => wf(v),
                None => true,
            });
        lemma_fields_round_trip(tail, rest);
        assert(field_models(fields) == seq![field_model(first)] + field_models(tail));
        assert(wire_fields(fields).len() == wire_field(first).len() + wire_fields(tail).len());
        assert(wire_field(first).len() == 4 + klen + used);
    }
}

/// The abstract reading of a sequence keeps its length and order.
pub proof fn lemma_models_index(items: Seq<Value>)
    ensures
        models(items).len() == items.len(),
        forall|i: int| 0 <= i < items.len() ==> models(items)[i] == model(#[trigger] items[i]),
    decreases items,
{
    if items.len() > 0 {
        lemma_models_index(items.drop_first());
        assert forall|i: int| 0 <= i < items.len() implies models(items)[i] == model(
            #[trigger] items[i],
        ) by {
            if i > 0 {
                assert(items.drop_first()[i - 1] == items[i]);
            }
        }
    }
}

/// The abstract reading of a field sequence keeps its length and order.
pub proof fn lemma_field_models_index(fields: Seq<(Vec<u8>, Option<Value>)>)
    ensures
        field_models(fields).len() == fields.len(),
        forall|i: int|
            0 <= i < fields.len() ==> field_models(fields)[i] == field_model(
                #[trigger] fields[i],
            ),
    decreases fields,
{
    if fields.len() > 0 {
        lemma_field_models_index(fields.drop_first());
        assert forall|i: int| 0 <= i < fields.len() implies field_models(fields)[i]
            == field_model(#[trigger] fields[i]) by {
            if i > 0 {
                assert(fields.drop_first()[i - 1] == fields[i]);
            }
        }
    }
}

/// Law: a 64-bit integer encodes as the Int tag followed by its 8-byte
/// little-endian two's-complement form, and decoding those bytes as a
/// little-endian signed 64-bit integer recovers it exactly.
pub proof fn lemma_int_round_trip(n: i64)
    ensures
        wire(Value::Int(n)) == seq![TAG_INT] + spec_u64_to_le_bytes(n as u64),
        spec_u64_to_le_bytes(n as u64).len() == 8,
        (spec_u64_from_le_bytes(spec_u64_to_le_bytes(n as u64)) as i64) == n,
        decode_at(wire(Value::Int(n))) == Some((ValueModel::Int(n), 9int)),
{
    lemma_auto_spec_u64_to_from_le_bytes();
    assert(((n as u64) as i64) == n) by (bit_vector);
    lemma_wire_round_trip(Value::Int(n), Seq::empty());
    assert(wire(Value::Int(n)) + Seq::<u8>::empty() =~= wire(Value::Int(n)));
}

/// Law: a string encodes as the String tag, a 4-byte length prefix equal to
/// its byte length, then its raw bytes; decoding recovers the exact original
/// byte sequence.
pub proof fn lemma_str_round_trip(s: Vec<u8>)
    requires
        s@.len() <= u32::MAX,
    ensures
        wire(Value::Str(s)) == seq![TAG_STRING] + spec_u32_to_le_bytes(s@.len() as u32) + s@,
        spec_u32_from_le_bytes(spec_u32_to_le_bytes(s@.len() as u32)) as int == s@.len() as int,
        decode_at(wire(Value::Str(s))) == Some(
            (ValueModel::Str(s@), wire(Value::Str(s)).len() as int),
        ),
{
    lemma_auto_spec_u32_to_from_le_bytes();
    lemma_wire_round_trip(Value::Str(s), Seq::empty());
    assert(wire(Value::Str(s)) + Seq::<u8>::empty() =~= wire(Value::Str(s)));
}

/// Law: an array's 4-byte count prefix equals its element count, and decoding
/// recovers the elements' abstract trees in their original order.
pub proof fn lemma_array_round_trip(items: Vec<Value>)
    requires
        wf(Value::Array(items)),
    ensures
        wire(Value::Array(items)).subrange(1, 5) == spec_u32_to_le_bytes(items@.len() as u32),
        spec_u32_from_le_bytes(spec_u32_to_le_bytes(items@.len() as u32)) as int == items@.len(),
        decode_at(wire(Value::Array(items))) == Some(
            (ValueModel::Array(models(items@)), wire(Value::Array(items)).len() as int),
        ),
        models(items@).len() == items@.len(),
        forall|i: int| 0 <= i < items@.len() ==> models(items@)[i] == model(#[trigger] items@[i]),
{
    lemma_auto_spec_u32_to_from_le_bytes();
    lemma_wire_round_trip(Value::Array(items), Seq::empty());
    assert(wire(Value::Array(items)) + Seq::<u8>::empty() =~= wire(Value::Array(items)));
    assert(wire(Value::Array(items)).subrange(1, 5) =~= spec_u32_to_le_bytes(
        items@.len() as u32,
    ));
    lemma_models_index(items@);
}

/// Law: a record's 4-byte count prefix equals its field count, and each
/// decoded key/value pair matches the original field in its original place,
/// an unbound field reading as null.
pub proof fn lemma_record_round_trip(fields: Vec<(Vec<u8>, Option<Value>)>)
    requires
        wf(Value::Record(fields)),
    ensures
        wire(Value::Record(fields)).subrange(1, 5) == spec_u32_to_le_bytes(fields@.len() as u32),
        spec_u32_from_le_bytes(spec_u32_to_le_bytes(fields@.len() as u32)) as int == fields@.len(),
        decode_at(wire(Value::Record(fields))) == Some(
            (ValueModel::Record(field_models(fields@)), wire(Value::Record(fields)).len() as int),
        ),
        field_models(fields@).len() == fields@.len(),
        forall|i: int|
            0 <= i < fields@.len() ==> field_models(fields@)[i] == field_model(
                #[trigger] fields@[i],
            ),
{
    lemma_auto_spec_u32_to_from_le_bytes();
    lemma_wire_round_trip(Value::Record(fields), Seq::empty());
    assert(wire(Value::Record(fields)) + Seq::<u8>::empty() =~= wire(Value::Record(fields)));
    assert(wire(Value::Record(fields)).subrange(1, 5) =~= spec_u32_to_le_bytes(
        fields@.len() as u32,
    ));
    lemma_field_models_index(fields@);
}

/// Law: a nullary enum tag ends in flag byte 0 and nothing further; an enum
/// variant with an argument has flag byte 1 followed immediately by the
/// recursive encoding of the argument. Decoding tells the two apart.
pub proof fn lemma_enum_round_trip(tag: Vec<u8>, arg: Value)
    requires
        tag@.len() <= u32::MAX,
        wf(arg),
    ensures
        wire(Value::EnumTag(tag)) == seq![TAG_ENUM] + spec_u32_to_le_bytes(tag@.len() as u32)
            + tag@ + seq![0u8],
        wire(Value::EnumVariant(tag, Box::new(arg))) == seq![TAG_ENUM] + spec_u32_to_le_bytes(
            tag@.len() as u32,
        ) + tag@ + seq![1u8] + wire(arg),
        decode_at(wire(Value::EnumTag(tag))) == Some(
            (ValueModel::EnumTag(tag@), wire(Value::EnumTag(tag)).len() as int),
        ),
        decode_at(wire(Value::EnumVariant(tag, Box::new(arg)))) == Some(
            (
                ValueModel::EnumVariant(tag@, Box::new(model(arg))),
                wire(Value::EnumVariant(tag, Box::new(arg))).len() as int,
            ),
        ),
{
    lemma_wire_round_trip(Value::EnumTag(tag), Seq::empty());
    assert(wire(Value::EnumTag(tag)) + Seq::<u8>::empty() =~= wire(Value::EnumTag(tag)));
    lemma_wire_round_trip(Value::EnumVariant(tag, Box::new(arg)), Seq::empty());
    assert(wire(Value::EnumVariant(tag, Box::new(arg))) + Seq::<u8>::empty() =~= wire(
        Value::EnumVariant(tag, Box::new(arg)),
    ));
}

} // verus!
