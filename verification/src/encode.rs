//! The binary wire format: a tag-prefixed, length-prefixed, little-endian
//! encoding of a value tree, specified byte for byte.

use vstd::prelude::*;
use vstd::bytes::{spec_u32_to_le_bytes, spec_u64_to_le_bytes};

use crate::value::Value;
use crate::value::wf;

verus! {

pub const TAG_NULL: u8 = 0;

pub const TAG_BOOL: u8 = 1;

pub const TAG_INT: u8 = 2;

pub const TAG_FLOAT: u8 = 3;

pub const TAG_STRING: u8 = 4;

pub const TAG_ARRAY: u8 = 5;

pub const TAG_RECORD: u8 = 6;

pub const TAG_ENUM: u8 = 7;

/// The byte stream that encodes one value: a one-byte tag, then the payload.
/// Counts and byte lengths are 4-byte little-endian; integers and float bits
/// are 8-byte little-endian.
pub open spec fn wire(v: Value) -> Seq<u8>
    decreases v,
{
    match v {
        Value::Null => seq![TAG_NULL],
        Value::Bool(b) => seq![TAG_BOOL, if b { 1u8 } else { 0u8 }],
        Value::Int(n) => seq![TAG_INT] + spec_u64_to_le_bytes(n as u64),
        Value::Float(bits) => seq![TAG_FLOAT] + spec_u64_to_le_bytes(bits),
        Value::Str(s) => seq![TAG_STRING] + spec_u32_to_le_bytes(s@.len() as u32) + s@,
        Value::Array(items) => seq![TAG_ARRAY] + spec_u32_to_le_bytes(items@.len() as u32)
            + wire_elems(items@),
        Value::Record(fields) => seq![TAG_RECORD] + spec_u32_to_le_bytes(fields@.len() as u32)
            + wire_fields(fields@),
        Value::EnumTag(tag) => seq![TAG_ENUM] + spec_u32_to_le_bytes(tag@.len() as u32) + tag@
            + seq![0u8],
        Value::EnumVariant(tag, arg) => seq![TAG_ENUM] + spec_u32_to_le_bytes(tag@.len() as u32)
            + tag@ + seq![1u8] + wire(*arg),
    }
}

/// The encodings of a sequence of array elements, in order.
pub open spec fn wire_elems(items: Seq<Value>) -> Seq<u8>
    decreases items,
{
    if items.len() == 0 {
        Seq::empty()
    } else {
        wire(items.first()) + wire_elems(items.drop_first())
    }
}

/// The encoding of one record field: a length-prefixed key, then the bound
/// value, or the null tag for a field with no bound value.
pub open spec fn wire_field(field: (Vec<u8>, Option<Value>)) -> Seq<u8>
    decreases field,
{
    spec_u32_to_le_bytes(field.0@.len() as u32) + field.0@ + match field.1 {
        Some(v) => wire(v),
        None => seq![TAG_NULL],
    }
}

/// The encodings of a sequence of record fields, in order.
pub open spec fn wire_fields(fields: Seq<(Vec<u8>, Option<Value>)>) -> Seq<u8>
    decreases fields,
{
    if fields.len() == 0 {
        Seq::empty()
    } else {
        wire_field(fields.first()) + wire_fields(fields.drop_first())
    }
}

pub proof fn lemma_wire_elems_push(items: Seq<Value>, v: Value)
    ensures
        wire_elems(items.push(v)) == wire_elems(items) + wire(v),
    decreases items,
{
    if items.len() == 0 {
        assert(items.push(v).drop_first() =~= Seq::<Value>::empty());
        assert(items.push(v).first() == v);
        assert(wire_elems(items.push(v)) == wire(v) + wire_elems(Seq::<Value>::empty()));
        assert(wire(v) + Seq::<u8>::empty() =~= wire(v));
        assert(wire_elems(items) + wire(v) =~= wire(v));
    } else {
        assert(items.push(v).drop_first() =~= items.drop_first().push(v));
        lemma_wire_elems_push(items.drop_first(), v);
        assert(wire_elems(items.push(v)) =~= wire_elems(items) + wire(v));
    }
}

pub proof fn lemma_wire_fields_push(fields: Seq<(Vec<u8>, Option<Value>)>, f: (Vec<u8>, Option<Value>))
    ensures
        wire_fields(fields.push(f)) == wire_fields(fields) + wire_field(f),
    decreases fields,
{
    if fields.len() == 0 {
        assert(fields.push(f).drop_first() =~= Seq::<(Vec<u8>, Option<Value>)>::empty());
        assert(fields.push(f).first() == f);
        assert(wire_fields(fields.push(f)) == wire_field(f) + wire_fields(
            Seq::<(Vec<u8>, Option<Value>)>::empty(),
        ));
        assert(wire_field(f) + Seq::<u8>::empty() =~= wire_field(f));
        assert(wire_fields(fields) + wire_field(f) =~= wire_field(f));
    } else {
        assert(fields.push(f).drop_first() =~= fields.drop_first().push(f));
        lemma_wire_fields_push(fields.drop_first(), f);
        assert(wire_fields(fields.push(f)) =~= wire_fields(fields) + wire_field(f));
    }
}

/// Append the encoding of `v` to `out`, leaving what was already there.
pub fn encode_into(v: &Value, out: &mut Vec<u8>)
    requires
        wf(*v),
    ensures
        final(out)@ == old(out)@ + wire(*v),
    decreases *v,
{
    match v {
        Value::Null => {
            out.push(TAG_NULL);
            assert(out@ =~= old(out)@ + wire(*v));
        },
        Value::Bool(b) => {
            out.push(TAG_BOOL);
            out.push(if *b { 1u8 } else { 0u8 });
            assert(out@ =~= old(out)@ + wire(*v));
        },
        Value::Int(n) => {
            out.push(TAG_INT);
            let bytes = vstd::bytes::u64_to_le_bytes(#[verifier::truncate] (*n as u64));
            out.extend_from_slice(bytes.as_slice());
            assert(out@ =~= old(out)@ + wire(*v));
        },
        Value::Float(bits) => {
            out.push(TAG_FLOAT);
            let bytes = vstd::bytes::u64_to_le_bytes(*bits);
            out.extend_from_slice(bytes.as_slice());
            assert(out@ =~= old(out)@ + wire(*v));
        },
        Value::Str(s) => {
            out.push(TAG_STRING);
            let len_bytes = vstd::bytes::u32_to_le_bytes(s.len() as u32);
            out.extend_from_slice(len_bytes.as_slice());
            out.extend_from_slice(s.as_slice());
            assert(out@ =~= old(out)@ + wire(*v));
        },
        Value::Array(items) => {
            out.push(TAG_ARRAY);
            let len_bytes = vstd::bytes::u32_to_le_bytes(items.len() as u32);
            out.extend_from_slice(len_bytes.as_slice());
            let ghost header = old(out)@ + seq![TAG_ARRAY] + spec_u32_to_le_bytes(
                items@.len() as u32,
            );
            assert(out@ =~= header);
            let n = items.len();
            assert(wire_elems(items@.take(0)) =~= Seq::<u8>::empty());
            assert(out@ =~= header + wire_elems(items@.take(0)));
            for i in 0..n
                invariant
                    n == items@.len(),
                    *v == Value::Array(*items),
                    wf(Value::Array(*items)),
                    out@ == header + wire_elems(items@.take(i as int)),
                decreases n - i,
            {
                assert(wf(items@[i as int]));
                encode_into(&items[i], out);
                proof {
                    lemma_wire_elems_push(items@.take(i as int), items@[i as int]);
                    assert(items@.take(i as int).push(items@[i as int]) =~= items@.take(
                        i as int + 1,
                    ));
                }
            }
            assert(items@.take(n as int) =~= items@);
            assert(out@ =~= old(out)@ + wire(*v));
        },
        Value::Record(fields) => {
            out.push(TAG_RECORD);
            let len_bytes = vstd::bytes::u32_to_le_bytes(fields.len() as u32);
            out.extend_from_slice(len_bytes.as_slice());
            let ghost header = old(out)@ + seq![TAG_RECORD] + spec_u32_to_le_bytes(
                fields@.len() as u32,
            );
            assert(out@ =~= header);
            let n = fields.len();
            assert(wire_fields(fields@.take(0)) =~= Seq::<u8>::empty());
            for i in 0..n
                invariant
                    n == fields@.len(),
                    *v == Value::Record(*fields),
                    wf(Value::Record(*fields)),
                    out@ == header + wire_fields(fields@.take(i as int)),
                decreases n - i,
            {
                let key_len_bytes = vstd::bytes::u32_to_le_bytes(fields[i].0.len() as u32);
                out.extend_from_slice(key_len_bytes.as_slice());
                out.extend_from_slice(fields[i].0.as_slice());
                match &fields[i].1 {
                    Some(value) => {
                        assert(wf(fields@[i as int].1->0));
                        encode_into(value, out);
                    },
                    None => {
                        out.push(TAG_NULL);
                    },
                }
                proof {
                    lemma_wire_fields_push(fields@.take(i as int), fields@[i as int]);
                    assert(fields@.take(i as int).push(fields@[i as int]) =~= fields@.take(
                        i as int + 1,
                    ));
                    assert(out@ =~= header + wire_fields(fields@.take(i as int + 1)));
                }
            }
            assert(fields@.take(n as int) =~= fields@);
            assert(out@ =~= old(out)@ + wire(*v));
        },
        Value::EnumTag(tag) => {
            out.push(TAG_ENUM);
            let len_bytes = vstd::bytes::u32_to_le_bytes(tag.len() as u32);
            out.extend_from_slice(len_bytes.as_slice());
            out.extend_from_slice(tag.as_slice());
            out.push(0u8);
            assert(out@ =~= old(out)@ + wire(*v));
        },
        Value::EnumVariant(tag, arg) => {
            out.push(TAG_ENUM);
            let len_bytes = vstd::bytes::u32_to_le_bytes(tag.len() as u32);
            out.extend_from_slice(len_bytes.as_slice());
            out.extend_from_slice(tag.as_slice());
            out.push(1u8);
            encode_into(arg, out);
            assert(out@ =~= old(out)@ + wire(*v));
        },
    }
}

/// Serialize a value tree into its complete wire-format byte stream.
pub fn encode_value(v: &Value) -> (r: Vec<u8>)
    requires
        wf(*v),
    ensures
        r@ == wire(*v),
{
    let mut out: Vec<u8> = Vec::new();
    encode_into(v, &mut out);
    out
}

} // verus!
