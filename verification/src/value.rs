//! The fully-evaluated value tree consumed by the exporters.

use vstd::prelude::*;

verus! {

/// A fully-evaluated value tree.
///
/// Numbers are already narrowed: an integral result in the signed 64-bit
/// range is an `Int`, anything else is a `Float` carrying the raw IEEE-754
/// bits of the nearest double. Strings and field names are UTF-8 byte
/// sequences. A record field may have no bound value.
#[derive(Debug)]
pub enum Value {
    Null,
    Bool(bool),
    Int(i64),
    Float(u64),
    Str(Vec<u8>),
    Array(Vec<Value>),
    Record(Vec<(Vec<u8>, Option<Value>)>),
    EnumTag(Vec<u8>),
    EnumVariant(Vec<u8>, Box<Value>),
}

/// Every length that the wire format stores as a 4-byte count fits in one.
pub open spec fn wf(v: Value) -> bool
    decreases v,
{
    match v {
        Value::Null => true,
        Value::Bool(_) => true,
        Value::Int(_) => true,
        Value::Float(_) => true,
        Value::Str(s) => s@.len() <= u32::MAX,
        Value::Array(items) => {
            &&& items@.len() <= u32::MAX
            &&& forall|i: int| 0 <= i < items@.len() ==> wf(#[trigger] items@[i])
        },
        Value::Record(fields) => {
            &&& fields@.len() <= u32::MAX
            &&& forall|i: int|
                0 <= i < fields@.len() ==> (#[trigger] fields@[i]).0@.len() <= u32::MAX
            &&& forall|i: int|
                0 <= i < fields@.len() ==> match (#[trigger] fields@[i]).1 {
                    Some(v) => wf(v),
                    None => true,
                }
        },
        Value::EnumTag(tag) => tag@.len() <= u32::MAX,
        Value::EnumVariant(tag, arg) => tag@.len() <= u32::MAX && wf(*arg),
    }
}

/// Decide `wf` at run time, for trees built by an untrusted caller.
pub fn check_wf(v: &Value) -> (b: bool)
    ensures
        b == wf(*v),
    decreases *v,
{
    match v {
        Value::Null => true,
        Value::Bool(_) => true,
        Value::Int(_) => true,
        Value::Float(_) => true,
        Value::Str(s) => s.len() <= u32::MAX as usize,
        Value::Array(items) => {
            if items.len() > u32::MAX as usize {
                assert(!wf(*v));
                return false;
            }
            let n = items.len();
            for i in 0..n
                invariant
                    n == items@.len(),
                    *v == Value::Array(*items),
                    items@.len() <= u32::MAX,
                    forall|j: int| 0 <= j < i ==> wf(#[trigger] items@[j]),
                decreases n - i,
            {
                proof {
                    assert(decreases_to!(*v => v->Array_0@[i as int]));
                    assert(v->Array_0@[i as int] == items@[i as int]);
                }
                if !check_wf(&items[i]) {
                    assert(!wf(items@[i as int]));
                    assert(!wf(*v));
                    return false;
                }
            }
            true
        },
        Value::Record(fields) => {
            if fields.len() > u32::MAX as usize {
                assert(!wf(*v));
                return false;
            }
            let n = fields.len();
            for i in 0..n
                invariant
                    n == fields@.len(),
                    *v == Value::Record(*fields),
                    fields@.len() <= u32::MAX,
                    forall|j: int| 0 <= j < i ==> (#[trigger] fields@[j]).0@.len() <= u32::MAX,
                    forall|j: int|
                        0 <= j < i ==> match (#[trigger] fields@[j]).1 {
                            Some(value) => wf(value),
                            None => true,
                        },
                decreases n - i,
            {
                if fields[i].0.len() > u32::MAX as usize {
                    assert(!wf(*v));
                    return false;
                }
                match &fields[i].1 {
                    Some(value) => {
                        proof {
                            assert(fields@[i as int].1 is Some);
                            assert(decreases_to!(*v => v->Record_0@[i as int]));
                            assert(decreases_to!(v->Record_0@[i as int] => v->Record_0@[i as int].1));
                            assert(decreases_to!(
                                v->Record_0@[i as int].1 => v->Record_0@[i as int].1->0
                            ));
                            assert(v->Record_0@[i as int] == fields@[i as int]);
                            assert(*value == fields@[i as int].1->0);
                        }
                        if !check_wf(value) {
                            assert(!wf(*v));
                            return false;
                        }
                    },
                    None => {},
                }
            }
            true
        },
        Value::EnumTag(tag) => tag.len() <= u32::MAX as usize,
        Value::EnumVariant(tag, arg) => {
            if tag.len() > u32::MAX as usize {
                assert(!wf(*v));
                return false;
            }
            check_wf(arg)
        },
    }
}

} // verus!
