use nickel_jl::boundary::{release_binary, release_text};
use nickel_jl::encode::encode_value;
use nickel_jl::value::check_wf;
use nickel_jl::{Boundary, Value};

#[test]
fn test_free_null() {
    release_text(None);
    release_binary(None);
}

#[test]
fn test_release_present_results() {
    let mut b = Boundary::new();
    let text = b.eval_to_text(Some("1 + 2"));
    assert!(text.is_some());
    release_text(text);
    let buffer = b.export_binary(&Value::Null);
    assert!(buffer.is_some());
    release_binary(buffer);
}

#[test]
fn test_encode_null_byte() {
    assert_eq!(encode_value(&Value::Null), vec![0u8]);
}

#[test]
fn test_encode_bool_bytes() {
    assert_eq!(encode_value(&Value::Bool(true)), vec![1u8, 1]);
    assert_eq!(encode_value(&Value::Bool(false)), vec![1u8, 0]);
}

#[test]
fn test_encode_int_bytes() {
    let mut expected = vec![2u8];
    expected.extend_from_slice(&42i64.to_le_bytes());
    assert_eq!(encode_value(&Value::Int(42)), expected);

    let mut expected = vec![2u8];
    expected.extend_from_slice(&(-42i64).to_le_bytes());
    assert_eq!(encode_value(&Value::Int(-42)), expected);
}

#[test]
fn test_encode_float_bytes() {
    let bits = 3.14f64.to_bits();
    let mut expected = vec![3u8];
    expected.extend_from_slice(&bits.to_le_bytes());
    assert_eq!(encode_value(&Value::Float(bits)), expected);
}

#[test]
fn test_encode_string_bytes() {
    let mut expected = vec![4u8];
    expected.extend_from_slice(&5u32.to_le_bytes());
    expected.extend_from_slice(b"hello");
    assert_eq!(encode_value(&Value::Str(b"hello".to_vec())), expected);
}

#[test]
fn test_encode_array_bytes() {
    let v = Value::Array(vec![Value::Int(1), Value::Int(2), Value::Int(3)]);
    let mut expected = vec![5u8];
    expected.extend_from_slice(&3u32.to_le_bytes());
    for n in [1i64, 2, 3] {
        expected.push(2u8);
        expected.extend_from_slice(&n.to_le_bytes());
    }
    assert_eq!(encode_value(&v), expected);
}

#[test]
fn test_encode_empty_record_bytes() {
    let v = Value::Record(vec![]);
    let mut expected = vec![6u8];
    expected.extend_from_slice(&0u32.to_le_bytes());
    assert_eq!(encode_value(&v), expected);
}

#[test]
fn test_encode_record_unbound_field_is_null() {
    let v = Value::Record(vec![(b"x".to_vec(), None)]);
    let mut expected = vec![6u8];
    expected.extend_from_slice(&1u32.to_le_bytes());
    expected.extend_from_slice(&1u32.to_le_bytes());
    expected.extend_from_slice(b"x");
    expected.push(0u8);
    assert_eq!(encode_value(&v), expected);
}

#[test]
fn test_encode_enum_tag_bytes() {
    let v = Value::EnumTag(b"Foo".to_vec());
    let mut expected = vec![7u8];
    expected.extend_from_slice(&3u32.to_le_bytes());
    expected.extend_from_slice(b"Foo");
    expected.push(0u8);
    assert_eq!(encode_value(&v), expected);
}

#[test]
fn test_encode_enum_variant_bytes() {
    let v = Value::EnumVariant(b"Some".to_vec(), Box::new(Value::Int(42)));
    let mut expected = vec![7u8];
    expected.extend_from_slice(&4u32.to_le_bytes());
    expected.extend_from_slice(b"Some");
    expected.push(1u8);
    expected.push(2u8);
    expected.extend_from_slice(&42i64.to_le_bytes());
    assert_eq!(encode_value(&v), expected);
}

#[test]
fn test_check_wf_accepts_ordinary_trees() {
    let v = Value::Array(vec![
        Value::Record(vec![(b"k".to_vec(), Some(Value::Str(b"v".to_vec())))]),
        Value::EnumVariant(b"Tag".to_vec(), Box::new(Value::Null)),
    ]);
    assert!(check_wf(&v));
}

#[test]
fn test_export_binary_keeps_error_slot() {
    let mut b = Boundary::new();
    b.set_error(String::from("earlier failure"));
    let buffer = b.export_binary(&Value::Int(7)).unwrap();
    assert_eq!(buffer.len, buffer.data.len());
    assert_eq!(b.last_error().unwrap(), "earlier failure");
}
