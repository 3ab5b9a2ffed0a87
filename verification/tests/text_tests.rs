use nickel_jl::Boundary;

#[test]
fn test_null_input() {
    let mut b = Boundary::new();
    let result = b.eval_to_text(None);
    assert!(result.is_none());
    let error = b.last_error();
    assert!(error.is_some());
}

#[test]
fn test_eval_simple_number() {
    let mut b = Boundary::new();
    let result = b.eval_to_text(Some("1 + 2"));
    assert!(
        result.is_some(),
        "Expected result, got error: {:?}",
        b.last_error()
    );
    assert_eq!(result.unwrap(), "3");
}

#[test]
fn test_eval_string() {
    let mut b = Boundary::new();
    let result = b.eval_to_text(Some(r#""hello""#));
    assert!(
        result.is_some(),
        "Expected result, got error: {:?}",
        b.last_error()
    );
    assert_eq!(result.unwrap(), "\"hello\"");
}

#[test]
fn test_eval_record() {
    let mut b = Boundary::new();
    let result = b.eval_to_text(Some("{ x = 1, y = 2 }"));
    assert!(
        result.is_some(),
        "Expected result, got error: {:?}",
        b.last_error()
    );
    let result_str = result.unwrap();
    assert!(result_str.contains("\"x\""));
    assert!(result_str.contains("\"y\""));
}

#[test]
fn test_eval_array() {
    let mut b = Boundary::new();
    let result = b.eval_to_text(Some("[1, 2, 3]"));
    assert!(
        result.is_some(),
        "Expected result, got error: {:?}",
        b.last_error()
    );
    let result_str = result.unwrap();
    assert!(result_str.contains("1"));
    assert!(result_str.contains("2"));
    assert!(result_str.contains("3"));
}

#[test]
fn test_eval_function_application() {
    let mut b = Boundary::new();
    let result = b.eval_to_text(Some("let add = fun x y => x + y in add 3 4"));
    assert!(
        result.is_some(),
        "Expected result, got error: {:?}",
        b.last_error()
    );
    assert_eq!(result.unwrap(), "7");
}

#[test]
fn test_eval_syntax_error() {
    let mut b = Boundary::new();
    let result = b.eval_to_text(Some("{ x = }"));
    assert!(result.is_none());
    let error = b.last_error();
    assert!(error.is_some());
    assert!(!error.unwrap().is_empty());
}

#[test]
fn test_eval_json_internal() {
    let mut b = Boundary::new();
    let result = b.eval_to_text(Some("42")).unwrap();
    assert_eq!(result, "42");

    let result = b.eval_to_text(Some("{ a = 1 }")).unwrap();
    assert!(result.contains("\"a\""));
    assert!(result.contains("1"));
}

#[test]
fn test_json_all_types() {
    let mut b = Boundary::new();
    assert_eq!(b.eval_to_text(Some("null")).unwrap(), "null");
    assert_eq!(b.eval_to_text(Some("true")).unwrap(), "true");
    assert_eq!(b.eval_to_text(Some("false")).unwrap(), "false");
    assert_eq!(b.eval_to_text(Some("42")).unwrap(), "42");
    assert!(b.eval_to_text(Some("3.14")).unwrap().starts_with("3.14"));
    assert_eq!(b.eval_to_text(Some(r#""hello""#)).unwrap(), "\"hello\"");
    assert!(
        b.eval_to_text(Some("[]")).unwrap().contains("[]")
            || b.eval_to_text(Some("[]")).unwrap().contains("[\n]")
    );
}

#[test]
fn test_eval_unserializable_function() {
    let mut b = Boundary::new();
    let result = b.eval_to_text(Some("fun x => x"));
    assert!(result.is_none());
    let error = b.last_error();
    assert!(error.is_some());
    assert!(!error.unwrap().is_empty());
}

#[test]
fn test_error_slot_survives_success() {
    let mut b = Boundary::new();
    assert!(b.eval_to_text(Some("{ x = }")).is_none());
    let first = b.last_error().unwrap().clone();
    assert!(!first.is_empty());
    assert_eq!(b.eval_to_text(Some("1 + 2")).unwrap(), "3");
    assert_eq!(b.last_error().unwrap(), &first);
}

#[test]
fn test_set_error_read_back() {
    let mut b = Boundary::new();
    assert!(b.last_error().is_none());
    b.set_error(String::from("custom failure"));
    assert_eq!(b.last_error().unwrap(), "custom failure");
}
