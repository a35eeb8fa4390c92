use blackboard::errors::BBError;
use blackboard::reference::{parse_ref, ref_value_eq_loose, RefValue};
use blackboard::validation::validate_ref;

#[test]
fn test_parse_ref_numeric() {
    let r = parse_ref("tt:task:13").unwrap();
    assert_eq!(r.where_, "tt");
    assert_eq!(r.what, "task");
    assert_eq!(r.ref_, RefValue::Num(13));
}

#[test]
fn test_parse_ref_string() {
    let r = parse_ref("github:issue:abc-123").unwrap();
    assert_eq!(r.where_, "github");
    assert_eq!(r.what, "issue");
    assert_eq!(r.ref_, RefValue::Text("abc-123".to_string()));
}

#[test]
fn test_parse_ref_internal() {
    let r = parse_ref("bb:message:42").unwrap();
    assert_eq!(r.where_, "bb");
    assert_eq!(r.what, "message");
    assert_eq!(r.ref_, RefValue::Num(42));
}

#[test]
fn test_parse_ref_invalid_format() {
    assert!(parse_ref("invalid").is_err());
    assert!(parse_ref("only:two").is_err());
    assert!(parse_ref("too:many:parts:here").is_err());
}

#[test]
fn test_parse_ref_empty_parts() {
    assert!(parse_ref(":what:ref").is_err());
    assert!(parse_ref("where::ref").is_err());
    assert!(parse_ref("where:what:").is_err());
}

#[test]
fn test_parse_ref_path_with_colons() {
    assert!(parse_ref("bb:artifact:src/file.rs:line10").is_err());
}

#[test]
fn test_parse_ref_with_whitespace() {
    let r = parse_ref("  tt : task : 13  ").unwrap();
    assert_eq!(r.where_, "tt");
    assert_eq!(r.what, "task");
    assert_eq!(r.ref_, RefValue::Num(13));
}

#[test]
fn test_validate_ref_numeric() {
    let r = validate_ref("tt:task:13").unwrap();
    assert_eq!(r.where_, "tt");
    assert_eq!(r.what, "task");
    assert_eq!(r.ref_, RefValue::Num(13));
}

#[test]
fn test_validate_ref_string() {
    let r = validate_ref("github:issue:abc-123").unwrap();
    assert_eq!(r.where_, "github");
    assert_eq!(r.what, "issue");
    assert_eq!(r.ref_, RefValue::Text("abc-123".to_string()));
}

#[test]
fn test_validate_ref_invalid_format() {
    assert!(validate_ref("invalid").is_err());
    assert!(validate_ref("only:two").is_err());
    assert!(validate_ref("too:many:parts:here").is_err());
}

#[test]
fn test_validate_ref_empty_parts() {
    assert!(validate_ref(":what:ref").is_err());
    assert!(validate_ref("where::ref").is_err());
    assert!(validate_ref("where:what:").is_err());
}

#[test]
fn test_validate_ref_error_type() {
    let result = validate_ref("invalid");
    assert!(result.is_err());
    match result {
        Err(BBError::InvalidRefFormat) => {}
        _ => panic!("expected an invalid-ref-format error"),
    }
}

#[test]
fn test_parse_ref_leading_zeros_normalize() {
    let r = parse_ref("tt:task:013").unwrap();
    assert_eq!(r.ref_, RefValue::Num(13));
}

#[test]
fn test_parse_ref_huge_digit_token_stays_text() {
    let r = parse_ref("tt:task:99999999999999999999").unwrap();
    assert_eq!(r.ref_, RefValue::Text("99999999999999999999".to_string()));
}

#[test]
fn test_ref_matching_is_type_insensitive() {
    let num = RefValue::Num(13);
    let text = RefValue::Text("13".to_string());
    assert!(ref_value_eq_loose(&num, &text));
    assert!(ref_value_eq_loose(&text, &num));
    assert!(ref_value_eq_loose(&num, &RefValue::Num(13)));
    assert!(!ref_value_eq_loose(&num, &RefValue::Text("013".to_string())));
    assert!(!ref_value_eq_loose(&num, &RefValue::Num(14)));
}
