use blackboard::output::{truncate, wrap_text, OutputFormat, OutputFormatter};
use blackboard::text::{i64_to_string, str_eq, trim};

#[test]
fn test_truncate() {
    assert_eq!(truncate("hello", 10), "hello");
    assert_eq!(truncate("hello world this is long", 10), "hello w...");
}

#[test]
fn test_wrap_text() {
    let lines = wrap_text("this is a very long text that should be wrapped", 15);
    assert!(lines.len() > 1);
    assert!(lines.iter().all(|l| l.len() <= 15));
}

#[test]
fn test_wrap_text_joins_words_with_single_spaces() {
    let lines = wrap_text("alpha beta gamma", 40);
    assert_eq!(lines, vec!["alpha beta gamma".to_string()]);
}

#[test]
fn test_wrap_text_empty_input_is_returned_whole() {
    let lines = wrap_text("", 10);
    assert_eq!(lines, vec!["".to_string()]);
}

#[test]
fn test_wrap_text_long_word_stands_alone() {
    let lines = wrap_text("tiny extraordinarily tiny", 8);
    assert_eq!(
        lines,
        vec!["tiny".to_string(), "extraordinarily".to_string(), "tiny".to_string()]
    );
}

#[test]
fn test_truncate_exact_boundary_is_kept() {
    assert_eq!(truncate("0123456789", 10), "0123456789");
    assert_eq!(truncate("0123456789a", 10), "0123456...");
}

#[test]
fn test_i64_to_string_exact_values() {
    assert_eq!(i64_to_string(0), "0");
    assert_eq!(i64_to_string(13), "13");
    assert_eq!(i64_to_string(-7), "-7");
    assert_eq!(i64_to_string(9007199254740993), "9007199254740993");
    assert_eq!(i64_to_string(i64::MAX), "9223372036854775807");
    assert_eq!(i64_to_string(i64::MIN), "-9223372036854775808");
}

#[test]
fn test_trim_removes_surrounding_whitespace() {
    assert_eq!(trim("  hello \t"), "hello");
    assert_eq!(trim("hello"), "hello");
    assert_eq!(trim("   "), "");
}

#[test]
fn test_str_eq_compares_characters() {
    assert!(str_eq("abc", "abc"));
    assert!(!str_eq("abc", "abd"));
    assert!(!str_eq("abc", "ab"));
}

#[test]
fn test_output_formatter_keeps_format() {
    let f = OutputFormatter::new(OutputFormat::Json);
    assert!(matches!(f.format, OutputFormat::Json));
    let f = OutputFormatter::new(OutputFormat::Human);
    assert!(matches!(f.format, OutputFormat::Human));
}
