use turtle_logo::num::{int_to_string, parse_i32};
use turtle_logo::text::{is_valid_value, split_lines, str_eq, token_matches, tokenize_line};
use turtle_logo::value::div_i32;

#[test]
fn tokenize_splits_on_whitespace_runs() {
    assert_eq!(
        tokenize_line("  FORWARD   \"10\t:x  "),
        vec!["FORWARD".to_string(), "\"10".to_string(), ":x".to_string()]
    );
    assert_eq!(tokenize_line(""), Vec::<String>::new());
    assert_eq!(tokenize_line("   \t "), Vec::<String>::new());
}

#[test]
fn split_lines_matches_line_breaks() {
    assert_eq!(split_lines(""), Vec::<String>::new());
    assert_eq!(split_lines("a"), vec!["a".to_string()]);
    assert_eq!(split_lines("a\nb"), vec!["a".to_string(), "b".to_string()]);
    assert_eq!(split_lines("a\nb\n"), vec!["a".to_string(), "b".to_string()]);
    assert_eq!(
        split_lines("a\n\nb"),
        vec!["a".to_string(), "".to_string(), "b".to_string()]
    );
    assert_eq!(split_lines("\n"), vec!["".to_string()]);
}

#[test]
fn unicode_whitespace_separates_tokens() {
    assert_eq!(
        tokenize_line("FORWARD\u{a0}\"10"),
        vec!["FORWARD".to_string(), "\"10".to_string()]
    );
    assert_eq!(
        tokenize_line("PENUP\u{2003}\u{3000}"),
        vec!["PENUP".to_string()]
    );
}

#[test]
fn value_tokens_are_quotes_references_and_queries() {
    assert!(is_valid_value("\"10"));
    assert!(is_valid_value(":x"));
    assert!(is_valid_value("XCOR"));
    assert!(is_valid_value("ycor"));
    assert!(is_valid_value("Heading"));
    assert!(is_valid_value("COLOR"));
    assert!(!is_valid_value("10"));
    assert!(!is_valid_value("FORWARD"));
    assert!(!is_valid_value(""));
}

#[test]
fn keyword_matching_ignores_ascii_case_only() {
    assert!(token_matches("forward", "FORWARD"));
    assert!(token_matches("ForWard", "FORWARD"));
    assert!(!token_matches("FORWARDS", "FORWARD"));
    assert!(!token_matches("FORWAR", "FORWARD"));
    assert!(token_matches("+", "+"));
    assert!(!token_matches("k", "+"));
}

#[test]
fn str_eq_is_exact() {
    assert!(str_eq("abc", "abc"));
    assert!(!str_eq("abc", "abd"));
    assert!(!str_eq("abc", "ab"));
    assert!(str_eq("", ""));
}

#[test]
fn parse_i32_reads_signed_decimals() {
    assert_eq!(parse_i32("0"), Some(0));
    assert_eq!(parse_i32("42"), Some(42));
    assert_eq!(parse_i32("-42"), Some(-42));
    assert_eq!(parse_i32("+42"), Some(42));
    assert_eq!(parse_i32("007"), Some(7));
    assert_eq!(parse_i32("2147483647"), Some(2147483647));
    assert_eq!(parse_i32("-2147483648"), Some(-2147483648));
}

#[test]
fn parse_i32_rejects_non_integers() {
    assert_eq!(parse_i32(""), None);
    assert_eq!(parse_i32("-"), None);
    assert_eq!(parse_i32("+"), None);
    assert_eq!(parse_i32("1.5"), None);
    assert_eq!(parse_i32("12a"), None);
    assert_eq!(parse_i32(" 1"), None);
    assert_eq!(parse_i32("2147483648"), None);
    assert_eq!(parse_i32("-2147483649"), None);
    assert_eq!(parse_i32("99999999999999999999"), None);
    assert_eq!(parse_i32("true"), None);
}

#[test]
fn int_to_string_renders_canonical_decimal() {
    assert_eq!(int_to_string(0), "0");
    assert_eq!(int_to_string(8), "8");
    assert_eq!(int_to_string(-1), "-1");
    assert_eq!(int_to_string(123456), "123456");
    assert_eq!(int_to_string(2147483647), "2147483647");
    assert_eq!(int_to_string(-2147483648), "-2147483648");
}

#[test]
fn div_i32_truncates_toward_zero() {
    assert_eq!(div_i32(7, 2), 3);
    assert_eq!(div_i32(-7, 2), -3);
    assert_eq!(div_i32(7, -2), -3);
    assert_eq!(div_i32(-7, -2), 3);
    assert_eq!(div_i32(0, 5), 0);
    assert_eq!(div_i32(-2147483648, 2), -1073741824);
}
