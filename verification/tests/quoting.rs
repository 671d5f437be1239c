use rtoon::quoting::escape_string;
use rtoon::quoting::format_quoted_string;
use rtoon::quoting::is_literal_like;
use rtoon::quoting::is_numeric_like;
use rtoon::quoting::needs_quoting;
use rtoon::quoting::unescape_string;
use rtoon::quoting::QuotingContext;
use rtoon::Delimiter;

#[test]
fn test_is_literal_like() {
    // Boolean literals
    assert!(is_literal_like("true"));
    assert!(is_literal_like("false"));
    assert!(is_literal_like("null"));

    // Numeric literals
    assert!(is_literal_like("0"));
    assert!(is_literal_like("42"));
    assert!(is_literal_like("-5"));
    assert!(is_literal_like("3.14"));
    assert!(is_literal_like("-3.14"));
    assert!(is_literal_like("1e6"));
    assert!(is_literal_like("1.5e-10"));

    // Not literals
    assert!(!is_literal_like("hello"));
    assert!(!is_literal_like("True")); // Wrong case
    assert!(!is_literal_like("null ")); // Trailing space
    assert!(!is_literal_like("05")); // Leading zero (not valid number)
    assert!(!is_literal_like("007")); // Leading zeros
}

#[test]
fn test_is_numeric_like() {
    // Valid numbers
    assert!(is_numeric_like("0"));
    assert!(is_numeric_like("42"));
    assert!(is_numeric_like("-5"));
    assert!(is_numeric_like("3.14"));
    assert!(is_numeric_like("-3.14"));
    assert!(is_numeric_like("0.5"));

    // Invalid - leading zeros
    assert!(!is_numeric_like("05"));
    assert!(!is_numeric_like("007"));
    assert!(!is_numeric_like("0123"));

    // Not numbers
    assert!(!is_numeric_like("hello"));
    assert!(!is_numeric_like(""));
    assert!(!is_numeric_like("-"));
    assert!(!is_numeric_like("-."));
}

#[test]
fn test_numeric_grammar_strict() {
    // At most a single dot, and a well-formed exponent: stray dots and
    // signs disqualify a run from being numeric-looking.
    assert!(!is_numeric_like("1..2"));
    assert!(!is_numeric_like("1+2"));
    assert!(!is_numeric_like("1e"));
    assert!(!is_numeric_like("1e+"));
    assert!(is_numeric_like("1."));
    assert!(is_numeric_like("1.5e-10"));
    assert!(!is_literal_like("1..2"));
    assert!(!is_literal_like("1+2"));
}

#[test]
fn test_needs_quoting_empty() {
    let comma = Delimiter::Comma;
    assert!(needs_quoting("", QuotingContext::Value, comma));
    assert!(needs_quoting("", QuotingContext::Key, comma));
}

#[test]
fn test_needs_quoting_whitespace() {
    let comma = Delimiter::Comma;
    assert!(needs_quoting(" hello", QuotingContext::Value, comma));
    assert!(needs_quoting("hello ", QuotingContext::Value, comma));
    assert!(needs_quoting(" hello ", QuotingContext::Value, comma));
    assert!(needs_quoting("  ", QuotingContext::Value, comma));
}

#[test]
fn test_needs_quoting_literals() {
    let comma = Delimiter::Comma;
    assert!(needs_quoting("true", QuotingContext::Value, comma));
    assert!(needs_quoting("false", QuotingContext::Value, comma));
    assert!(needs_quoting("null", QuotingContext::Value, comma));
    assert!(needs_quoting("42", QuotingContext::Value, comma));
    assert!(needs_quoting("-3.14", QuotingContext::Value, comma));
}

#[test]
fn test_needs_quoting_structural() {
    let comma = Delimiter::Comma;
    assert!(needs_quoting("[", QuotingContext::Value, comma));
    assert!(needs_quoting("]", QuotingContext::Value, comma));
    assert!(needs_quoting("{", QuotingContext::Value, comma));
    assert!(needs_quoting("}", QuotingContext::Value, comma));
    assert!(needs_quoting("[5]", QuotingContext::Value, comma));
    assert!(needs_quoting("{key}", QuotingContext::Value, comma));
    assert!(needs_quoting("a[0]", QuotingContext::Value, comma));
}

#[test]
fn test_needs_quoting_delimiters() {
    assert!(needs_quoting("a,b", QuotingContext::Value, Delimiter::Comma));
    assert!(needs_quoting("a|b", QuotingContext::Value, Delimiter::Pipe));
    assert!(needs_quoting("a\tb", QuotingContext::Value, Delimiter::Tab));

    // Non-active delimiters don't require quoting
    assert!(!needs_quoting("a,b", QuotingContext::Value, Delimiter::Pipe));
    assert!(!needs_quoting("a|b", QuotingContext::Value, Delimiter::Comma));
}

#[test]
fn test_needs_quoting_colon() {
    let comma = Delimiter::Comma;
    assert!(needs_quoting("a:b", QuotingContext::Value, comma));
    assert!(needs_quoting("key:", QuotingContext::Value, comma));
}

#[test]
fn test_needs_quoting_hyphen() {
    let comma = Delimiter::Comma;

    // Value context: hyphen requires quoting
    assert!(needs_quoting("-", QuotingContext::Value, comma));
    assert!(needs_quoting("- item", QuotingContext::Value, comma));

    // Key context: hyphen doesn't require quoting
    assert!(!needs_quoting("-lead", QuotingContext::Key, comma));

    // Safe hyphens
    assert!(!needs_quoting("hello-world", QuotingContext::Value, comma));
    assert!(!needs_quoting("x-axis", QuotingContext::Value, comma));
}

#[test]
fn test_needs_quoting_control_chars() {
    let comma = Delimiter::Comma;
    assert!(needs_quoting("hello\nworld", QuotingContext::Value, comma));
    assert!(needs_quoting("tab\there", QuotingContext::Value, comma));
    assert!(needs_quoting("line\\break", QuotingContext::Value, comma));
    assert!(needs_quoting("say \"hi\"", QuotingContext::Value, comma));
}

#[test]
fn test_needs_quoting_safe_strings() {
    let comma = Delimiter::Comma;
    assert!(!needs_quoting("hello", QuotingContext::Value, comma));
    assert!(!needs_quoting("hello_world", QuotingContext::Value, comma));
    assert!(!needs_quoting("HelloWorld", QuotingContext::Value, comma));
    assert!(!needs_quoting("hello123", QuotingContext::Value, comma));
    assert!(!needs_quoting("user.name", QuotingContext::Key, comma));
}

#[test]
fn utils_test_escape_string() {
    assert_eq!(escape_string("hello"), "hello");
    assert_eq!(escape_string("hello\nworld"), "hello\\nworld");
    assert_eq!(escape_string("tab\there"), "tab\\there");
    assert_eq!(escape_string("say \"hi\""), "say \\\"hi\\\"");
    assert_eq!(escape_string("C:\\path"), "C:\\\\path");
    assert_eq!(escape_string("line1\r\nline2"), "line1\\r\\nline2");
}

#[test]
fn utils_test_unescape_string() {
    assert_eq!(unescape_string("hello").unwrap(), "hello");
    assert_eq!(unescape_string("hello\\nworld").unwrap(), "hello\nworld");
    assert_eq!(unescape_string("tab\\there").unwrap(), "tab\there");
    assert_eq!(unescape_string("say \\\"hi\\\"").unwrap(), "say \"hi\"");
    assert_eq!(unescape_string("C:\\\\path").unwrap(), "C:\\path");
    assert_eq!(
        unescape_string("line1\\r\\nline2").unwrap(),
        "line1\r\nline2"
    );
}

#[test]
fn test_unescape_invalid() {
    assert!(unescape_string("\\x").is_err());
    assert!(unescape_string("\\").is_err());
    assert!(unescape_string("hello\\").is_err());
}

#[test]
fn test_format_quoted_string() {
    assert_eq!(format_quoted_string("hello"), r#""hello""#);
    assert_eq!(format_quoted_string("hello\nworld"), r#""hello\nworld""#);
    assert_eq!(format_quoted_string(""), r#""""#);
}

#[test]
fn test_round_trip_escape_unescape() {
    let test_strings = vec![
        "hello",
        "hello\nworld",
        "tab\there",
        "say \"hi\"",
        "C:\\path",
        "line1\r\nline2",
        "",
        "123",
    ];

    for s in test_strings {
        let escaped = escape_string(s);
        let unescaped = unescape_string(&escaped).unwrap();
        assert_eq!(s, unescaped, "Round trip failed for: {}", s);
    }
}
