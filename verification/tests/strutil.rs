use rtoon::strutil::escape_string;
use rtoon::strutil::needs_quoting;
use rtoon::strutil::quote_string;
use rtoon::strutil::split_by_delimiter;
use rtoon::strutil::unescape_string;
use rtoon::Delimiter;

#[test]
fn string_test_escape_string() {
    assert_eq!(escape_string("hello"), "hello");
    assert_eq!(escape_string("hello\nworld"), "hello\\nworld");
    assert_eq!(escape_string("say \"hi\""), "say \\\"hi\\\"");
    assert_eq!(escape_string("back\\slash"), "back\\\\slash");
}

#[test]
fn string_test_unescape_string() {
    assert_eq!(unescape_string("hello"), "hello");
    assert_eq!(unescape_string("hello\\nworld"), "hello\nworld");
    assert_eq!(unescape_string("say \\\"hi\\\""), "say \"hi\"");
    assert_eq!(unescape_string("back\\\\slash"), "back\\slash");
}

#[test]
fn test_lenient_unescape_passthrough() {
    assert_eq!(unescape_string("\\x"), "\\x");
    assert_eq!(unescape_string("hello\\"), "hello\\");
}

#[test]
fn test_needs_quoting() {
    let comma = Delimiter::Comma;

    assert!(needs_quoting("", comma));

    assert!(needs_quoting("true", comma));
    assert!(needs_quoting("false", comma));
    assert!(needs_quoting("null", comma));
    assert!(needs_quoting("123", comma));

    assert!(needs_quoting("hello[world]", comma));
    assert!(needs_quoting("key:value", comma));

    assert!(needs_quoting("a,b", comma));
    assert!(!needs_quoting("a,b", Delimiter::Pipe));

    // Only leading or trailing whitespace forces quoting; internal spaces
    // and an interior dash are safe.
    assert!(!needs_quoting("hello world", comma));
    assert!(needs_quoting(" hello", comma));
    assert!(needs_quoting("hello ", comma));
    assert!(!needs_quoting("a-b", comma));
    assert!(needs_quoting("-", comma));
    assert!(needs_quoting("- item", comma));

    assert!(!needs_quoting("hello", comma));
    assert!(!needs_quoting("world", comma));
    assert!(!needs_quoting("helloworld", comma));
}

#[test]
fn test_quote_string() {
    assert_eq!(quote_string("hello"), "\"hello\"");
    assert_eq!(quote_string("hello\nworld"), "\"hello\\nworld\"");
}

#[test]
fn test_split_by_delimiter() {
    let comma = Delimiter::Comma;

    assert_eq!(split_by_delimiter("a,b,c", comma), vec!["a", "b", "c"]);

    assert_eq!(split_by_delimiter("a, b, c", comma), vec!["a", "b", "c"]);

    assert_eq!(split_by_delimiter("\"a,b\",c", comma), vec!["\"a,b\"", "c"]);
}
