use rtoon::Delimiter;
use rtoon::EncodeOptions;
use rtoon::DecodeOptions;

#[test]
fn test_delimiter_conversion() {
    assert_eq!(Delimiter::Comma.as_char(), ',');
    assert_eq!(Delimiter::Tab.as_char(), '\t');
    assert_eq!(Delimiter::Pipe.as_char(), '|');
}

#[test]
fn test_delimiter_from_char() {
    assert_eq!(Delimiter::from_char(','), Some(Delimiter::Comma));
    assert_eq!(Delimiter::from_char('\t'), Some(Delimiter::Tab));
    assert_eq!(Delimiter::from_char('|'), Some(Delimiter::Pipe));
    assert_eq!(Delimiter::from_char('x'), None);
}

#[test]
fn test_delimiter_contains() {
    assert!(Delimiter::Comma.contains_in("a,b,c"));
    assert!(Delimiter::Tab.contains_in("a\tb\tc"));
    assert!(Delimiter::Pipe.contains_in("a|b|c"));
    assert!(!Delimiter::Comma.contains_in("abc"));
}

#[test]
fn test_delimiter_metadata() {
    assert_eq!(Delimiter::Comma.as_metadata_str(), "");
    assert_eq!(Delimiter::Tab.as_metadata_str(), "\t");
    assert_eq!(Delimiter::Pipe.as_metadata_str(), "|");
}

#[test]
fn test_encode_options_length_marker() {
    let opts = EncodeOptions::new().with_length_marker('#');
    assert_eq!(opts.format_length(5), "#5");

    let opts = EncodeOptions::new();
    assert_eq!(opts.format_length(5), "5");
}

#[test]
fn test_encode_options_indent() {
    let opts = EncodeOptions::new().with_spaces(4);
    assert_eq!(opts.indent, "    ");

    let opts = EncodeOptions::new().with_tabs();
    assert_eq!(opts.indent, "\t");

    let opts = EncodeOptions::new().with_indent("   ".to_string());
    assert_eq!(opts.indent, "   ");
}

#[test]
fn test_decode_options_coerce_types() {
    let opts = DecodeOptions::new();
    assert!(opts.coerce_types);

    let opts = DecodeOptions::new().with_coerce_types(false);
    assert!(!opts.coerce_types);

    let opts = DecodeOptions::new().with_coerce_types(true);
    assert!(opts.coerce_types);
}
