use rtoon::escape_string;
use rtoon::is_keyword;
use rtoon::is_literal_like;
use rtoon::needs_quoting;
use rtoon::Delimiter;
use rtoon::ToonError;

#[test]
fn test_utilities_exported() {
    assert!(is_keyword("null"));
    assert!(is_literal_like("true"));
    assert_eq!(escape_string("hello\nworld"), "hello\\nworld");
    assert!(needs_quoting("true", Delimiter::Comma));
}

#[test]
fn test_error_constructors() {
    let e = ToonError::parse_error(3, 7, "Expected ':'".to_string());
    assert_eq!(
        e,
        ToonError::ParseError {
            line: 3,
            column: 7,
            message: "Expected ':'".to_string()
        }
    );

    let e = ToonError::invalid_char('x', 12);
    assert_eq!(
        e,
        ToonError::InvalidCharacter {
            ch: 'x',
            position: 12
        }
    );

    let e = ToonError::type_mismatch("object".to_string(), "array".to_string());
    assert_eq!(
        e,
        ToonError::TypeMismatch {
            expected: "object".to_string(),
            found: "array".to_string()
        }
    );

    let e = ToonError::length_mismatch(3, 2);
    assert_eq!(
        e,
        ToonError::LengthMismatch {
            expected: 3,
            found: 2
        }
    );
}

#[test]
fn test_error_messages() {
    let e = ToonError::LengthMismatch {
        expected: 3,
        found: 2,
    };
    assert_eq!(e.message(), "Array length mismatch: expected 3, found 2");

    let e = ToonError::UnexpectedEof;
    assert_eq!(e.message(), "Unexpected end of input");

    let e = ToonError::ParseError {
        line: 2,
        column: 5,
        message: "Expected key".to_string(),
    };
    assert_eq!(e.message(), "Parse error at line 2, column 5: Expected key");

    let e = ToonError::InvalidCharacter {
        ch: '!',
        position: 4,
    };
    assert_eq!(e.message(), "Invalid character '!' at position 4");
}
