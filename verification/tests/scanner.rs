use rtoon::scanner::Scanner;
use rtoon::scanner::Token;
use rtoon::Delimiter;

#[test]
fn test_scan_structural_tokens() {
    let mut scanner = Scanner::new("[]{}:-");
    assert_eq!(scanner.scan_token().unwrap(), Token::LeftBracket);
    assert_eq!(scanner.scan_token().unwrap(), Token::RightBracket);
    assert_eq!(scanner.scan_token().unwrap(), Token::LeftBrace);
    assert_eq!(scanner.scan_token().unwrap(), Token::RightBrace);
    assert_eq!(scanner.scan_token().unwrap(), Token::Colon);
    assert_eq!(scanner.scan_token().unwrap(), Token::Dash);
}

#[test]
fn test_scan_numbers() {
    let mut scanner = Scanner::new("42 3.14 -5");
    assert_eq!(scanner.scan_token().unwrap(), Token::Integer(42));
    assert_eq!(
        scanner.scan_token().unwrap(),
        Token::Float("3.14".to_string())
    );
    assert_eq!(scanner.scan_token().unwrap(), Token::Integer(-5));
}

#[test]
fn test_scan_booleans() {
    let mut scanner = Scanner::new("true false");
    assert_eq!(scanner.scan_token().unwrap(), Token::Bool(true));
    assert_eq!(scanner.scan_token().unwrap(), Token::Bool(false));
}

#[test]
fn test_scan_null() {
    let mut scanner = Scanner::new("null");
    assert_eq!(scanner.scan_token().unwrap(), Token::Null);
}

#[test]
fn test_scan_quoted_string() {
    let mut scanner = Scanner::new(r#""hello world""#);
    assert_eq!(
        scanner.scan_token().unwrap(),
        Token::Str("hello world".to_string())
    );
}

#[test]
fn test_scan_escaped_string() {
    let mut scanner = Scanner::new(r#""hello\nworld""#);
    assert_eq!(
        scanner.scan_token().unwrap(),
        Token::Str("hello\nworld".to_string())
    );
}

#[test]
fn test_scan_unquoted_string() {
    let mut scanner = Scanner::new("hello");
    assert_eq!(
        scanner.scan_token().unwrap(),
        Token::Str("hello".to_string())
    );
}

#[test]
fn test_scan_unterminated_quote() {
    let mut scanner = Scanner::new("\"never closed");
    assert!(scanner.scan_token().is_err());
}

#[test]
fn test_scan_delimiter_tokens() {
    let mut scanner = Scanner::new("a,b");
    scanner.set_active_delimiter(Some(Delimiter::Comma));
    assert_eq!(scanner.scan_token().unwrap(), Token::Str("a".to_string()));
    assert_eq!(
        scanner.scan_token().unwrap(),
        Token::Delim(Delimiter::Comma)
    );
    assert_eq!(scanner.scan_token().unwrap(), Token::Str("b".to_string()));
    assert_eq!(scanner.scan_token().unwrap(), Token::Eof);
}

#[test]
fn test_detect_delimiter() {
    let mut scanner = Scanner::new("a,b,c");
    assert_eq!(scanner.detect_delimiter(), Some(Delimiter::Comma));

    let mut scanner = Scanner::new("a|b|c");
    assert_eq!(scanner.detect_delimiter(), Some(Delimiter::Pipe));

    let mut scanner = Scanner::new("a\tb\tc");
    assert_eq!(scanner.detect_delimiter(), Some(Delimiter::Tab));
}
