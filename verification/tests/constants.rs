use rtoon::is_keyword;
use rtoon::is_structural_char;

#[test]
fn test_is_structural_char() {
    assert!(is_structural_char('['));
    assert!(is_structural_char(']'));
    assert!(is_structural_char('{'));
    assert!(is_structural_char('}'));
    assert!(is_structural_char(':'));
    assert!(is_structural_char('-'));
    assert!(!is_structural_char('a'));
    assert!(!is_structural_char(','));
}

#[test]
fn test_is_keyword() {
    assert!(is_keyword("null"));
    assert!(is_keyword("true"));
    assert!(is_keyword("false"));
    assert!(!is_keyword("hello"));
    assert!(!is_keyword("TRUE"));
}
