use rtoon::decode_default;
use rtoon::encode_default;
use rtoon::Value;

fn s(x: &str) -> String {
    x.to_string()
}

#[test]
fn test_unicode_strings() {
    let unicode = Value::Object(vec![
        (s("emoji"), Value::Str(s("\u{1F600}\u{1F389}\u{1F980}"))),
        (s("chinese"), Value::Str(s("\u{4F60}\u{597D}\u{4E16}\u{754C}"))),
        (s("arabic"), Value::Str(s("\u{645}\u{631}\u{62D}\u{628}\u{627}"))),
        (s("mixed"), Value::Str(s("Hello \u{4E16}\u{754C} \u{1F30D}"))),
    ]);

    let encoded = encode_default(&unicode).unwrap();
    let decoded = decode_default(&encoded).unwrap();
    assert_eq!(unicode, decoded);
}
