use rtoon::decode;
use rtoon::decode_default;
use rtoon::decode_no_coerce;
use rtoon::decode_strict;
use rtoon::DecodeOptions;
use rtoon::Delimiter;
use rtoon::ToonError;
use rtoon::Value;

fn s(x: &str) -> String {
    x.to_string()
}

fn get<'a>(v: &'a Value, key: &str) -> &'a Value {
    match v {
        Value::Object(o) => {
            for (k, val) in o.iter() {
                if k == key {
                    return val;
                }
            }
            panic!("key {} not found", key);
        }
        _ => panic!("not an object"),
    }
}

#[test]
fn test_decode_null() {
    assert_eq!(decode_default("null").unwrap(), Value::Null);
}

#[test]
fn test_decode_bool() {
    assert_eq!(decode_default("true").unwrap(), Value::Bool(true));
    assert_eq!(decode_default("false").unwrap(), Value::Bool(false));
}

#[test]
fn test_decode_number() {
    assert_eq!(decode_default("42").unwrap(), Value::Int(42));
    assert_eq!(decode_default("3.14").unwrap(), Value::Float(s("3.14")));
    assert_eq!(decode_default("-5").unwrap(), Value::Int(-5));
}

#[test]
fn test_decode_string() {
    assert_eq!(decode_default("hello").unwrap(), Value::Str(s("hello")));
    assert_eq!(
        decode_default("\"hello world\"").unwrap(),
        Value::Str(s("hello world"))
    );
}

#[test]
fn test_decode_simple_object() {
    let input = "name: Alice\nage: 30";
    let result = decode_default(input).unwrap();
    assert_eq!(get(&result, "name"), &Value::Str(s("Alice")));
    assert_eq!(get(&result, "age"), &Value::Int(30));
}

#[test]
fn test_decode_primitive_array() {
    let input = "tags[3]: reading,gaming,coding";
    let result = decode_default(input).unwrap();
    assert_eq!(
        get(&result, "tags"),
        &Value::Array(vec![
            Value::Str(s("reading")),
            Value::Str(s("gaming")),
            Value::Str(s("coding"))
        ])
    );
}

#[test]
fn test_decode_tabular_array() {
    let input = "users[2]{id,name,role}:\n  1,Alice,admin\n  2,Bob,user";
    let result = decode_default(input).unwrap();
    assert_eq!(
        get(&result, "users"),
        &Value::Array(vec![
            Value::Object(vec![
                (s("id"), Value::Int(1)),
                (s("name"), Value::Str(s("Alice"))),
                (s("role"), Value::Str(s("admin")))
            ]),
            Value::Object(vec![
                (s("id"), Value::Int(2)),
                (s("name"), Value::Str(s("Bob"))),
                (s("role"), Value::Str(s("user")))
            ]),
        ])
    );
}

#[test]
fn test_decode_empty_array() {
    let input = "items[0]:";
    let result = decode_default(input).unwrap();
    assert_eq!(get(&result, "items"), &Value::Array(vec![]));
}

#[test]
fn test_decode_quoted_strings() {
    let input = "tags[3]: \"true\",\"42\",\"-3.14\"";
    let result = decode_default(input).unwrap();
    assert_eq!(
        get(&result, "tags"),
        &Value::Array(vec![
            Value::Str(s("true")),
            Value::Str(s("42")),
            Value::Str(s("-3.14"))
        ])
    );
}

#[test]
fn test_decode_root_empty_array() {
    let result = decode_default("[0]:").unwrap();
    assert_eq!(result, Value::Array(vec![]));
}

#[test]
fn test_decode_strict_helper() {
    let input = "items[2]: a,b";
    assert!(decode_strict(input).is_ok());

    let input = "items[3]: a,b";
    assert!(decode_strict(input).is_err());
}

#[test]
fn test_strict_length_mismatch_error() {
    // The declared length is three, only two elements are present.
    let result = decode_strict("items[3]: a,b");
    match result {
        Err(ToonError::LengthMismatch { expected, found }) => {
            assert_eq!(expected, 3);
            assert_eq!(found, 2);
        }
        other => panic!("expected a length mismatch, got {:?}", other),
    }
    // The matching declared length succeeds.
    let result = decode_strict("items[2]: a,b").unwrap();
    assert_eq!(
        get(&result, "items"),
        &Value::Array(vec![Value::Str(s("a")), Value::Str(s("b"))])
    );
}

#[test]
fn test_lenient_length_mismatch_accepted() {
    let opts = DecodeOptions::new().with_strict(false);
    let result = decode("items[3]: a,b", &opts).unwrap();
    assert_eq!(
        get(&result, "items"),
        &Value::Array(vec![Value::Str(s("a")), Value::Str(s("b"))])
    );
}

#[test]
fn test_decode_no_coerce_quoted_number() {
    // Quoted strings are never coerced, whatever the flag says.
    let result = decode_no_coerce("value: \"123\"").unwrap();
    assert_eq!(get(&result, "value"), &Value::Str(s("123")));

    let result = decode_default("value: true").unwrap();
    assert_eq!(get(&result, "value"), &Value::Bool(true));
}

#[test]
fn test_decode_pinned_delimiter() {
    let opts = DecodeOptions::new().with_delimiter(Delimiter::Pipe);
    let result = decode("tags[2|]: a|b", &opts).unwrap();
    assert_eq!(
        get(&result, "tags"),
        &Value::Array(vec![Value::Str(s("a")), Value::Str(s("b"))])
    );
}

#[test]
fn test_decode_unexpected_eof_error() {
    let result = decode_default("key: \"open");
    match result {
        Err(ToonError::UnexpectedEof) => {}
        other => panic!("expected unexpected end of input, got {:?}", other),
    }
}

#[test]
fn test_decode_stray_dash_error() {
    let result = decode_default("- loose");
    match result {
        Err(ToonError::InvalidInput(_)) => {}
        other => panic!("expected an invalid-input error, got {:?}", other),
    }
}
