use rtoon::decode_default;
use rtoon::encode_default;
use rtoon::ToonError;
use rtoon::Value;

fn s(x: &str) -> String {
    x.to_string()
}

fn get<'a>(v: &'a Value, key: &str) -> &'a Value {
    match v {
        Value::Object(o) => {
            for (k, val) in o.iter() {
                if k == key {
                    return val;
                }
            }
            panic!("key {} not found", key);
        }
        _ => panic!("not an object"),
    }
}

#[test]
fn test_decode_leading_zero_integer() {
    // A run of digits with leading zeros still parses as an integer.
    assert_eq!(decode_default("007").unwrap(), Value::Int(7));
}

#[test]
fn test_decode_negative_zero_integer() {
    assert_eq!(decode_default("-0").unwrap(), Value::Int(0));
}

#[test]
fn test_decode_integer_bounds() {
    assert_eq!(
        decode_default("9223372036854775807").unwrap(),
        Value::Int(i64::MAX)
    );
    assert_eq!(
        decode_default("-9223372036854775808").unwrap(),
        Value::Int(i64::MIN)
    );
    // One past the signed range is no integer: it falls back to a string.
    assert_eq!(
        decode_default("9223372036854775808").unwrap(),
        Value::Str(s("9223372036854775808"))
    );
}

#[test]
fn test_encode_integer_bounds() {
    assert_eq!(
        encode_default(&Value::Int(i64::MAX)).unwrap(),
        "9223372036854775807"
    );
    assert_eq!(
        encode_default(&Value::Int(i64::MIN)).unwrap(),
        "-9223372036854775808"
    );
}

#[test]
fn test_decode_float_forms() {
    assert_eq!(decode_default("1e6").unwrap(), Value::Float(s("1e6")));
    assert_eq!(
        decode_default("1.5e-10").unwrap(),
        Value::Float(s("1.5e-10"))
    );
    assert_eq!(decode_default("-2.5").unwrap(), Value::Float(s("-2.5")));
    // A malformed numeric run falls back to a string.
    assert_eq!(decode_default("1.2.3").unwrap(), Value::Str(s("1.2.3")));
}

#[test]
fn test_round_trip_float() {
    let v = Value::Object(vec![(s("score"), Value::Float(s("3.14")))]);
    let encoded = encode_default(&v).unwrap();
    assert_eq!(encoded, "score: 3.14");
    let decoded = decode_default(&encoded).unwrap();
    assert_eq!(v, decoded);
}

#[test]
fn test_missing_element_parse_error() {
    // A trailing delimiter leaves nothing to parse where a value is owed.
    let result = decode_default("items[3]: a,b,");
    match result {
        Err(ToonError::ParseError { .. }) => {}
        other => panic!("expected a parse error, got {:?}", other),
    }
}

#[test]
fn test_tabular_row_underrun() {
    // Two rows declared, one present: strict mode reports the mismatch.
    let result = decode_default("users[2]{id}:\n  1");
    match result {
        Err(ToonError::LengthMismatch { expected, found }) => {
            assert_eq!(expected, 2);
            assert_eq!(found, 1);
        }
        other => panic!("expected a length mismatch, got {:?}", other),
    }
    let v = decode_default("users[1]{id}:\n  1").unwrap();
    assert_eq!(
        get(&v, "users"),
        &Value::Array(vec![Value::Object(vec![(s("id"), Value::Int(1))])])
    );
}
