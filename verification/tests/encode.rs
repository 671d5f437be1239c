use rtoon::encode;
use rtoon::encode_array;
use rtoon::encode_default;
use rtoon::encode_object;
use rtoon::EncodeOptions;
use rtoon::ToonError;
use rtoon::Value;

fn s(x: &str) -> String {
    x.to_string()
}

#[test]
fn test_encode_null() {
    let value = Value::Null;
    assert_eq!(encode_default(&value).unwrap(), "null");
}

#[test]
fn test_encode_bool() {
    assert_eq!(encode_default(&Value::Bool(true)).unwrap(), "true");
    assert_eq!(encode_default(&Value::Bool(false)).unwrap(), "false");
}

#[test]
fn test_encode_number() {
    assert_eq!(encode_default(&Value::Int(42)).unwrap(), "42");
    assert_eq!(encode_default(&Value::Float(s("3.14"))).unwrap(), "3.14");
    assert_eq!(encode_default(&Value::Int(-5)).unwrap(), "-5");
}

#[test]
fn test_encode_string() {
    assert_eq!(encode_default(&Value::Str(s("hello"))).unwrap(), "hello");
    assert_eq!(
        encode_default(&Value::Str(s("hello world"))).unwrap(),
        "hello world"
    );
}

#[test]
fn test_encode_simple_object() {
    let obj = Value::Object(vec![
        (s("name"), Value::Str(s("Alice"))),
        (s("age"), Value::Int(30)),
    ]);
    let result = encode_default(&obj).unwrap();
    assert!(result.contains("name: Alice"));
    assert!(result.contains("age: 30"));
}

#[test]
fn test_encode_primitive_array() {
    let obj = Value::Object(vec![(
        s("tags"),
        Value::Array(vec![
            Value::Str(s("reading")),
            Value::Str(s("gaming")),
            Value::Str(s("coding")),
        ]),
    )]);
    let result = encode_default(&obj).unwrap();
    assert_eq!(result, "tags[3]: reading,gaming,coding");
}

#[test]
fn test_encode_primitive_array_compaction() {
    let obj = Value::Object(vec![(
        s("tags"),
        Value::Array(vec![
            Value::Str(s("admin")),
            Value::Str(s("ops")),
            Value::Str(s("dev")),
        ]),
    )]);
    let result = encode_default(&obj).unwrap();
    assert_eq!(result, "tags[3]: admin,ops,dev");
}

#[test]
fn test_encode_tabular_array() {
    let obj = Value::Object(vec![(
        s("users"),
        Value::Array(vec![
            Value::Object(vec![
                (s("id"), Value::Int(1)),
                (s("name"), Value::Str(s("Alice"))),
            ]),
            Value::Object(vec![
                (s("id"), Value::Int(2)),
                (s("name"), Value::Str(s("Bob"))),
            ]),
        ]),
    )]);
    let result = encode_default(&obj).unwrap();
    assert!(result.contains("users[2]{id,name}:"));
    assert!(result.contains("1,Alice"));
    assert!(result.contains("2,Bob"));
}

#[test]
fn test_encode_tabular_exact_text() {
    let obj = Value::Object(vec![(
        s("users"),
        Value::Array(vec![
            Value::Object(vec![
                (s("id"), Value::Int(1)),
                (s("name"), Value::Str(s("Alice"))),
                (s("role"), Value::Str(s("admin"))),
            ]),
            Value::Object(vec![
                (s("id"), Value::Int(2)),
                (s("name"), Value::Str(s("Bob"))),
                (s("role"), Value::Str(s("user"))),
            ]),
        ]),
    )]);
    let result = encode_default(&obj).unwrap();
    assert_eq!(
        result,
        "users[2]{id,name,role}:\n  1,Alice,admin\n  2,Bob,user"
    );
}

#[test]
fn test_encode_empty_array() {
    let obj = Value::Object(vec![(s("items"), Value::Array(vec![]))]);
    let result = encode_default(&obj).unwrap();
    assert_eq!(result, "items[0]:");
}

#[test]
fn test_encode_nested_object() {
    let obj = Value::Object(vec![(
        s("user"),
        Value::Object(vec![
            (s("name"), Value::Str(s("Alice"))),
            (s("age"), Value::Int(30)),
        ]),
    )]);
    let result = encode_default(&obj).unwrap();
    assert!(result.contains("user:"));
    assert!(result.contains("name: Alice"));
    assert!(result.contains("age: 30"));
}

#[test]
fn test_encode_object_type_mismatch() {
    let result = encode_object(&Value::Int(1), &EncodeOptions::default());
    match result {
        Err(ToonError::TypeMismatch { expected, found }) => {
            assert_eq!(expected, "object");
            assert_eq!(found, "number");
        }
        other => panic!("expected a type mismatch, got {:?}", other),
    }
    let ok = encode_object(
        &Value::Object(vec![(s("a"), Value::Int(1))]),
        &EncodeOptions::default(),
    );
    assert!(ok.is_ok());
}

#[test]
fn test_encode_array_type_mismatch() {
    let result = encode_array(
        &Value::Object(vec![(s("a"), Value::Int(1))]),
        &EncodeOptions::default(),
    );
    match result {
        Err(ToonError::TypeMismatch { expected, found }) => {
            assert_eq!(expected, "array");
            assert_eq!(found, "object");
        }
        other => panic!("expected a type mismatch, got {:?}", other),
    }
    let ok = encode_array(&Value::Array(vec![Value::Int(1)]), &EncodeOptions::default());
    assert!(ok.is_ok());
}

#[test]
fn test_encode_normalizes_negative_zero() {
    let obj = Value::Object(vec![(s("x"), Value::Float(s("-0.0")))]);
    let result = encode(&obj, &EncodeOptions::default()).unwrap();
    assert_eq!(result, "x: 0");
}

#[test]
fn test_encode_depth_ceiling() {
    // A value nested deeper than the ceiling is rejected, never written.
    let mut v = Value::Object(vec![(s("leaf"), Value::Int(1))]);
    for _ in 0..300 {
        v = Value::Object(vec![(s("a"), v)]);
    }
    let result = encode_default(&v);
    match result {
        Err(ToonError::InvalidStructure(_)) => {}
        other => panic!("expected an invalid-structure error, got {:?}", other),
    }
}
