use rtoon::normalize;
use rtoon::Value;

fn s(x: &str) -> String {
    x.to_string()
}

#[test]
fn test_normalize_negative_zero() {
    let value = Value::Float(s("-0.0"));
    let normalized = normalize(value);
    assert_eq!(normalized, Value::Int(0));
}

#[test]
fn test_normalize_negative_zero_exponent() {
    // Still a zero, whatever the exponent says.
    assert_eq!(normalize(Value::Float(s("-0.00e5"))), Value::Int(0));
    // A positive zero is left as it is.
    assert_eq!(normalize(Value::Float(s("0.0"))), Value::Float(s("0.0")));
    // A negative non-zero is left as it is.
    assert_eq!(normalize(Value::Float(s("-0.5"))), Value::Float(s("-0.5")));
}

#[test]
fn test_normalize_normal_values() {
    let value = Value::Object(vec![
        (s("name"), Value::Str(s("Alice"))),
        (s("age"), Value::Int(30)),
        (s("score"), Value::Float(s("3.14"))),
    ]);
    let normalized = normalize(Value::Object(vec![
        (s("name"), Value::Str(s("Alice"))),
        (s("age"), Value::Int(30)),
        (s("score"), Value::Float(s("3.14"))),
    ]));
    assert_eq!(normalized, value);
}

#[test]
fn test_normalize_nested_negative_zero() {
    let value = Value::Object(vec![(
        s("d"),
        Value::Array(vec![
            Value::Int(1),
            Value::Float(s("-0.0")),
            Value::Int(3),
        ]),
    )]);
    let normalized = normalize(value);
    assert_eq!(
        normalized,
        Value::Object(vec![(
            s("d"),
            Value::Array(vec![Value::Int(1), Value::Int(0), Value::Int(3)])
        )])
    );
}
