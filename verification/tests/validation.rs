use rtoon::validation::validate_depth;
use rtoon::validation::validate_field_name;
use rtoon::validation::validate_value;
use rtoon::Value;

#[test]
fn test_validate_depth() {
    assert!(validate_depth(0, 10).is_ok());
    assert!(validate_depth(5, 10).is_ok());
    assert!(validate_depth(10, 10).is_ok());
    assert!(validate_depth(11, 10).is_err());
}

#[test]
fn test_validate_field_name() {
    assert!(validate_field_name("name").is_ok());
    assert!(validate_field_name("user_id").is_ok());
    assert!(validate_field_name("").is_err());
}

#[test]
fn test_validate_value() {
    assert!(validate_value(&Value::Null).is_ok());
    assert!(validate_value(&Value::Int(123)).is_ok());
    assert!(validate_value(&Value::Str("hello".to_string())).is_ok());
    assert!(validate_value(&Value::Object(vec![(
        "name".to_string(),
        Value::Str("Alice".to_string())
    )]))
    .is_ok());
    assert!(validate_value(&Value::Array(vec![
        Value::Int(1),
        Value::Int(2),
        Value::Int(3)
    ]))
    .is_ok());

    let bad_obj = Value::Object(vec![("".to_string(), Value::Str("value".to_string()))]);
    assert!(validate_value(&bad_obj).is_err());
}
