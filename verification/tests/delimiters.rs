use rtoon::decode_default;
use rtoon::encode;
use rtoon::encode_default;
use rtoon::Delimiter;
use rtoon::EncodeOptions;
use rtoon::Value;

fn s(x: &str) -> String {
    x.to_string()
}

fn tags(values: &[&str]) -> Value {
    Value::Object(vec![(
        s("tags"),
        Value::Array(values.iter().map(|v| Value::Str(s(v))).collect()),
    )])
}

#[test]
fn test_delimiter_variants() {
    let data = tags(&["a", "b", "c"]);

    let encoded = encode_default(&data).unwrap();
    assert!(encoded.contains("a,b,c"));
    let decoded = decode_default(&encoded).unwrap();
    assert_eq!(data, decoded);

    let opts = EncodeOptions::new().with_delimiter(Delimiter::Pipe);
    let encoded = encode(&data, &opts).unwrap();
    assert!(encoded.contains("a|b|c"));
    let decoded = decode_default(&encoded).unwrap();
    assert_eq!(data, decoded);

    let opts = EncodeOptions::new().with_delimiter(Delimiter::Tab);
    let encoded = encode(&data, &opts).unwrap();
    assert!(encoded.contains("a\tb\tc"));
    let decoded = decode_default(&encoded).unwrap();
    assert_eq!(data, decoded);
}

#[test]
fn test_pipe_delimiter_exact_text() {
    let data = tags(&["a", "b", "c"]);
    let opts = EncodeOptions::new().with_delimiter(Delimiter::Pipe);
    let encoded = encode(&data, &opts).unwrap();
    assert_eq!(encoded, "tags[3|]: a|b|c");
    let decoded = decode_default(&encoded).unwrap();
    assert_eq!(data, decoded);
}

#[test]
fn test_length_markers() {
    let data = Value::Object(vec![(
        s("items"),
        Value::Array(vec![
            Value::Int(1),
            Value::Int(2),
            Value::Int(3),
            Value::Int(4),
            Value::Int(5),
        ]),
    )]);

    let opts = EncodeOptions::new().with_length_marker('#');
    let encoded = encode(&data, &opts).unwrap();
    assert!(encoded.contains("#5"));
    let decoded = decode_default(&encoded).unwrap();
    assert_eq!(data, decoded);

    let encoded = encode_default(&data).unwrap();
    assert!(encoded.contains("[5]"));
    let decoded = decode_default(&encoded).unwrap();
    assert_eq!(data, decoded);
}

#[test]
fn test_delimiter_in_values() {
    let data = tags(&["a,b", "c|d", "e\tf"]);

    let encoded = encode_default(&data).unwrap();
    assert!(encoded.contains("\"a,b\""));
    let decoded = decode_default(&encoded).unwrap();
    assert_eq!(data, decoded);

    let opts = EncodeOptions::new().with_delimiter(Delimiter::Pipe);
    let encoded = encode(&data, &opts).unwrap();
    assert!(encoded.contains("\"c|d\""));
    let decoded = decode_default(&encoded).unwrap();
    assert_eq!(data, decoded);
}
