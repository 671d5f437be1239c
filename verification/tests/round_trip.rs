use rtoon::decode_default;
use rtoon::encode;
use rtoon::encode_default;
use rtoon::normalize;
use rtoon::Delimiter;
use rtoon::EncodeOptions;
use rtoon::Value;

fn s(x: &str) -> String {
    x.to_string()
}

fn simple_object() -> Value {
    Value::Object(vec![
        (s("name"), Value::Str(s("Alice"))),
        (s("age"), Value::Int(30)),
    ])
}

#[test]
fn test_round_trip_simple() {
    let original = simple_object();
    let encoded = encode_default(&original).unwrap();
    let decoded = decode_default(&encoded).unwrap();
    assert_eq!(original, decoded);
}

#[test]
fn test_round_trip_array() {
    let original = Value::Object(vec![(
        s("tags"),
        Value::Array(vec![
            Value::Str(s("reading")),
            Value::Str(s("gaming")),
            Value::Str(s("coding")),
        ]),
    )]);
    let encoded = encode_default(&original).unwrap();
    let decoded = decode_default(&encoded).unwrap();
    assert_eq!(original, decoded);
}

#[test]
fn test_round_trip_tabular() {
    let original = Value::Object(vec![(
        s("users"),
        Value::Array(vec![
            Value::Object(vec![
                (s("id"), Value::Int(1)),
                (s("name"), Value::Str(s("Alice"))),
                (s("role"), Value::Str(s("admin"))),
            ]),
            Value::Object(vec![
                (s("id"), Value::Int(2)),
                (s("name"), Value::Str(s("Bob"))),
                (s("role"), Value::Str(s("user"))),
            ]),
        ]),
    )]);
    let encoded = encode_default(&original).unwrap();
    let decoded = decode_default(&encoded).unwrap();
    assert_eq!(original, decoded);
}

#[test]
fn test_custom_delimiter() {
    let original = Value::Object(vec![(
        s("tags"),
        Value::Array(vec![
            Value::Str(s("a")),
            Value::Str(s("b")),
            Value::Str(s("c")),
        ]),
    )]);
    let opts = EncodeOptions::new().with_delimiter(Delimiter::Pipe);
    let encoded = encode(&original, &opts).unwrap();
    assert!(encoded.contains("|"));

    let decoded = decode_default(&encoded).unwrap();
    assert_eq!(original, decoded);
}

#[test]
fn test_length_marker() {
    let original = Value::Object(vec![(
        s("tags"),
        Value::Array(vec![
            Value::Str(s("a")),
            Value::Str(s("b")),
            Value::Str(s("c")),
        ]),
    )]);
    let opts = EncodeOptions::new().with_length_marker('#');
    let encoded = encode(&original, &opts).unwrap();
    assert!(encoded.contains("[#3]"));

    let decoded = decode_default(&encoded).unwrap();
    assert_eq!(original, decoded);
}

#[test]
fn test_comprehensive_round_trips() {
    let test_cases: Vec<Value> = vec![
        Value::Null,
        Value::Bool(true),
        Value::Bool(false),
        Value::Int(42),
        Value::Int(-42),
        Value::Float(s("3.14")),
        Value::Str(s("hello")),
        Value::Str(s("")),
        Value::Object(vec![(s("key"), Value::Str(s("value")))]),
        Value::Object(vec![
            (s("a"), Value::Int(1)),
            (s("b"), Value::Int(2)),
            (s("c"), Value::Int(3)),
        ]),
        Value::Object(vec![(
            s("nested"),
            Value::Object(vec![(s("key"), Value::Str(s("value")))]),
        )]),
        Value::Object(vec![(
            s("array"),
            Value::Array(vec![Value::Int(1), Value::Int(2), Value::Int(3)]),
        )]),
        Value::Object(vec![(
            s("mixed"),
            Value::Array(vec![
                Value::Int(1),
                Value::Str(s("two")),
                Value::Bool(true),
                Value::Null,
            ]),
        )]),
        Value::Object(vec![(
            s("users"),
            Value::Array(vec![
                Value::Object(vec![
                    (s("id"), Value::Int(1)),
                    (s("name"), Value::Str(s("Alice"))),
                ]),
                Value::Object(vec![
                    (s("id"), Value::Int(2)),
                    (s("name"), Value::Str(s("Bob"))),
                ]),
            ]),
        )]),
        Value::Object(vec![(s("empty_array"), Value::Array(vec![]))]),
        Value::Object(vec![(s("empty_object"), Value::Object(vec![]))]),
    ];

    for (i, case) in test_cases.into_iter().enumerate() {
        let encoded = encode_default(&case)
            .unwrap_or_else(|e| panic!("Failed to encode case {}: {:?}", i, e));
        let decoded = decode_default(&encoded)
            .unwrap_or_else(|e| panic!("Failed to decode case {}: {:?}", i, e));
        let normalized = normalize(case);
        assert_eq!(
            normalized, decoded,
            "Round-trip failed for case {}: decoded {:?}",
            i, decoded
        );
    }
}

#[test]
fn test_round_trip_unquoted_number_lookalikes() {
    // Runs over the numeric alphabet that fail the numeric grammar stay
    // bare strings and survive the round trip unquoted.
    for case in ["1..2", "1+2", "1e"] {
        let original = Value::Object(vec![(s("v"), Value::Str(s(case)))]);
        let encoded = encode_default(&original).unwrap();
        assert!(!encoded.contains('"'), "unexpected quoting in {:?}", encoded);
        let decoded = decode_default(&encoded).unwrap();
        assert_eq!(original, decoded, "failed for {:?}", case);
    }
}

#[test]
fn test_round_trip_quoted_strings() {
    // Strings that must be quoted come back identical after a round trip.
    let cases = vec![
        s(""),
        s(" padded "),
        s("true"),
        s("42"),
        s("a,b"),
        s("colon:here"),
        s("line\nbreak"),
        s("tab\there"),
        s("say \"hi\""),
        s("back\\slash"),
        s("- dashed"),
        s("[brackets]"),
    ];
    for case in cases {
        let original = Value::Object(vec![(s("v"), Value::Str(case.clone()))]);
        let encoded = encode_default(&original).unwrap();
        let decoded = decode_default(&encoded).unwrap();
        assert_eq!(original, decoded, "failed for {:?}", case);
    }
}
