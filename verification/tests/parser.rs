use rtoon::parser::Parser;
use rtoon::DecodeOptions;
use rtoon::ToonResult;
use rtoon::Value;

fn parse(input: &str) -> ToonResult<Value> {
    let mut parser = Parser::new(input, DecodeOptions::default());
    parser.parse()
}

fn s(x: &str) -> String {
    x.to_string()
}

fn get<'a>(v: &'a Value, key: &str) -> &'a Value {
    match v {
        Value::Object(o) => {
            for (k, val) in o.iter() {
                if k == key {
                    return val;
                }
            }
            panic!("key {} not found", key);
        }
        _ => panic!("not an object"),
    }
}

#[test]
fn test_parse_primitives() {
    assert_eq!(parse("null").unwrap(), Value::Null);
    assert_eq!(parse("true").unwrap(), Value::Bool(true));
    assert_eq!(parse("false").unwrap(), Value::Bool(false));
    assert_eq!(parse("42").unwrap(), Value::Int(42));
    assert_eq!(parse("3.14").unwrap(), Value::Float(s("3.14")));
    assert_eq!(parse("hello").unwrap(), Value::Str(s("hello")));
}

#[test]
fn test_parse_object() {
    let result = parse("name: Alice\nage: 30").unwrap();
    assert_eq!(get(&result, "name"), &Value::Str(s("Alice")));
    assert_eq!(get(&result, "age"), &Value::Int(30));
}

#[test]
fn test_parse_primitive_array() {
    let result = parse("tags[3]: a,b,c").unwrap();
    assert_eq!(
        get(&result, "tags"),
        &Value::Array(vec![
            Value::Str(s("a")),
            Value::Str(s("b")),
            Value::Str(s("c"))
        ])
    );
}

#[test]
fn test_parse_empty_array() {
    let result = parse("items[0]:").unwrap();
    assert_eq!(get(&result, "items"), &Value::Array(vec![]));
}

#[test]
fn test_parse_tabular_array() {
    let result = parse("users[2]{id,name}:\n  1,Alice\n  2,Bob").unwrap();
    assert_eq!(
        get(&result, "users"),
        &Value::Array(vec![
            Value::Object(vec![
                (s("id"), Value::Int(1)),
                (s("name"), Value::Str(s("Alice")))
            ]),
            Value::Object(vec![
                (s("id"), Value::Int(2)),
                (s("name"), Value::Str(s("Bob")))
            ]),
        ])
    );
}

#[test]
fn test_parse_depth_ceiling() {
    // 300 levels of `key:` followed by an indented line: deeper than the
    // 256-level ceiling, so the parse must fail rather than recurse on.
    let mut input = String::from("a:");
    for _ in 0..300 {
        input.push_str("\n a:");
    }
    let result = parse(&input);
    match result {
        Err(rtoon::ToonError::InvalidStructure(_)) => {}
        other => panic!("expected an invalid-structure error, got {:?}", other),
    }
}
