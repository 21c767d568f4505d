use toon_mcp::error::CoreError;
use toon_mcp::parser::json::JsonParser;
use toon_mcp::parser::{strip_bom, Parser};
use toon_mcp::value::{JsonValue, Number};

fn get<'a>(v: &'a JsonValue, key: &str) -> &'a JsonValue {
    match v {
        JsonValue::Object(m) => &m.iter().find(|(k, _)| k == key).expect("key present").1,
        other => panic!("value must be an object, got {other:?}"),
    }
}

fn duplicate_in(text: &str) -> String {
    match JsonParser.parse(text).expect_err("must reject") {
        CoreError::DuplicateKey { key } => key,
        other => panic!("expected DuplicateKey, got {other:?}"),
    }
}

fn is_syntax_error(text: &str) -> bool {
    matches!(JsonParser.parse(text), Err(CoreError::JsonError(_)))
}

#[test]
fn parse_object() {
    let p = JsonParser;
    let v = p.parse(r#"{"a":1,"b":"two"}"#).unwrap();
    assert!(v.is_object());
    assert_eq!(get(&v, "a"), &JsonValue::Number(Number::PosInt(1)));
}

#[test]
fn parse_array() {
    let p = JsonParser;
    let v = p.parse(r#"[1,2,3]"#).unwrap();
    match v {
        JsonValue::Array(a) => assert_eq!(a.len(), 3),
        other => panic!("expected an array, got {other:?}"),
    }
}

#[test]
fn parse_invalid_returns_error() {
    let p = JsonParser;
    assert!(p.parse("not json").is_err());
}

#[test]
fn parse_truncated_object_returns_error() {
    let p = JsonParser;
    assert!(p.parse(r#"{"id":1,"name":"Alice"#).is_err());
}

#[test]
fn parse_truncated_array_returns_error() {
    let p = JsonParser;
    assert!(p.parse(r#"[1,2,3"#).is_err());
}

#[test]
fn parse_truncated_string_returns_error() {
    let p = JsonParser;
    assert!(p.parse(r#"{"id":"alice"#).is_err());
}

#[test]
fn duplicate_keys_are_rejected() {
    let err = JsonParser.parse(r#"{"a":1,"a":2}"#).expect_err("must reject");
    match err {
        CoreError::DuplicateKey { key } => assert_eq!(key, "a"),
        other => panic!("expected DuplicateKey, got {other:?}"),
    }
}

#[test]
fn nested_duplicate_keys_are_rejected() {
    let err = JsonParser.parse(r#"{"outer":{"k":1,"k":2}}"#).expect_err("must reject");
    match err {
        CoreError::DuplicateKey { key } => assert_eq!(key, "k"),
        other => panic!("expected DuplicateKey, got {other:?}"),
    }
}

#[test]
fn same_key_in_distinct_objects_is_allowed() {
    let v = JsonParser.parse(r#"[{"a":1},{"a":2}]"#).expect("parse");
    match v {
        JsonValue::Array(a) => assert_eq!(a.len(), 2),
        other => panic!("expected an array, got {other:?}"),
    }
}

#[test]
fn json_leading_bom_is_stripped() {
    let v = JsonParser.parse("\u{feff}{\"a\":1}").expect("parse");
    assert_eq!(get(&v, "a"), &JsonValue::Number(Number::PosInt(1)));
}

#[test]
fn only_one_leading_mark_is_stripped() {
    assert_eq!(strip_bom("\u{feff}\u{feff}x"), "\u{feff}x");
    assert_eq!(strip_bom("x\u{feff}"), "x\u{feff}");
    assert_eq!(strip_bom(""), "");
}

#[test]
fn escaped_spellings_of_a_key_are_the_same_key() {
    assert_eq!(duplicate_in(r#"{"a":1,"\u0061":2}"#), "a");
    assert_eq!(duplicate_in(r#"{"x\"y":1,"x\u0022y":2}"#), "x\"y");
    assert_eq!(duplicate_in(r#"{"":null,"":null}"#), "");
}

#[test]
fn duplicates_are_found_at_any_depth_and_among_containers() {
    assert_eq!(duplicate_in(r#"[{"a":[1,{"b":{"c":1}}]},{"k":{"z":[],"z":[]}}]"#), "z");
    assert_eq!(duplicate_in(r#"{"a":{"x":1},"b":[{}],"a":{"y":2}}"#), "a");
    assert_eq!(duplicate_in(r#"{"a":"}{","b":",\"a\":","a":1}"#), "a");
}

#[test]
fn inner_duplicate_is_reported_before_the_outer_one() {
    assert_eq!(duplicate_in(r#"{"o":1,"o":{"i":1,"i":2}}"#), "i");
    assert_eq!(duplicate_in(r#"{"o":1,"o":2,"p":{"i":1,"i":2}}"#), "o");
}

#[test]
fn a_key_repeated_as_a_value_is_no_duplicate() {
    assert!(JsonParser.parse(r#"{"a":"a","b":["a","a"],"c":{"a":{"a":"a"}}}"#).is_ok());
}

#[test]
fn duplicate_before_a_syntax_error_is_reported() {
    assert_eq!(duplicate_in(r#"{"a":1,"a":2} trailing"#), "a");
    assert_eq!(duplicate_in(r#"{"a":1,"a":2"#), "a");
    assert_eq!(duplicate_in(r#"{"a":1,"a":2x}"#), "a");
    assert_eq!(duplicate_in(r#"[{"a":1,"a":nullx"#), "a");
    assert_eq!(duplicate_in(r#"{"a":1,"a":-0.5e+3]"#), "a");
}

#[test]
fn syntax_error_before_a_duplicate_is_reported() {
    assert!(is_syntax_error(r#"{"a":1 "a":2,"a":3}"#));
    assert!(is_syntax_error(r#"[1 2,{"a":1,"a":2}]"#));
    assert!(is_syntax_error(r#"{"a":1,"a":2.}"#));
    assert!(is_syntax_error(r#"{"a":1,"a":tru}"#));
    assert!(is_syntax_error(r#"{"a":1,"a":01}"#));
    assert!(is_syntax_error(r#"{"a":1,"a":"unterminated"#));
    assert!(is_syntax_error(r#"{"a":1,"a":1e999}"#));
    assert!(is_syntax_error("{\"a\":1,\"a\":\"line\nbreak\"}"));
    assert!(is_syntax_error(r#"}{"a":1,"a":2}"#));
}

#[test]
fn numbers_keep_their_representation() {
    let v = JsonParser.parse(r#"[0, -1, 18446744073709551615, 2.50, 1e2, -0.0]"#).unwrap();
    assert_eq!(
        v,
        JsonValue::Array(vec![
            JsonValue::Number(Number::PosInt(0)),
            JsonValue::Number(Number::NegInt(-1)),
            JsonValue::Number(Number::PosInt(u64::MAX)),
            JsonValue::Number(Number::Float("2.5".to_string())),
            JsonValue::Number(Number::Float("100.0".to_string())),
            JsonValue::Number(Number::Float("-0.0".to_string())),
        ])
    );
}

#[test]
fn members_keep_document_order() {
    let v = JsonParser.parse(r#"{"z":1,"a":2,"m":3}"#).unwrap();
    match v {
        JsonValue::Object(m) => {
            let names: Vec<&str> = m.iter().map(|(k, _)| k.as_str()).collect();
            assert_eq!(names, vec!["z", "a", "m"]);
        }
        other => panic!("expected an object, got {other:?}"),
    }
}

#[test]
fn messages_describe_the_error() {
    let e = JsonParser.parse("{").expect_err("must fail");
    assert!(e.message().starts_with("JSON parse error: EOF while parsing an object"));
    let e = JsonParser.parse(r#"{"k":1,"k":2}"#).expect_err("must fail");
    assert_eq!(e.message(), "duplicate object key: k");
}
