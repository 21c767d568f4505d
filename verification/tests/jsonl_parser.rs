use toon_mcp::detector::InputFormat;
use toon_mcp::error::CoreError;
use toon_mcp::parser::jsonl::JsonlParser;
use toon_mcp::parser::Parser;
use toon_mcp::value::{JsonValue, Number};

fn items(v: &JsonValue) -> &Vec<JsonValue> {
    match v {
        JsonValue::Array(a) => a,
        other => panic!("value must be an array, got {other:?}"),
    }
}

fn get<'a>(v: &'a JsonValue, key: &str) -> &'a JsonValue {
    match v {
        JsonValue::Object(m) => &m.iter().find(|(k, _)| k == key).expect("key present").1,
        other => panic!("value must be an object, got {other:?}"),
    }
}

fn integer(i: u64) -> JsonValue {
    JsonValue::Number(Number::PosInt(i))
}

fn text(s: &str) -> JsonValue {
    JsonValue::String(s.to_string())
}

#[test]
fn parse_uniform_objects() {
    let input = r#"{"id":1,"name":"Alice"}
{"id":2,"name":"Bob"}
{"id":3,"name":"Carol"}"#;
    let p = JsonlParser;
    let v = p.parse(input).unwrap();
    let arr = items(&v);
    assert_eq!(arr.len(), 3);
    assert_eq!(get(&arr[0], "id"), &integer(1));
    assert_eq!(get(&arr[1], "name"), &text("Bob"));
}

#[test]
fn parse_mixed_types() {
    let input = "42\n\"hello\"\ntrue";
    let p = JsonlParser;
    let v = p.parse(input).unwrap();
    let arr = items(&v);
    assert_eq!(arr.len(), 3);
    assert_eq!(arr[0], integer(42));
    assert_eq!(arr[1], text("hello"));
    assert_eq!(arr[2], JsonValue::Bool(true));
}

#[test]
fn parse_malformed_line_returns_error() {
    let input = r#"{"id":1}
not json
{"id":3}"#;
    let p = JsonlParser;
    let err = p.parse(input).unwrap_err();
    match err {
        CoreError::ParseFailed { format, line, .. } => {
            assert_eq!(format, InputFormat::Jsonl);
            assert_eq!(line, 2);
        }
        other => panic!("unexpected error: {other:?}"),
    }
}

#[test]
fn malformed_line_after_blank_lines_reports_physical_line() {
    let input = "\n\n{\"id\":1}\nnot json";
    let p = JsonlParser;
    let err = p.parse(input).unwrap_err();
    match err {
        CoreError::ParseFailed { format, line, .. } => {
            assert_eq!(format, InputFormat::Jsonl);
            assert_eq!(line, 4);
        }
        other => panic!("unexpected error: {other:?}"),
    }
}

#[test]
fn empty_lines_are_skipped() {
    let input = "\n{\"a\":1}\n\n{\"b\":2}\n";
    let p = JsonlParser;
    let v = p.parse(input).unwrap();
    assert_eq!(items(&v).len(), 2);
}

#[test]
fn empty_input_returns_empty_array() {
    let p = JsonlParser;
    let v = p.parse("").unwrap();
    assert!(items(&v).is_empty());
}

#[test]
fn whitespace_only_returns_empty_array() {
    let p = JsonlParser;
    let v = p.parse("   \n\t\n  ").unwrap();
    assert!(items(&v).is_empty());
}

#[test]
fn unicode_field_names_and_values_parse() {
    let input = "{\"名前\":\"太郎\"}\n{\"名前\":\"花子\"}";
    let p = JsonlParser;
    let v = p.parse(input).unwrap();
    let arr = items(&v);
    assert_eq!(arr.len(), 2);
    assert_eq!(get(&arr[0], "名前"), &text("太郎"));
}

#[test]
fn jsonl_leading_bom_is_stripped() {
    let v = JsonlParser.parse("\u{feff}{\"a\":1}\n{\"a\":2}").expect("parse");
    assert_eq!(items(&v).len(), 2);
}

#[test]
fn carriage_returns_and_unicode_space_are_trimmed() {
    let v = JsonlParser.parse("\u{3000}1\u{a0}\r\n2\r\n\u{2028}\n3\r").expect("parse");
    assert_eq!(v, JsonValue::Array(vec![integer(1), integer(2), integer(3)]));
}

#[test]
fn lines_read_in_order() {
    let rows = ["null", "[1,2]", "{\"k\":\"v\"}"];
    let v = JsonlParser.parse(&rows.join("\n")).expect("parse");
    assert_eq!(
        v,
        JsonValue::Array(vec![
            JsonValue::Null,
            JsonValue::Array(vec![integer(1), integer(2)]),
            JsonValue::Object(vec![("k".to_string(), text("v"))]),
        ])
    );
}

#[test]
fn failure_message_names_the_line() {
    let err = JsonlParser.parse("1\n\n{").unwrap_err();
    assert!(err.message().starts_with("JSONL parse failed at line 3: EOF while parsing"));
}
