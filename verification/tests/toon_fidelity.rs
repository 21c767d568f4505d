use toon_mcp::classifier::{Classifier, ShapeClass};
use toon_mcp::evals::toonkit::{decode_pipeline, encode_pipeline, parse_to_value};
use toon_mcp::fidelity::values_equiv;
use toon_mcp::parser::json::JsonParser;
use toon_mcp::parser::Parser;
use toon_mcp::value::{JsonValue, Number};

fn json(text: &str) -> JsonValue {
    JsonParser.parse(text).expect("valid JSON")
}

fn as_f64(n: &Number) -> f64 {
    match n {
        Number::PosInt(u) => *u as f64,
        Number::NegInt(i) => *i as f64,
        Number::Float(t) => t.parse().expect("decimal text"),
    }
}

fn close(x: &Number, y: &Number) -> bool {
    let (fx, fy) = (as_f64(x), as_f64(y));
    (fx - fy).abs() <= 1e-9 * fx.abs().max(fy.abs()).max(1.0)
}

fn assert_round_trips(value: &JsonValue) {
    let toon = encode_pipeline(value).expect("encode must succeed");
    let decoded = decode_pipeline(&toon).expect("decode must succeed");
    assert!(
        values_equiv(value, &decoded, &close),
        "round trip drifted\noriginal: {value:?}\nencoded:\n{toon}\ndecoded: {decoded:?}"
    );
}

#[test]
fn unicode_keys_round_trip() {
    assert_round_trips(&json(
        r#"[
            {"名前": "Alice", "都市": "東京"},
            {"名前": "Bob", "都市": "大阪"},
            {"名前": "Eve", "都市": "京都"}
        ]"#,
    ));
}

#[test]
fn empty_strings_round_trip() {
    assert_round_trips(&json(
        r#"[
            {"a": "", "b": "x"},
            {"a": "y", "b": ""},
            {"a": "", "b": ""}
        ]"#,
    ));
}

#[test]
fn null_values_round_trip() {
    assert_round_trips(&json(
        r#"[
            {"id": 1, "note": null},
            {"id": 2, "note": "set"},
            {"id": 3, "note": null}
        ]"#,
    ));
}

#[test]
fn nested_arrays_inside_tabular_rows_round_trip() {
    assert_round_trips(&json(
        r#"[
            {"id": 1, "tags": ["a", "b"]},
            {"id": 2, "tags": []},
            {"id": 3, "tags": ["c", "d", "e"]}
        ]"#,
    ));
}

#[test]
fn keys_containing_active_delimiter_round_trip() {
    assert_round_trips(&json(
        r#"[
            {"last,first": "Doe,Jane", "id": 1},
            {"last,first": "Roe,Rick", "id": 2},
            {"last,first": "Poe,Edgar", "id": 3}
        ]"#,
    ));
}

#[test]
fn tables_round_trip() {
    let cells = [
        JsonValue::Null,
        JsonValue::Bool(true),
        JsonValue::Number(Number::NegInt(-9_007_199_254_740_992)),
        JsonValue::Number(Number::PosInt(9_007_199_254_740_992)),
        JsonValue::Number(Number::Float("0.125".to_string())),
        JsonValue::String("a, b: \"c\" #".to_string()),
        JsonValue::String("- 05".to_string()),
    ];
    let rows: Vec<JsonValue> = cells
        .iter()
        .map(|c| {
            JsonValue::Object(vec![
                ("left".to_string(), c.duplicate()),
                ("right_1".to_string(), JsonValue::String("x".to_string())),
            ])
        })
        .collect();
    let value = JsonValue::Array(rows);
    assert_eq!(Classifier::classify(&value), ShapeClass::Tabular);
    assert_round_trips(&value);
}

#[test]
fn folded_chain_is_one_line() {
    let mut value = JsonValue::String("leaf".to_string());
    for key in ["e", "d_1", "c", "b", "a"] {
        value = JsonValue::Object(vec![(key.to_string(), value)]);
    }
    assert_eq!(encode_pipeline(&value).unwrap(), "a.b.c.d_1.e: leaf");
    assert_round_trips(&value);
}

#[test]
fn mixed_primitives_round_trip() {
    assert_round_trips(&json(r#"[1, -2.5, "x y", true, null, "", "true", "42"]"#));
}

#[test]
fn malformed_toon_is_an_error() {
    let err = decode_pipeline("items[3]: a,b").expect_err("length mismatch");
    assert!(err.starts_with("decode failed: "));
}

#[test]
fn payloads_parse_by_format_name() {
    assert!(parse_to_value("json", "[1]", true).is_ok());
    assert!(parse_to_value("jsonl", "1\n2", true).is_ok());
    assert_eq!(
        parse_to_value("csv", "a,b\n1,2", false).unwrap(),
        parse_to_value("tsv", "a\tb\n1\t2", false).unwrap()
    );
    assert_eq!(parse_to_value("xml", "<a/>", true).unwrap_err(), "unknown format `xml`");
    let err = parse_to_value("json", "{", true).unwrap_err();
    assert!(err.starts_with("parse failed: JSON parse error: "));
}
