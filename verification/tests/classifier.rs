use toon_mcp::classifier::{Classifier, ClassifyConfig, ShapeClass};
use toon_mcp::parser::json::JsonParser;
use toon_mcp::parser::Parser;
use toon_mcp::value::{JsonValue, Number};

fn json(text: &str) -> JsonValue {
    JsonParser.parse(text).expect("valid JSON")
}

#[test]
fn classify_tabular() {
    let v = json(
        r#"[
            {"id": 1, "name": "Alice", "score": 9.5},
            {"id": 2, "name": "Bob",   "score": 8.0},
            {"id": 3, "name": "Carol", "score": 7.5}
        ]"#,
    );
    assert_eq!(Classifier::classify(&v), ShapeClass::Tabular);
}

#[test]
fn tabular_requires_min_rows() {
    let v = json(r#"[{"id": 1, "name": "Alice"}, {"id": 2, "name": "Bob"}]"#);
    assert_ne!(Classifier::classify(&v), ShapeClass::Tabular);
}

#[test]
fn tabular_requires_uniform_keys() {
    let v = json(
        r#"[{"id": 1, "name": "Alice"}, {"id": 2, "extra": "foo"}, {"id": 3, "name": "Carol"}]"#,
    );
    assert_ne!(Classifier::classify(&v), ShapeClass::Tabular);
}

#[test]
fn tabular_requires_primitive_values() {
    let v = json(
        r#"[{"id": 1, "nested": {"x": 1}}, {"id": 2, "nested": {"x": 2}}, {"id": 3, "nested": {"x": 3}}]"#,
    );
    assert_ne!(Classifier::classify(&v), ShapeClass::Tabular);
}

#[test]
fn classify_fold_chain() {
    let v = json(r#"{"a": {"b": {"c": {"d": "leaf"}}}}"#);
    assert_eq!(Classifier::classify(&v), ShapeClass::FoldChain);
}

#[test]
fn fold_chain_requires_min_depth() {
    let v = json(r#"{"a": {"b": "leaf"}}"#);
    assert_ne!(Classifier::classify(&v), ShapeClass::FoldChain);
}

#[test]
fn classify_primitive_array() {
    let v = json("[1, 2, 3, 4, 5, 6]");
    assert_eq!(Classifier::classify(&v), ShapeClass::PrimitiveArray);
}

#[test]
fn primitive_array_requires_min_length() {
    let v = json("[1, 2, 3, 4]");
    assert_ne!(Classifier::classify(&v), ShapeClass::PrimitiveArray);
}

#[test]
fn classify_mixed() {
    let v = json(r#"[{"id": 1}, {"id": 2, "extra": "foo"}, {"id": 3}]"#);
    assert_eq!(Classifier::classify(&v), ShapeClass::Mixed);
}

#[test]
fn classify_pass_through_scalar() {
    assert_eq!(
        Classifier::classify(&JsonValue::Number(Number::PosInt(42))),
        ShapeClass::PassThrough
    );
    assert_eq!(
        Classifier::classify(&JsonValue::String("hello".to_string())),
        ShapeClass::PassThrough
    );
}

#[test]
fn classify_pass_through_short_array() {
    let v = json("[1, 2]");
    assert_eq!(Classifier::classify(&v), ShapeClass::PassThrough);
}

#[test]
fn classify_pass_through_multi_key_object() {
    let v = json(r#"{"a": 1, "b": 2}"#);
    assert_eq!(Classifier::classify(&v), ShapeClass::PassThrough);
}

#[test]
fn wrapper_object_with_tabular_array_escalates_to_mixed() {
    let v = json(
        r#"{
            "exported_at": "2026-02-18T17:09:35.757Z",
            "total_tweets": 3,
            "tweets": [
                {"id": 1, "user": "a", "text": "hello"},
                {"id": 2, "user": "b", "text": "world"},
                {"id": 3, "user": "c", "text": "!"}
            ]
        }"#,
    );
    assert_eq!(Classifier::classify(&v), ShapeClass::Mixed);
}

#[test]
fn wrapper_object_with_fold_chain_escalates_to_mixed() {
    let v = json(r#"{"meta": "anything", "deep": {"a": {"b": {"c": "leaf"}}}}"#);
    assert_eq!(Classifier::classify(&v), ShapeClass::Mixed);
}

#[test]
fn wrapper_object_with_primitive_array_escalates_to_mixed() {
    let v = json(r#"{"name": "ids", "values": [1, 2, 3, 4, 5, 6]}"#);
    assert_eq!(Classifier::classify(&v), ShapeClass::Mixed);
}

#[test]
fn deeply_nested_envelope_reaches_encoder() {
    let v = json(
        r#"{
            "data": {
                "results": {
                    "items": [
                        {"id": 1, "name": "a"},
                        {"id": 2, "name": "b"},
                        {"id": 3, "name": "c"}
                    ]
                }
            }
        }"#,
    );
    assert_ne!(Classifier::classify(&v), ShapeClass::PassThrough);
}

#[test]
fn multi_key_envelope_with_deep_tabular_escalates_to_mixed() {
    let v = json(
        r#"{
            "version": 1,
            "data": {"results": [
                {"id": 1, "name": "a"},
                {"id": 2, "name": "b"},
                {"id": 3, "name": "c"}
            ]}
        }"#,
    );
    assert_eq!(Classifier::classify(&v), ShapeClass::Mixed);
}

#[test]
fn tabular_min_rows_zero_does_not_panic() {
    let config = ClassifyConfig { tabular_min_rows: 0, ..ClassifyConfig::default() };
    let v = json(r#"[{"id": 1}]"#);
    let _ = Classifier::classify_with(&v, &config);
}

#[test]
fn fold_min_depth_zero_does_not_panic() {
    let config = ClassifyConfig { fold_min_depth: 0, ..ClassifyConfig::default() };
    let v = json(r#"{"a": "leaf"}"#);
    let _ = Classifier::classify_with(&v, &config);
}

fn chain(depth: usize) -> JsonValue {
    let mut acc = JsonValue::String("leaf".to_string());
    for i in 0..depth {
        acc = JsonValue::Object(vec![(format!("k{i}"), acc)]);
    }
    acc
}

#[test]
fn deep_fold_chain_exceeding_internal_cap_does_not_overflow() {
    const DEPTH: usize = 300;
    let _ = Classifier::classify(&chain(DEPTH));
}

#[test]
fn primitive_array_min_zero_does_not_panic() {
    let config = ClassifyConfig { primitive_array_min: 0, ..ClassifyConfig::default() };
    let v = json("[1]");
    let _ = Classifier::classify_with(&v, &config);
}

#[test]
fn fold_chain_cap_is_exact() {
    assert_eq!(Classifier::classify(&chain(256)), ShapeClass::FoldChain);
    assert_eq!(Classifier::classify(&chain(257)), ShapeClass::Mixed);
    assert_eq!(Classifier::classify(&chain(3)), ShapeClass::FoldChain);
    assert_eq!(Classifier::classify(&chain(2)), ShapeClass::PassThrough);
}

#[test]
fn uniform_objects_with_keys_in_any_order_are_tabular() {
    let v = json(r#"[{"a": 1, "b": null}, {"b": true, "a": "x"}, {"a": 2.5, "b": ""}]"#);
    assert_eq!(Classifier::classify(&v), ShapeClass::Tabular);
}

#[test]
fn lower_row_minimum_makes_small_arrays_tabular() {
    let config = ClassifyConfig { tabular_min_rows: 2, ..ClassifyConfig::default() };
    let v = json(r#"[{"id": 1, "name": "Alice"}, {"id": 2, "name": "Bob"}]"#);
    assert_eq!(Classifier::classify_with(&v, &config), ShapeClass::Tabular);
}

#[test]
fn empty_array_is_never_tabular() {
    let config = ClassifyConfig { tabular_min_rows: 0, ..ClassifyConfig::default() };
    assert_eq!(
        Classifier::classify_with(&JsonValue::Array(vec![]), &config),
        ShapeClass::Mixed
    );
}

#[test]
fn beneficial_scan_stops_at_its_depth() {
    // An object chain with a second key at each level, ending in a table.
    fn envelope(depth: usize) -> JsonValue {
        let mut acc = JsonValue::Array(vec![
            JsonValue::Null, JsonValue::Null, JsonValue::Null, JsonValue::Null, JsonValue::Null,
        ]);
        for _ in 0..depth {
            acc = JsonValue::Object(vec![
                ("x".to_string(), JsonValue::Bool(true)),
                ("y".to_string(), acc),
            ]);
        }
        acc
    }
    assert_eq!(Classifier::classify(&envelope(7)), ShapeClass::Mixed);
    assert_eq!(Classifier::classify(&envelope(8)), ShapeClass::PassThrough);
}

#[test]
fn shape_names_are_stable() {
    assert_eq!(ShapeClass::Tabular.as_str(), "tabular");
    assert_eq!(ShapeClass::FoldChain.as_str(), "fold_chain");
    assert_eq!(ShapeClass::PrimitiveArray.as_str(), "primitive_array");
    assert_eq!(ShapeClass::Mixed.as_str(), "mixed");
    assert_eq!(ShapeClass::PassThrough.as_str(), "pass_through");
}
