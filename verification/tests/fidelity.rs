use toon_mcp::fidelity::values_equiv;
use toon_mcp::parser::json::JsonParser;
use toon_mcp::parser::Parser;
use toon_mcp::value::{JsonValue, Number};

fn json(text: &str) -> JsonValue {
    JsonParser.parse(text).expect("valid JSON")
}

fn as_f64(n: &Number) -> f64 {
    match n {
        Number::PosInt(u) => *u as f64,
        Number::NegInt(i) => *i as f64,
        Number::Float(t) => t.parse().expect("decimal text"),
    }
}

fn close(x: &Number, y: &Number) -> bool {
    let (fx, fy) = (as_f64(x), as_f64(y));
    (fx - fy).abs() <= 1e-9 * fx.abs().max(fy.abs()).max(1.0)
}

fn equiv(a: &JsonValue, b: &JsonValue) -> bool {
    values_equiv(a, b, &close)
}

#[test]
fn identical_values_are_equiv() {
    let v = json(r#"{"a": [1, "x", null, {"b": true}]}"#);
    assert!(equiv(&v, &v.duplicate()));
}

#[test]
fn integer_float_drift_is_tolerated() {
    assert!(equiv(&json("30"), &json("30.0")));
    assert!(equiv(&json(r#"{"n": 1}"#), &json(r#"{"n": 1.0}"#)));
}

#[test]
fn wrong_value_is_not_equiv() {
    assert!(!equiv(&json(r#"{"a": 1}"#), &json(r#"{"a": 2}"#)));
}

#[test]
fn missing_key_is_not_equiv() {
    assert!(!equiv(&json(r#"{"a": 1, "b": 2}"#), &json(r#"{"a": 1}"#)));
}

#[test]
fn reordered_array_is_not_equiv() {
    assert!(!equiv(&json("[1, 2, 3]"), &json("[3, 2, 1]")));
}

#[test]
fn type_mismatch_is_not_equiv() {
    assert!(!equiv(&json(r#""1""#), &json("1")));
    assert!(!equiv(&json("null"), &json("0")));
}

#[test]
fn reordered_members_are_equiv() {
    assert!(equiv(&json(r#"{"a": 1, "b": [true]}"#), &json(r#"{"b": [true], "a": 1.0}"#)));
    assert!(!equiv(&json(r#"{"a": 1, "b": 2}"#), &json(r#"{"a": 1, "c": 2}"#)));
}

#[test]
fn relation_on_numbers_is_the_callers() {
    let exact = |x: &Number, y: &Number| x == y;
    assert!(!values_equiv(&json("30"), &json("30.0"), &exact));
    assert!(values_equiv(&json("[30]"), &json("[30]"), &exact));
}

#[test]
fn equivalence_does_not_depend_on_the_order_of_its_arguments() {
    let values = [
        r#"{"a":1,"b":[2.0,{"c":null}]}"#,
        r#"{"b":[2,{"c":null}],"a":1.0}"#,
        r#"{"a":1,"b":[2,{"d":null}]}"#,
        r#"{"a":1}"#,
        "[1,2]",
    ];
    for a in &values {
        for b in &values {
            assert_eq!(equiv(&json(a), &json(b)), equiv(&json(b), &json(a)));
        }
    }
    assert!(equiv(&json(values[0]), &json(values[1])));
    assert!(!equiv(&json(values[0]), &json(values[2])));
}

#[test]
fn reordered_members_and_close_numbers_stay_equivalent() {
    let a = json(r#"{"x":{"p":1,"q":[2,{"m":3,"n":null}]},"y":-4}"#);
    let b = json(r#"{"y":-4.0,"x":{"q":[2.0,{"n":null,"m":3}],"p":1.0}}"#);
    assert!(equiv(&a, &b) && equiv(&b, &a));
    assert!(!equiv(&json(r#"{"a":1}"#), &json(r#"{"b":1}"#)));
    assert!(!equiv(&json("[1]"), &json("[1,1]")));
    assert!(!equiv(&json("{}"), &json("[]")));
}
