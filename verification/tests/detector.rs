use toon_mcp::detector::{DetectionConfidence, DetectionMetadata, FormatDetector, InputFormat};
use toon_mcp::error::CoreError;
use toon_mcp::value::{JsonValue, Number};

fn items(v: &JsonValue) -> &Vec<JsonValue> {
    match v {
        JsonValue::Array(a) => a,
        other => panic!("value must be an array, got {other:?}"),
    }
}

fn get<'a>(v: &'a JsonValue, key: &str) -> &'a JsonValue {
    match v {
        JsonValue::Object(m) => &m.iter().find(|(k, _)| k == key).expect("key present").1,
        other => panic!("value must be an object, got {other:?}"),
    }
}

fn text(s: &str) -> JsonValue {
    JsonValue::String(s.to_string())
}

#[test]
fn detect_json_object() {
    assert_eq!(
        FormatDetector::detect(r#"{"key":"value"}"#),
        InputFormat::Json
    );
}

#[test]
fn detect_json_array() {
    assert_eq!(FormatDetector::detect(r#"[1,2,3]"#), InputFormat::Json);
}

#[test]
fn detect_jsonl() {
    let input = "{\"id\":1}\n{\"id\":2}\n{\"id\":3}";
    assert_eq!(FormatDetector::detect(input), InputFormat::Jsonl);
}

#[test]
fn detect_csv() {
    let input = "id,name,score\n1,Alice,9.5\n2,Bob,8.0";
    assert_eq!(FormatDetector::detect(input), InputFormat::Csv);
}

#[test]
fn detect_metadata_marks_json_certain() {
    let meta = FormatDetector::detect_with_metadata(r#"{"key":"value"}"#);
    assert_eq!(meta.format, InputFormat::Json);
    assert_eq!(meta.confidence, DetectionConfidence::Certain);
    assert!(!meta.ambiguous);
    assert_eq!(meta.candidates, vec![InputFormat::Json]);
}

#[test]
fn detect_metadata_marks_csv_heuristic() {
    let meta = FormatDetector::detect_with_metadata("id,name\n1,Alice");
    assert_eq!(meta.format, InputFormat::Csv);
    assert_eq!(meta.confidence, DetectionConfidence::Heuristic);
    assert!(!meta.ambiguous);
    assert_eq!(meta.candidates, vec![InputFormat::Csv]);
}

#[test]
fn detect_tsv() {
    let input = "id\tname\tscore\n1\tAlice\t9.5\n2\tBob\t8.0";
    assert_eq!(FormatDetector::detect(input), InputFormat::Tsv);
}

#[test]
fn detect_unknown() {
    assert_eq!(
        FormatDetector::detect("this is plain text"),
        InputFormat::Unknown
    );
}

#[test]
fn json_wins_over_jsonl_on_single_line() {
    let input = r#"{"id":1}"#;
    assert_eq!(FormatDetector::detect(input), InputFormat::Json);
}

#[test]
fn detect_and_parse_json() {
    let (fmt, val) = FormatDetector::detect_and_parse(r#"{"x":1}"#).unwrap();
    assert_eq!(fmt, InputFormat::Json);
    assert!(val.is_object());
}

#[test]
fn detect_and_parse_unknown_returns_error() {
    let err = FormatDetector::detect_and_parse("plain text").unwrap_err();
    match err {
        CoreError::ParseFailed { format, line, detail } => {
            assert_eq!(format, InputFormat::Unknown);
            assert_eq!(line, 0);
            assert_eq!(detail, "unknown format — no parser available");
        }
        other => panic!("unexpected error: {other:?}"),
    }
}

#[test]
fn detect_and_parse_jsonl_returns_array() {
    let input = "{\"id\":1,\"name\":\"Alice\"}\n{\"id\":2,\"name\":\"Bob\"}";
    let (fmt, val) = FormatDetector::detect_and_parse(input).unwrap();
    assert_eq!(fmt, InputFormat::Jsonl);
    let arr = items(&val);
    assert_eq!(arr.len(), 2);
    assert_eq!(get(&arr[0], "id"), &JsonValue::Number(Number::PosInt(1)));
    assert_eq!(get(&arr[1], "name"), &text("Bob"));
}

#[test]
fn detect_and_parse_csv_returns_array_of_objects() {
    let input = "id,name,score\n1,Alice,9.5\n2,Bob,8.0";
    let (fmt, val) = FormatDetector::detect_and_parse(input).unwrap();
    assert_eq!(fmt, InputFormat::Csv);
    let arr = items(&val);
    assert_eq!(arr.len(), 2);
    assert!(get(&arr[0], "id").is_number(), "id should be numeric after coercion");
    assert_eq!(get(&arr[0], "name"), &text("Alice"));
}

#[test]
fn detect_and_parse_tsv_returns_array_of_objects() {
    let input = "id\tname\tscore\n1\tAlice\t9.5\n2\tBob\t8.0";
    let (fmt, val) = FormatDetector::detect_and_parse(input).unwrap();
    assert_eq!(fmt, InputFormat::Tsv);
    let arr = items(&val);
    assert_eq!(arr.len(), 2);
    assert!(get(&arr[0], "id").is_number(), "id should be numeric after coercion");
    assert_eq!(get(&arr[1], "name"), &text("Bob"));
}

#[test]
fn detect_empty_string_is_unknown() {
    assert_eq!(FormatDetector::detect(""), InputFormat::Unknown);
}

#[test]
fn detect_whitespace_only_is_unknown() {
    assert_eq!(FormatDetector::detect("   \t\n  "), InputFormat::Unknown);
}

#[test]
fn detect_single_jsonl_line_is_not_jsonl() {
    let input = r#"{"id":1}"#;
    assert_eq!(FormatDetector::detect(input), InputFormat::Json);
}

#[test]
fn detect_csv_header_only_is_not_csv() {
    let input = "id,name,score";
    let fmt = FormatDetector::detect(input);
    assert_ne!(fmt, InputFormat::Csv, "single header row should not be Csv");
}

#[test]
fn detect_unicode_json() {
    let input = r#"{"name":"日本語","value":42}"#;
    assert_eq!(FormatDetector::detect(input), InputFormat::Json);
}

#[test]
fn detect_unicode_jsonl() {
    let input = "{\"city\":\"Tōkyō\"}\n{\"city\":\"Ōsaka\"}";
    assert_eq!(FormatDetector::detect(input), InputFormat::Jsonl);
}

#[test]
fn detect_csv_with_unicode_fields() {
    let input = "name,city\nAlice,東京\nBob,大阪";
    assert_eq!(FormatDetector::detect(input), InputFormat::Csv);
}

#[test]
fn format_names_are_stable() {
    assert_eq!(InputFormat::Json.as_str(), "json");
    assert_eq!(InputFormat::Jsonl.as_str(), "jsonl");
    assert_eq!(InputFormat::Csv.as_str(), "csv");
    assert_eq!(InputFormat::Tsv.as_str(), "tsv");
    assert_eq!(InputFormat::Unknown.as_str(), "unknown");
    assert_eq!(DetectionConfidence::Certain.as_str(), "certain");
    assert_eq!(DetectionConfidence::Heuristic.as_str(), "heuristic");
}

#[test]
fn column_count_reads_the_header() {
    assert_eq!(
        FormatDetector::column_count(InputFormat::Csv, "id,name,score\n1,Alice,9.5"),
        Some(3)
    );
    assert_eq!(FormatDetector::column_count(InputFormat::Tsv, "id\tname\n1\tAlice"), Some(2));
    assert_eq!(FormatDetector::column_count(InputFormat::Json, r#"{"a":1}"#), None);
}

#[test]
fn documents_of_the_interface_are_detected() {
    assert_eq!(FormatDetector::detect("{\"a\":1}\n{\"b\":2}"), InputFormat::Jsonl);
    assert_eq!(FormatDetector::detect("id,name\n1,Alice"), InputFormat::Csv);
    assert_eq!(FormatDetector::detect("plain text"), InputFormat::Unknown);
    assert!(FormatDetector::detect_and_parse("plain text").is_err());
}

#[test]
fn jsonl_metadata_counts_live_lines() {
    let meta = FormatDetector::detect_with_metadata("{\"a\":1}\n\n{\"a\":2}\r\n   \n{\"a\":3}\n");
    assert_eq!(meta.format, InputFormat::Jsonl);
    assert_eq!(meta.line_count, Some(3));
    assert_eq!(meta.confidence, DetectionConfidence::Heuristic);
}

#[test]
fn ambiguous_input_lists_candidates_in_order() {
    let input = "{\"a\":1,\"b\":2}\n{\"a\":3,\"b\":4}";
    let meta = FormatDetector::detect_with_metadata(input);
    assert_eq!(meta.format, InputFormat::Jsonl);
    assert!(meta.ambiguous);
    assert_eq!(meta.candidates, vec![InputFormat::Jsonl, InputFormat::Csv]);
}

#[test]
fn probed_value_is_handed_back() {
    let (meta, value) = FormatDetector::detect_with_metadata_and_value("  [1,true]");
    assert_eq!(meta.format, InputFormat::Json);
    assert_eq!(
        value,
        Some(JsonValue::Array(vec![
            JsonValue::Number(Number::PosInt(1)),
            JsonValue::Bool(true),
        ]))
    );
    let (meta, value) = FormatDetector::detect_with_metadata_and_value("id,name\n1,Alice");
    assert_eq!(meta.format, InputFormat::Csv);
    assert_eq!(value, None);
}

#[test]
fn scalar_json_is_not_detected_as_json() {
    assert_eq!(FormatDetector::detect("42"), InputFormat::Unknown);
    assert_eq!(FormatDetector::detect("\"text\""), InputFormat::Unknown);
}

#[test]
fn unknown_metadata_is_certain_and_empty() {
    let meta = DetectionMetadata::unknown();
    assert_eq!(meta.format, InputFormat::Unknown);
    assert_eq!(meta.confidence, DetectionConfidence::Certain);
    assert!(!meta.ambiguous);
    assert!(meta.candidates.is_empty());
    assert_eq!(meta.line_count, None);
}
