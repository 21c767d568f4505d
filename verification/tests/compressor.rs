use toon_mcp::classifier::ShapeClass;
use toon_mcp::compressor::{
    CompressConfig, CompressDecision, Compressor, Delimiter, PassThroughReason,
    DEFAULT_MAX_INPUT_BYTES,
};
use toon_mcp::detector::{DetectionConfidence, InputFormat};
use toon_mcp::ratio::{Ratio, Savings};

fn large_tabular_json() -> String {
    let rows: Vec<String> = (0..50)
        .map(|i| {
            format!(
                r#"{{"id":{i},"name":"User{i}","score":{score},"active":true,"tag":"alpha"}}"#,
                i = i,
                score = i as f64 * 0.5
            )
        })
        .collect();
    format!("[{}]", rows.join(","))
}

fn large_jsonl() -> String {
    (0..50)
        .map(|i| {
            format!(
                r#"{{"id":{i},"name":"User{i}","score":{score},"active":true}}"#,
                i = i,
                score = i as f64 * 0.5
            )
        })
        .collect::<Vec<_>>()
        .join("\n")
}

fn large_csv() -> String {
    let mut lines = vec!["id,name,score,active".to_string()];
    for i in 0..50 {
        lines.push(format!("{i},User{i},{},{}", i as f64 * 0.5, true));
    }
    lines.join("\n")
}

fn permissive() -> CompressConfig {
    CompressConfig { max_output_ratio: Ratio { digits: 99, places: 2 }, ..CompressConfig::default() }
}

#[test]
fn below_min_bytes_passes_through() {
    let input = r#"{"x":1}"#;
    let config = CompressConfig::default();
    match Compressor::decide(input, &config) {
        CompressDecision::PassedThrough { reason: PassThroughReason::BelowMinBytes, input_format } => {
            assert_eq!(input_format, None);
        }
        other => panic!("expected BelowMinBytes, got {other:?}"),
    }
}

#[test]
fn unknown_format_passes_through() {
    let input = "a".repeat(300);
    let config = CompressConfig::default();
    match Compressor::decide(&input, &config) {
        CompressDecision::PassedThrough { reason: PassThroughReason::UnknownFormat, .. } => {}
        other => panic!("expected UnknownFormat, got {other:?}"),
    }
}

#[test]
fn shape_not_beneficial_passes_through() {
    let long_string = format!(r#""{}""#, "x".repeat(300));
    let config = CompressConfig::default();
    match Compressor::decide(&long_string, &config) {
        CompressDecision::PassedThrough { .. } => {}
        other => panic!("expected PassedThrough, got {other:?}"),
    }
}

#[test]
fn json_tabular_compresses() {
    let input = large_tabular_json();
    assert!(input.len() >= 256);
    match Compressor::decide(&input, &permissive()) {
        CompressDecision::Compressed {
            ref toon,
            original_bytes,
            toon_bytes,
            savings,
            input_format,
            shape_class,
        } => {
            assert!(toon_bytes < original_bytes);
            assert_eq!(savings, Savings { input_bytes: original_bytes, output_bytes: toon_bytes });
            assert!(!toon.is_empty());
            assert_eq!(toon.len(), toon_bytes);
            assert_eq!(original_bytes, input.len());
            assert_eq!(input_format, InputFormat::Json);
            assert_eq!(shape_class, ShapeClass::Tabular);
            assert!(toon.starts_with("[50]{id,name,score,active,tag}:"));
        }
        CompressDecision::PassedThrough { reason, .. } => {
            panic!("expected Compressed, got PassedThrough({reason:?})");
        }
    }
}

#[test]
fn jsonl_tabular_compresses() {
    let input = large_jsonl();
    assert!(input.len() >= 256);
    match Compressor::decide(&input, &permissive()) {
        CompressDecision::Compressed { .. } => {}
        CompressDecision::PassedThrough { reason, .. } => {
            panic!("expected Compressed, got PassedThrough({reason:?})");
        }
    }
}

#[test]
fn csv_tabular_compresses() {
    let input = large_csv();
    assert!(input.len() >= 256);
    match Compressor::decide(&input, &permissive()) {
        CompressDecision::Compressed { .. } => {}
        CompressDecision::PassedThrough { reason: PassThroughReason::InsufficientSavings { .. }, .. } => {}
        other => {
            panic!("unexpected decision: {other:?}");
        }
    }
}

#[test]
fn insufficient_savings_passes_through() {
    let input = large_tabular_json();
    let config = CompressConfig {
        max_output_ratio: Ratio { digits: 0, places: 0 },
        ..CompressConfig::default()
    };
    match Compressor::decide(&input, &config) {
        CompressDecision::PassedThrough { reason: PassThroughReason::InsufficientSavings { .. }, .. } => {}
        other => panic!("expected InsufficientSavings, got {other:?}"),
    }
}

#[test]
fn default_settings() {
    let c = CompressConfig::default();
    assert_eq!(c.max_output_ratio, Ratio { digits: 85, places: 2 });
    assert_eq!(c.min_bytes, 256);
    assert_eq!(c.max_input_bytes, DEFAULT_MAX_INPUT_BYTES);
    assert_eq!(DEFAULT_MAX_INPUT_BYTES, 10_485_760);
    assert!(c.key_folding);
    assert_eq!(c.delimiter, Delimiter::Comma);
    assert_eq!((c.tabular_min_rows, c.fold_min_depth, c.primitive_array_min), (3, 3, 5));
    assert!(c.csv_numeric_coercion);
}

#[test]
fn reason_names_are_stable() {
    assert_eq!(PassThroughReason::UnknownFormat.as_str(), "unknown_format");
    assert_eq!(PassThroughReason::BelowMinBytes.as_str(), "below_min_bytes");
    assert_eq!(PassThroughReason::ShapeNotBeneficial.as_str(), "shape_not_beneficial");
    assert_eq!(
        PassThroughReason::InputExceedsLimit { actual: 2, limit: 1 }.as_str(),
        "input_exceeds_limit"
    );
    let savings = Savings { input_bytes: 10, output_bytes: 9 };
    let ratio = Ratio { digits: 85, places: 2 };
    assert_eq!(
        PassThroughReason::InsufficientSavings { savings, max_output_ratio: ratio }.as_str(),
        "insufficient_savings"
    );
    assert_eq!(
        PassThroughReason::ParseFailed { format: InputFormat::Json, detail: String::new() }.as_str(),
        "parse_failed"
    );
    assert_eq!(
        PassThroughReason::EncodeFailed { detail: String::new() }.as_str(),
        "encode_failed"
    );
}

fn gate(toon_bytes: usize, original_bytes: usize, ratio: Ratio) -> bool {
    let config = CompressConfig { max_output_ratio: ratio, ..CompressConfig::default() };
    let decision = Compressor::gate(
        &config,
        InputFormat::Json,
        ShapeClass::Mixed,
        original_bytes,
        Ok("t".repeat(toon_bytes)),
    );
    matches!(decision, CompressDecision::Compressed { .. })
}

#[test]
fn savings_gate_is_inclusive_and_strict_against_growth() {
    let ratio = Ratio { digits: 85, places: 2 };
    assert!(gate(85, 100, ratio));
    assert!(!gate(86, 100, ratio));
    assert!(gate(17, 20, ratio));
    let one = Ratio { digits: 10, places: 1 };
    assert!(gate(99, 100, one));
    assert!(!gate(100, 100, one));
    assert!(!gate(101, 100, one));
    assert!(gate(0, 1, Ratio { digits: 0, places: 3 }));
    assert!(!gate(0, 0, one));
}

#[test]
fn gate_reports_what_it_saw() {
    let config = CompressConfig::default();
    match Compressor::gate(&config, InputFormat::Csv, ShapeClass::Tabular, 10, Ok("x".repeat(9))) {
        CompressDecision::PassedThrough {
            reason: PassThroughReason::InsufficientSavings { savings, max_output_ratio },
            input_format,
        } => {
            assert_eq!(savings, Savings { input_bytes: 10, output_bytes: 9 });
            assert_eq!(max_output_ratio, config.max_output_ratio);
            assert_eq!(input_format, Some(InputFormat::Csv));
        }
        other => panic!("unexpected decision: {other:?}"),
    }
    match Compressor::gate(&config, InputFormat::Tsv, ShapeClass::Tabular, 10, Err("boom".to_string())) {
        CompressDecision::PassedThrough {
            reason: PassThroughReason::EncodeFailed { detail },
            input_format,
        } => {
            assert_eq!(detail, "boom");
            assert_eq!(input_format, Some(InputFormat::Tsv));
        }
        other => panic!("unexpected decision: {other:?}"),
    }
}

#[test]
fn report_carries_detection_and_coercion() {
    let config = CompressConfig { min_bytes: 0, ..permissive() };
    let report = Compressor::decide_with_metadata("id,zip\n1,007\n2,008\n3,009", &config);
    assert_eq!(report.detection.format, InputFormat::Csv);
    assert_eq!(report.detection.confidence, DetectionConfidence::Heuristic);
    let coercion = report.coercion.expect("a table was parsed");
    assert!(coercion.numeric_coercion_used);
    assert!(coercion.lossy_coercion_possible);

    let plain = CompressConfig { csv_numeric_coercion: false, ..config };
    let report = Compressor::decide_with_metadata("id,zip\n1,007\n2,008\n3,009", &plain);
    let coercion = report.coercion.expect("a table was parsed");
    assert!(!coercion.numeric_coercion_used && !coercion.lossy_coercion_possible);

    let report = Compressor::decide_with_metadata(r#"{"a":1}"#, &CompressConfig::default());
    assert_eq!(report.detection.format, InputFormat::Unknown);
    assert!(report.detection.candidates.is_empty());
    assert!(report.coercion.is_none());
}

#[test]
fn parse_failures_pass_through_with_their_format() {
    let config = CompressConfig { min_bytes: 0, ..CompressConfig::default() };
    match Compressor::decide(r#"{"k":1,"k":2}"#, &config) {
        CompressDecision::PassedThrough {
            reason: PassThroughReason::ParseFailed { format, detail },
            input_format,
        } => {
            assert_eq!(format, InputFormat::Json);
            assert_eq!(detail, "duplicate object key: k");
            assert_eq!(input_format, Some(InputFormat::Json));
        }
        other => panic!("unexpected decision: {other:?}"),
    }
    match Compressor::decide("{\"a\":1}\n{\"a\":2}\nnope", &config) {
        CompressDecision::PassedThrough {
            reason: PassThroughReason::ParseFailed { format, detail },
            ..
        } => {
            assert_eq!(format, InputFormat::Jsonl);
            assert!(detail.starts_with("expected ident at line 1"));
        }
        other => panic!("unexpected decision: {other:?}"),
    }
}

#[test]
fn delimiter_and_folding_reach_the_encoder() {
    let config = CompressConfig { min_bytes: 0, ..permissive() };
    let input = r#"{"a":{"b":{"c":[1,2,3,4,5,6]}}}"#;
    let toon = |c: &CompressConfig| match Compressor::decide(input, c) {
        CompressDecision::Compressed { toon, .. } => toon,
        other => panic!("unexpected decision: {other:?}"),
    };
    assert_eq!(toon(&config), "a.b.c[6]: 1,2,3,4,5,6");
    assert_eq!(
        toon(&CompressConfig { delimiter: Delimiter::Pipe, ..config }),
        "a.b.c[6|]: 1|2|3|4|5|6"
    );
    match Compressor::decide(input, &CompressConfig { key_folding: false, ..config }) {
        CompressDecision::Compressed { toon, .. } => assert!(toon.starts_with("a:\n  b:")),
        CompressDecision::PassedThrough { reason, .. } => {
            assert_eq!(reason.as_str(), "insufficient_savings")
        }
    }
}

#[test]
fn small_objects_are_not_beneficial() {
    let config = CompressConfig { min_bytes: 0, ..permissive() };
    match Compressor::decide(r#"{"a":1,"b":2}"#, &config) {
        CompressDecision::PassedThrough { reason, input_format } => {
            assert_eq!(reason.as_str(), "shape_not_beneficial");
            assert_eq!(input_format, Some(InputFormat::Json));
        }
        other => panic!("unexpected decision: {other:?}"),
    }
}
