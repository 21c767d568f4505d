use toon_mcp::detector::{FormatDetector, InputFormat};
use toon_mcp::error::CoreError;
use toon_mcp::evals::comprehension::as_plain;
use toon_mcp::evals::generate::{GenConfig, Generator};
use toon_mcp::evals::toonkit::{decode_pipeline, encode_pipeline};
use toon_mcp::parser::csv::CsvParser;
use toon_mcp::parser::json::JsonParser;
use toon_mcp::parser::Parser;
use toon_mcp::value::{JsonValue, Number};

fn integer(i: i64) -> JsonValue {
    JsonValue::Number(if i < 0 { Number::NegInt(i) } else { Number::PosInt(i as u64) })
}

#[test]
fn csv_round_trip_preserves_integer_cells() {
    let header = ["id", "b_2", "Total"];
    let rows: [[i64; 3]; 4] = [
        [0, -1, 9_007_199_254_740_992],
        [10, -9_007_199_254_740_992, 7],
        [-42, 100, 999_999_999_999_999],
        [1, 2, 3],
    ];
    for (delimiter, parser) in [(",", CsvParser::csv()), ("\t", CsvParser::tsv())] {
        let mut lines = vec![header.join(delimiter)];
        for row in &rows {
            let cells: Vec<String> = row.iter().map(|c| c.to_string()).collect();
            lines.push(cells.join(delimiter));
        }
        let expected = rows
            .iter()
            .map(|row| {
                let members = header.iter().zip(row).map(|(h, c)| (h.to_string(), integer(*c)));
                JsonValue::Object(members.collect())
            })
            .collect();
        let value = parser.parse(&lines.join("\n")).expect("a table");
        assert_eq!(value, JsonValue::Array(expected));
    }
}

fn sample_tree() -> JsonValue {
    JsonValue::Object(vec![
        ("a\"\\/\u{1}\u{1f}\u{7f}é\u{1f600}".to_string(), integer(i64::MIN)),
        ("\n\r\t\u{8}\u{c}".to_string(), JsonValue::String("x\u{0}y".to_string())),
        (
            "list".to_string(),
            JsonValue::Array(vec![
                JsonValue::Null,
                JsonValue::Bool(true),
                JsonValue::Bool(false),
                integer(0),
                JsonValue::Array(Vec::new()),
                JsonValue::Object(Vec::new()),
                JsonValue::Object(vec![("list".to_string(), integer(i64::MAX))]),
            ]),
        ),
        (String::new(), JsonValue::String(String::new())),
    ])
}

#[test]
fn json_round_trip_preserves_value() {
    let tree = sample_tree();
    let text = as_plain(&tree);
    assert_eq!(
        text,
        "{\"a\\\"\\\\/\\u0001\\u001f\u{7f}é\u{1f600}\":-9223372036854775808,\
         \"\\n\\r\\t\\b\\f\":\"x\\u0000y\",\
         \"list\":[null,true,false,0,[],{},{\"list\":9223372036854775807}],\"\":\"\"}"
    );
    assert_eq!(JsonParser.parse(&text).expect("valid JSON"), tree);
    assert_eq!(JsonParser.parse(&format!("\u{feff}{text}")).expect("valid JSON"), tree);
}

#[test]
fn nesting_below_the_limit_reads_back() {
    let mut tree = integer(7);
    for depth in 0..127 {
        tree = if depth % 2 == 0 {
            JsonValue::Array(vec![tree])
        } else {
            JsonValue::Object(vec![("k".to_string(), tree)])
        };
    }
    assert_eq!(JsonParser.parse(&as_plain(&tree)).expect("valid JSON"), tree);
    let deeper = as_plain(&JsonValue::Array(vec![tree]));
    assert!(matches!(JsonParser.parse(&deeper), Err(CoreError::JsonError(_))));
}

#[test]
fn detection_decides_the_root() {
    for (input, format) in [
        (" [1]", InputFormat::Json),
        ("{\"a\":1}", InputFormat::Json),
        ("1\n2", InputFormat::Jsonl),
        ("a,b\n1,2", InputFormat::Csv),
        ("a\tb\n1\t2", InputFormat::Tsv),
    ] {
        let (found, value) = FormatDetector::detect_and_parse(input).expect("parses");
        assert_eq!(found, format);
        match value {
            JsonValue::Array(_) => {}
            JsonValue::Object(_) => assert_eq!(found, InputFormat::Json),
            other => panic!("expected a container, got {other:?}"),
        }
    }
    assert!(matches!(
        FormatDetector::detect_and_parse("just words"),
        Err(CoreError::ParseFailed { format: InputFormat::Unknown, .. })
    ));
    assert!(matches!(
        FormatDetector::detect_and_parse("1\n2\n{"),
        Err(CoreError::ParseFailed { format: InputFormat::Jsonl, line: 3, .. })
    ));
}

#[test]
fn long_lines_decode() {
    let text = "x".repeat(70_000);
    assert_eq!(decode_pipeline(&text).expect("a string"), JsonValue::String(text));

    let items: Vec<JsonValue> = (0..40_000).map(integer).collect();
    let value = JsonValue::Array(items);
    let toon = encode_pipeline(&value).expect("encodes");
    assert!(toon.lines().any(|line| line.len() > 65_535));
    assert_eq!(decode_pipeline(&toon).expect("decodes"), value);

    let row = |name: &str| {
        JsonValue::Object(vec![
            ("id".to_string(), integer(7)),
            ("name".to_string(), JsonValue::String(name.to_string())),
        ])
    };
    let value = JsonValue::Array(vec![row(&"long, ".repeat(20_000)), row("b"), row("c")]);
    let toon = encode_pipeline(&value).expect("encodes");
    assert_eq!(decode_pipeline(&toon).expect("decodes"), value);
}

#[test]
fn faults_far_to_the_right_are_failures() {
    let near = decode_pipeline(&format!("[{}", "x".repeat(65_534))).expect_err("no array");
    assert!(near.starts_with("decode failed: "));
    assert_ne!(near, "decode failed: no answer from the decoder");
    let far = decode_pipeline(&format!("[{}", "x".repeat(70_000))).expect_err("no array");
    assert_eq!(far, "decode failed: no answer from the decoder");
    assert_eq!(decode_pipeline("a: 1").expect("still decodes"), json_a1());
}

fn json_a1() -> JsonValue {
    JsonValue::Object(vec![("a".to_string(), integer(1))])
}

#[test]
fn generation_stays_within_its_bounds() {
    for (per_cell, max_retries, usable) in [(1, 2, false), (2, 0, true), (3, 1, false)] {
        let mut g = Generator::new(GenConfig { per_cell, max_retries, ..GenConfig::default() });
        while g.prompt().is_some() {
            let _ = g.on_reply(if usable { Some("[]") } else { None });
        }
        let payloads = 26 * per_cell as u64;
        let p = g.progress();
        if usable {
            // An empty array is no table, so CSV and TSV payloads settle otherwise.
            assert!(p.accepted <= payloads);
        } else {
            assert_eq!(p.accepted, 0);
            assert_eq!(p.attempted, payloads * (max_retries as u64 + 1));
        }
        assert!(payloads <= p.attempted);
        assert!(p.attempted <= payloads * (max_retries as u64 + 1));
    }
}
