use toon_mcp::classifier::ShapeClass;
use toon_mcp::compressor::CompressConfig;
use toon_mcp::detector::InputFormat;
use toon_mcp::evals::cli::{command, flag, number_flag, results_dir, Command};
use toon_mcp::evals::comprehension::{
    answer_instruction, answer_prompt, as_plain, build_questions, find_records, first_number,
    format_label, grade, max_question, normalize, plan_item, question_result, ComprehendConfig,
    ComprehensionResult, Grade, Question,
};
use toon_mcp::evals::corpus::{jsonl_rows, CorpusItem};
use toon_mcp::evals::generate::{
    combinations, sanitize, system_prompt, user_prompt, GenConfig, Generator, Verdict,
};
use toon_mcp::evals::pipeline::{
    evaluate_item, fmt_str, roundtrip_diff, shape_str, with_tokens, PipelineResult,
};
use toon_mcp::evals::report::{build, group_by, Accuracy};
use toon_mcp::parser::json::JsonParser;
use toon_mcp::parser::Parser;
use toon_mcp::ratio::Savings;
use toon_mcp::value::{JsonValue, Number};

fn json(text: &str) -> JsonValue {
    JsonParser.parse(text).expect("valid JSON")
}

fn strings(items: &[&str]) -> Vec<String> {
    items.iter().map(|s| s.to_string()).collect()
}

fn item(format: &str, shape: &str, payload: &str) -> CorpusItem {
    CorpusItem {
        id: "item-1".to_string(),
        format: format.to_string(),
        category: "domain".to_string(),
        intended_shape: shape.to_string(),
        payload: payload.to_string(),
        bytes: payload.len(),
    }
}

fn close(x: &Number, y: &Number) -> bool {
    let as_f64 = |n: &Number| match n {
        Number::PosInt(u) => *u as f64,
        Number::NegInt(i) => *i as f64,
        Number::Float(t) => t.parse::<f64>().expect("decimal text"),
    };
    (as_f64(x) - as_f64(y)).abs() <= 1e-9 * as_f64(x).abs().max(as_f64(y).abs()).max(1.0)
}

#[test]
fn commands_and_flags() {
    assert_eq!(command(&strings(&[])), Command::Help);
    assert_eq!(command(&strings(&["pipeline", "--max-items"])), Command::Pipeline);
    assert_eq!(command(&strings(&["all"])), Command::All);
    assert_eq!(command(&strings(&["nonsense"])), Command::Help);
    let args = strings(&["--max-items", "7", "--per-cell", "x", "--last"]);
    assert_eq!(flag(&args, "--max-items").as_deref(), Some("7"));
    assert_eq!(number_flag(&args, "--max-items"), Some(7));
    assert_eq!(number_flag(&args, "--per-cell"), None);
    assert_eq!(flag(&args, "--last"), None);
    assert_eq!(flag(&args, "--absent"), None);
    assert_eq!(results_dir(&vec![]), "results");
    assert_eq!(
        results_dir(&vec![("TOON_EVAL_RESULTS".to_string(), "/tmp/out".to_string())]),
        "/tmp/out"
    );
}

#[test]
fn corpus_rows_keep_their_line_numbers() {
    assert_eq!(
        jsonl_rows("{}\n\n  \n[1]\n"),
        vec![(1, "{}".to_string()), (4, "[1]".to_string())]
    );
}

#[test]
fn records_are_found_through_wrappers() {
    let v = json(r#"{"meta":{"n":1},"data":{"items":[{"a":1},{"a":2},3]}}"#);
    assert_eq!(find_records(&v).expect("records").len(), 3);
    assert!(find_records(&json(r#"[1,2,3]"#)).is_none());
    assert!(find_records(&json(r#"[{"a":1},{"a":2}]"#)).is_none());
    let nested = json(r#"[1,[{"a":1},{"b":2},{"c":3},4],{"x":1}]"#);
    assert_eq!(find_records(&nested).expect("records").len(), 4);
}

#[test]
fn plain_texts() {
    assert_eq!(as_plain(&json(r#""x y""#)), "x y");
    assert_eq!(as_plain(&json("-7")), "-7");
    assert_eq!(as_plain(&json("2.50")), "2.5");
    assert_eq!(as_plain(&json("true")), "true");
    assert_eq!(as_plain(&json("null")), "null");
    assert_eq!(as_plain(&json(r#"{"b":[1,"x"],"a":null}"#)), r#"{"b":[1,"x"],"a":null}"#);
}

#[test]
fn questions_follow_from_the_records() {
    let v = json(
        r#"[{"score":1.5,"user_id":"u1","age":30},
            {"score":9.5,"user_id":"u2","age":40},
            {"score":3,"user_id":"u3","age":"?"}]"#,
    );
    let records = find_records(&v).expect("records");
    let qs = build_questions(records);
    let asked: Vec<(&str, &str, &str, bool)> = qs
        .settled
        .iter()
        .map(|q| (q.qtype, q.text.as_str(), q.truth.as_str(), q.numeric))
        .collect();
    assert_eq!(
        asked,
        vec![
            ("count", "How many records are in the dataset?", "3", true),
            ("lookup", "What is the value of `age` for the record whose `user_id` is u2?", "40", true),
        ]
    );
    let max = qs.max.expect("a numeric field");
    assert_eq!(max.field, "age");
    assert_eq!(max.candidates, vec![Number::PosInt(30), Number::PosInt(40)]);
    let q = max_question(&max.field, "40".to_string());
    assert_eq!(q.text, "What is the maximum value of `age` across all records?");
    assert_eq!((q.qtype, q.numeric), ("max", true));
}

#[test]
fn records_without_objects_are_only_counted() {
    let qs = build_questions(&vec![JsonValue::Null]);
    assert_eq!(qs.settled.len(), 1);
    assert_eq!(qs.settled[0].truth, "1");
    assert!(qs.max.is_none());
}

#[test]
fn numbers_in_answers() {
    assert_eq!(first_number("about 42 items").as_deref(), Some("42"));
    assert_eq!(first_number("-3.5").as_deref(), Some("-3.5"));
    assert_eq!(first_number("a - b, then 7.").as_deref(), Some("7."));
    assert_eq!(first_number("1-2 or 3").as_deref(), Some("3"));
    assert_eq!(first_number("none"), None);
    assert_eq!(first_number(""), None);
}

#[test]
fn answers_are_normalised() {
    assert_eq!(normalize("  \"Alice.\" \n"), "alice");
    assert_eq!(normalize("`ÄÖ`"), "äö");
    assert_eq!(normalize(" .,' "), "");
}

fn question(truth: &str, numeric: bool) -> Question {
    Question { qtype: "lookup", text: String::new(), truth: truth.to_string(), numeric }
}

#[test]
fn answers_are_graded() {
    assert!(matches!(grade(&question("Alice", false), "It is alice."), Grade::Settled(true)));
    assert!(matches!(grade(&question("Alice", false), "Bob"), Grade::Settled(false)));
    assert!(matches!(grade(&question("", false), ""), Grade::Settled(false)));
    match grade(&question("40", true), "forty, i.e. 40.0") {
        Grade::Compare { answer, truth } => {
            assert_eq!(answer.parse::<f64>().unwrap(), truth.parse::<f64>().unwrap());
        }
        other => panic!("expected a comparison, got {other:?}"),
    }
    assert!(matches!(grade(&question("40", true), "forty"), Grade::Settled(false)));
    assert!(matches!(grade(&question("n/a", true), "40"), Grade::Settled(false)));
}

#[test]
fn items_are_planned() {
    let cfg = ComprehendConfig::default();
    assert_eq!(cfg.max_context_bytes, 5000);
    let payload = "id,name\n1,Alice\n2,Bob\n3,Carol";
    let it = item("csv", "tabular", payload);
    let plan = plan_item(&it, &cfg).expect("worth asking about");
    assert_eq!(plan.toon, "[3]{id,name}:\n  1,Alice\n  2,Bob\n  3,Carol");
    assert_eq!(plan.questions.settled.len(), 2);
    assert!(plan_item(&it, &ComprehendConfig { max_context_bytes: payload.len() - 1 }).is_none());
    assert!(plan_item(&it, &ComprehendConfig { max_context_bytes: payload.len() }).is_some());
    assert!(plan_item(&item("json", "mixed", "{"), &cfg).is_none());
    assert!(plan_item(&item("json", "mixed", "[1,2]"), &cfg).is_none());
    assert_eq!(format_label("csv"), "CSV");
    assert_eq!(
        answer_prompt("TOON", "x: 1", "What?"),
        "Dataset (TOON):\nx: 1\n\nQuestion: What?"
    );
    assert!(answer_instruction().starts_with("You are a precise data-reading assistant."));
    let q = plan.questions.settled.into_iter().next().expect("count");
    let r = question_result(&it, q, ("3".to_string(), "4".to_string()), (true, false));
    assert_eq!((r.id.as_str(), r.qtype.as_str(), r.ground_truth.as_str()), ("item-1", "count", "3"));
    assert!(r.correct_json && !r.correct_toon);
}

#[test]
fn replies_are_sanitised() {
    assert_eq!(sanitize("  a,b\n1,2 \n", "csv"), "a,b\n1,2");
    assert_eq!(sanitize("Sure!\n```csv\na,b\n1,2\n```\nDone", "csv"), "a,b\n1,2");
    assert_eq!(sanitize("```json\n{\"a\":1}", "json"), "{\"a\":1}");
    assert_eq!(sanitize("Here: [1,2] ok", "json"), "[1,2]");
    assert_eq!(sanitize("} nothing {", "json"), "} nothing {");
    assert_eq!(sanitize("``````", "json"), "");
    assert_eq!(sanitize("Here: [1,2] ok", "jsonl"), "Here: [1,2] ok");
}

#[test]
fn prompts_name_the_task() {
    let s = system_prompt("jsonl");
    assert!(s.starts_with("You are a synthetic data generator. Output ONLY raw JSONL data"));
    assert!(s.ends_with("with plausible values."));
    assert_eq!(
        user_prompt("csv", ShapeClass::PrimitiveArray, "flight schedule departures", 20),
        "Domain: flight schedule departures.\nStructure: a large flat array of primitive scalars \
         only (numbers or short strings), no objects.\nTarget size: about 20 records/rows.\n\
         Produce CSV with a header row followed by data rows."
    );
}

#[test]
fn the_plan_covers_every_combination() {
    let all = combinations();
    assert_eq!(all.len(), 26);
    assert_eq!(
        (all[0].format, all[0].shape, all[0].records),
        (InputFormat::Json, ShapeClass::Tabular, 12)
    );
    assert_eq!(
        (all[14].format, all[14].shape, all[14].records),
        (InputFormat::Json, ShapeClass::PassThrough, 120)
    );
    assert_eq!(
        (all[20].format, all[20].shape, all[20].records),
        (InputFormat::Jsonl, ShapeClass::Mixed, 150)
    );
    assert_eq!(
        (all[25].format, all[25].shape, all[25].records),
        (InputFormat::Tsv, ShapeClass::Tabular, 80)
    );
}

#[test]
fn generation_retries_and_gives_up() {
    let mut g = Generator::new(GenConfig { max_retries: 1, ..GenConfig::default() });
    let prompt = g.prompt().expect("work to do");
    assert!(prompt.user.starts_with("Domain: ecommerce order line items.\n"));
    assert!(matches!(g.on_reply(None), Verdict::Retry));
    match g.on_reply(Some("```\n[1,2]\n```")) {
        Verdict::Accepted(it) => {
            assert_eq!(it.id, "json-tabular-12-0-1");
            assert_eq!(it.payload, "[1,2]");
            assert_eq!(it.bytes, 5);
            assert_eq!(it.category, "ecommerce order line items");
            assert_eq!(it.intended_shape, "tabular");
        }
        other => panic!("expected acceptance, got {other:?}"),
    }
    assert!(matches!(g.on_reply(Some("{")), Verdict::Retry));
    assert!(matches!(g.on_reply(Some("   ")), Verdict::GaveUp));
    let p = g.progress();
    assert_eq!((p.combination, p.seq, p.accepted, p.attempted), (2, 3, 1, 4));
    let mut steps = 0;
    while g.prompt().is_some() {
        let _ = g.on_reply(Some("[]"));
        steps += 1;
    }
    assert_eq!(steps, 24);
    assert_eq!(g.progress().accepted, 25);
    assert!(Generator::new(GenConfig { per_cell: 0, ..GenConfig::default() }).prompt().is_none());
}

fn table_payload() -> String {
    let rows: Vec<String> =
        (0..30).map(|i| format!(r#"{{"id":{i},"name":"user {i}","active":true}}"#)).collect();
    format!("[{}]", rows.join(","))
}

#[test]
fn items_are_measured() {
    let payload = table_payload();
    let config = CompressConfig::default();
    let (r, toon) = evaluate_item(&item("json", "tabular", &payload), &config, &close);
    let toon = toon.expect("encoded");
    assert!(r.compressed);
    assert_eq!(r.original_bytes, payload.len());
    assert_eq!(r.detected_format, "json");
    assert_eq!(r.actual_shape.as_deref(), Some("tabular"));
    assert_eq!(r.shape_correct, Some(true));
    assert_eq!(r.toon_bytes, Some(toon.len()));
    assert_eq!(r.pipeline_toon_bytes, Some(toon.len()));
    assert_eq!(r.roundtrip_ok, Some(true));
    assert!(r.error.is_none() && r.roundtrip_detail.is_none());
    let r = with_tokens(r, 100, 40);
    assert_eq!((r.orig_tokens, r.toon_tokens), (Some(100), Some(40)));

    let (r, toon) = evaluate_item(&item("json", "mixed", "[1,2"), &config, &close);
    assert!(toon.is_none());
    assert_eq!(r.pass_reason.as_deref(), Some("below_min_bytes"));
    assert_eq!(r.detected_format, "unknown");
    assert!(r.error.expect("unparseable").starts_with("parse failed: JSON parse error: "));
    assert!(r.roundtrip_ok.is_none());

    let never = |_: &Number, _: &Number| false;
    let (r, _) = evaluate_item(&item("json", "mixed", "[1,2]"), &config, &never);
    assert_eq!(r.shape_correct, Some(false));
    assert_eq!(r.roundtrip_ok, Some(false));
    assert_eq!(r.roundtrip_detail.as_deref(), Some("orig=[1,2] decoded=[1,2]"));
}

#[test]
fn long_lines_are_measured_too() {
    let numbers: Vec<String> = (0..40_000).map(|i| i.to_string()).collect();
    let payload = format!("[{}]", numbers.join(", "));
    let config = CompressConfig::default();
    let (r, toon) = evaluate_item(&item("json", "primitive_array", &payload), &config, &close);
    assert!(toon.expect("encoded").lines().any(|line| line.len() > 65_535));
    assert_eq!(r.roundtrip_ok, Some(true));
    assert!(r.roundtrip_detail.is_none());
}

#[test]
fn differences_are_clipped() {
    let long = JsonValue::String("x".repeat(500));
    let text = roundtrip_diff(&long, &JsonValue::Null);
    assert_eq!(text, format!("orig=\"{} decoded=null", "x".repeat(159)));
    assert_eq!(shape_str(ShapeClass::Mixed), "mixed");
    assert_eq!(fmt_str(InputFormat::Tsv), "tsv");
}

fn measured(format: &str, shape: &str, actual: Option<&str>, compressed: bool) -> PipelineResult {
    PipelineResult {
        id: String::new(),
        format: format.to_string(),
        category: String::new(),
        intended_shape: shape.to_string(),
        original_bytes: 100,
        detected_format: format.to_string(),
        actual_shape: actual.map(str::to_string),
        shape_correct: actual.map(|a| a == shape),
        compressed,
        pass_reason: if compressed { None } else { Some("below_min_bytes".to_string()) },
        pipeline_toon_bytes: if compressed { Some(60) } else { None },
        toon_bytes: actual.map(|_| 70),
        orig_tokens: if compressed { Some(50) } else { Some(0) },
        toon_tokens: Some(20),
        roundtrip_ok: actual.map(|_| compressed),
        roundtrip_detail: None,
        error: None,
    }
}

fn answered(qtype: &str, json: bool, toon: bool) -> ComprehensionResult {
    ComprehensionResult {
        id: String::new(),
        format: String::new(),
        intended_shape: String::new(),
        qtype: qtype.to_string(),
        question: String::new(),
        ground_truth: String::new(),
        answer_json: String::new(),
        answer_toon: String::new(),
        correct_json: json,
        correct_toon: toon,
    }
}

#[test]
fn the_report_adds_up() {
    let results = vec![
        measured("json", "tabular", Some("tabular"), true),
        measured("csv", "tabular", Some("mixed"), false),
        measured("json", "mixed", None, false),
        measured("json", "tabular", Some("tabular"), true),
    ];
    let answers = vec![
        answered("lookup", true, false),
        answered("count", true, true),
        answered("lookup", false, true),
    ];
    let r = build(&results, &answers);
    assert_eq!((r.overall.n, r.overall.compressed), (4, 2));
    assert_eq!(r.overall.pipeline_savings.len(), 2);
    assert_eq!(r.overall.byte_savings.len(), 3);
    assert_eq!(
        r.overall.token_savings,
        vec![Savings { input_bytes: 50, output_bytes: 20 }; 2]
    );
    let formats: Vec<(&str, usize)> =
        r.by_format.iter().map(|b| (b.key.as_str(), b.bucket.n)).collect();
    assert_eq!(formats, vec![("csv", 1), ("json", 3)]);
    let shapes: Vec<(&str, usize)> =
        r.by_shape.iter().map(|b| (b.key.as_str(), b.bucket.compressed)).collect();
    assert_eq!(shapes, vec![("mixed", 0), ("tabular", 2)]);
    assert_eq!(r.reasons.len(), 1);
    assert_eq!((r.reasons[0].key.as_str(), r.reasons[0].count), ("below_min_bytes", 2));
    assert_eq!(r.roundtrip_tested, 3);
    assert_eq!(r.roundtrip_failures, vec![1]);
    assert_eq!((r.graded, r.correct), (3, 2));
    assert_eq!(r.confusion.len(), 1);
    let actual: Vec<(&str, usize)> =
        r.confusion[0].actual.iter().map(|c| (c.key.as_str(), c.count)).collect();
    assert_eq!(actual, vec![("mixed", 1), ("tabular", 2)]);
    let questions: Vec<(&str, Accuracy)> =
        r.by_question.iter().map(|q| (q.key.as_str(), q.accuracy)).collect();
    assert_eq!(
        questions,
        vec![
            ("count", Accuracy { n: 1, json: 1, toon: 1 }),
            ("lookup", Accuracy { n: 2, json: 1, toon: 1 }),
        ]
    );
    assert_eq!(r.comprehension, Accuracy { n: 3, json: 2, toon: 2 });
}

#[test]
fn groups_cover_every_key() {
    let groups = group_by(&strings(&["b", "a", "b", "ab", "a", "b"]));
    let seen: Vec<(&str, Vec<usize>)> =
        groups.iter().map(|g| (g.key.as_str(), g.members.clone())).collect();
    assert_eq!(seen, vec![("a", vec![1, 4]), ("ab", vec![3]), ("b", vec![0, 2, 5])]);
}
