use toon_mcp::classifier::{Classifier, ShapeClass};
use toon_mcp::error::CoreError;
use toon_mcp::parser::csv::{is_integer_literal, numeric_text_may_be_lossy, CsvParser};
use toon_mcp::parser::Parser;
use toon_mcp::value::{JsonValue, Number};

fn items(v: &JsonValue) -> &Vec<JsonValue> {
    match v {
        JsonValue::Array(a) => a,
        other => panic!("value must be an array, got {other:?}"),
    }
}

fn get<'a>(v: &'a JsonValue, key: &str) -> &'a JsonValue {
    match v {
        JsonValue::Object(m) => &m.iter().find(|(k, _)| k == key).expect("key present").1,
        other => panic!("value must be an object, got {other:?}"),
    }
}

fn contains_key(v: &JsonValue, key: &str) -> bool {
    matches!(v, JsonValue::Object(m) if m.iter().any(|(k, _)| k == key))
}

fn text(s: &str) -> JsonValue {
    JsonValue::String(s.to_string())
}

fn integer(i: u64) -> JsonValue {
    JsonValue::Number(Number::PosInt(i))
}

fn float(s: &str) -> JsonValue {
    JsonValue::Number(Number::Float(s.to_string()))
}

fn is_string(v: &JsonValue) -> bool {
    matches!(v, JsonValue::String(_))
}

#[test]
fn parse_csv_with_header() {
    let input = "id,name,score\n1,Alice,9.5\n2,Bob,8.0";
    let p = CsvParser::csv();
    let v = p.parse(input).unwrap();
    let arr = items(&v);
    assert_eq!(arr.len(), 2);
    assert_eq!(get(&arr[0], "id"), &integer(1));
    assert_eq!(get(&arr[0], "name"), &text("Alice"));
    assert_eq!(get(&arr[0], "score"), &float("9.5"));
}

#[test]
fn parse_tsv_delimiter() {
    let input = "id\tname\n1\tAlice\n2\tBob";
    let p = CsvParser::tsv();
    let v = p.parse(input).unwrap();
    let arr = items(&v);
    assert_eq!(arr.len(), 2);
    assert_eq!(get(&arr[0], "name"), &text("Alice"));
}

#[test]
fn numeric_coercion() {
    let input = "x,y\n1,2\n3,4";
    let p = CsvParser::csv();
    let v = p.parse(input).unwrap();
    let arr = items(&v);
    assert!(get(&arr[0], "x").is_number());
    assert!(get(&arr[0], "y").is_number());
}

#[test]
fn non_numeric_stays_string() {
    let input = "tag,value\nhello,world";
    let p = CsvParser::csv();
    let v = p.parse(input).unwrap();
    assert_eq!(get(&items(&v)[0], "tag"), &text("hello"));
    assert_eq!(get(&items(&v)[0], "value"), &text("world"));
}

#[test]
fn header_only_csv_returns_empty_array() {
    let input = "id,name,score";
    let p = CsvParser::csv();
    let v = p.parse(input).unwrap();
    assert!(items(&v).is_empty());
}

#[test]
fn csv_with_unicode_values_parses() {
    let input = "name,city\nAlice,東京\nBob,大阪";
    let p = CsvParser::csv();
    let v = p.parse(input).unwrap();
    let arr = items(&v);
    assert_eq!(arr.len(), 2);
    assert_eq!(get(&arr[0], "city"), &text("東京"));
    assert_eq!(get(&arr[1], "name"), &text("Bob"));
}

#[test]
fn disabled_coercion_preserves_strings() {
    let v = CsvParser::csv().with_numeric_coercion(false).parse("id,x\n1,2").unwrap();
    assert!(is_string(get(&items(&v)[0], "id")));
    assert!(is_string(get(&items(&v)[0], "x")));
}

#[test]
fn coercion_metadata_reports_numeric_fields() {
    let meta = CsvParser::csv().coercion_metadata("id,name\n1,Alice").unwrap();
    assert!(meta.numeric_coercion_used);
    assert!(!meta.lossy_coercion_possible);
}

#[test]
fn coercion_metadata_flags_lossy_spellings() {
    let meta = CsvParser::csv().coercion_metadata("zip,count\n00123,1.0").unwrap();
    assert!(meta.numeric_coercion_used);
    assert!(meta.lossy_coercion_possible);
}

#[test]
fn disabled_coercion_metadata_reports_no_coercion() {
    let meta = CsvParser::csv()
        .with_numeric_coercion(false)
        .coercion_metadata("id\n1")
        .unwrap();
    assert!(!meta.numeric_coercion_used);
    assert!(!meta.lossy_coercion_possible);
}

#[test]
fn duplicate_csv_headers_are_rejected() {
    let input = "id,name,id\n1,Alice,2";
    let err = CsvParser::csv().parse(input).expect_err("must reject");
    match err {
        CoreError::DuplicateHeader { header } => assert_eq!(header, "id"),
        other => panic!("expected DuplicateHeader, got {other:?}"),
    }
}

#[test]
fn duplicate_tsv_headers_are_rejected() {
    let input = "id\tname\tid\n1\tAlice\t2";
    let err = CsvParser::tsv().parse(input).expect_err("must reject");
    match err {
        CoreError::DuplicateHeader { header } => assert_eq!(header, "id"),
        other => panic!("expected DuplicateHeader, got {other:?}"),
    }
}

#[test]
fn case_sensitive_headers_are_distinct() {
    let input = "id,ID\n1,2";
    let v = CsvParser::csv().parse(input).expect("parse");
    let obj = &items(&v)[0];
    assert!(contains_key(obj, "id"));
    assert!(contains_key(obj, "ID"));
}

#[test]
fn csv_integer_column_stays_integer() {
    let input = "id,v\n1,a\n2,b\n3,c";
    let v = CsvParser::csv().parse(input).unwrap();
    let arr = items(&v);
    for (idx, expected) in [(0usize, 1u64), (1, 2), (2, 3)] {
        let num = get(&arr[idx], "id");
        assert_eq!(num, &integer(expected), "id must be an integer number");
    }
}

#[test]
fn csv_large_integer_id_preserved_as_string() {
    let input = "id,v\n1234567890123456789,a";
    let v = CsvParser::csv().parse(input).unwrap();
    assert_eq!(get(&items(&v)[0], "id"), &text("1234567890123456789"));
}

#[test]
fn csv_large_integer_flags_lossy() {
    let meta = CsvParser::csv().coercion_metadata("id,v\n1234567890123456789,a").unwrap();
    assert!(meta.lossy_coercion_possible);
}

#[test]
fn csv_float_column_still_coerces() {
    let input = "id,score\n1,9.5";
    let v = CsvParser::csv().parse(input).unwrap();
    let score = get(&items(&v)[0], "score");
    assert_eq!(score, &float("9.5"), "score must remain a float");
}

#[test]
fn integer_beyond_i64_preserved_as_string() {
    let input = "id\n99999999999999999999";
    let p = CsvParser::csv();
    let v = p.parse(input).unwrap();
    assert_eq!(get(&items(&v)[0], "id"), &text("99999999999999999999"));
    let meta = p.coercion_metadata(input).unwrap();
    assert!(meta.lossy_coercion_possible);
}

#[test]
fn csv_leading_bom_is_stripped() {
    let v = CsvParser::csv().parse("\u{feff}id,name\n1,Alice").expect("parse");
    let obj = &items(&v)[0];
    assert!(contains_key(obj, "id"), "BOM must not corrupt the header");
    let meta = CsvParser::csv()
        .coercion_metadata("\u{feff}id,name\n1,Alice")
        .expect("metadata");
    assert!(meta.numeric_coercion_used);
}

#[test]
fn infinity_and_nan_fields_become_strings() {
    let input = "x,y\ninf,nan\n1,2";
    let p = CsvParser::csv();
    let v = p.parse(input).unwrap();
    let arr = items(&v);
    assert!(is_string(get(&arr[0], "x")), "inf should become a string");
    assert!(is_string(get(&arr[0], "y")), "nan should become a string");
    assert!(get(&arr[1], "x").is_number());
}

#[test]
fn safe_integer_bound_is_inclusive() {
    let input = "a,b,c,d\n9007199254740992,9007199254740993,-9007199254740992,-9007199254740993";
    let v = CsvParser::csv().parse(input).unwrap();
    let r = &items(&v)[0];
    assert_eq!(get(r, "a"), &integer(9_007_199_254_740_992));
    assert_eq!(get(r, "b"), &text("9007199254740993"));
    assert_eq!(get(r, "c"), &JsonValue::Number(Number::NegInt(-9_007_199_254_740_992)));
    assert_eq!(get(r, "d"), &text("-9007199254740993"));
}

#[test]
fn signed_and_padded_fields() {
    let v = CsvParser::csv().parse("a,b,c,d\n-7,+7, 7,1e3").unwrap();
    let r = &items(&v)[0];
    assert_eq!(get(r, "a"), &JsonValue::Number(Number::NegInt(-7)));
    assert_eq!(get(r, "b"), &integer(7));
    assert_eq!(get(r, "c"), &text(" 7"));
    assert_eq!(get(r, "d"), &float("1000.0"));
}

#[test]
fn overflowing_float_stays_text() {
    let v = CsvParser::csv().parse("a,b\n1e999,x").unwrap();
    assert_eq!(get(&items(&v)[0], "a"), &text("1e999"));
}

#[test]
fn lossy_spellings_are_recognised() {
    assert!(numeric_text_may_be_lossy("+5"));
    assert!(numeric_text_may_be_lossy("1e3"));
    assert!(numeric_text_may_be_lossy("1E3"));
    assert!(numeric_text_may_be_lossy("007"));
    assert!(numeric_text_may_be_lossy("-00.5"));
    assert!(numeric_text_may_be_lossy("1234567890123456"));
    assert!(numeric_text_may_be_lossy("2.0"));
    assert!(numeric_text_may_be_lossy("-0.0"));
    assert!(numeric_text_may_be_lossy("9007199254740993.5"));
    assert!(!numeric_text_may_be_lossy("123456789012345"));
    assert!(!numeric_text_may_be_lossy("0"));
    assert!(!numeric_text_may_be_lossy("0.5"));
    assert!(!numeric_text_may_be_lossy("-2.25"));
    assert!(!numeric_text_may_be_lossy("1234567890123456.5"));
    assert!(!numeric_text_may_be_lossy("abc"));
    assert!(!numeric_text_may_be_lossy(""));
}

#[test]
fn integer_literals_are_recognised() {
    assert!(is_integer_literal("0"));
    assert!(is_integer_literal("-12"));
    assert!(is_integer_literal("+99999999999999999999"));
    assert!(!is_integer_literal(""));
    assert!(!is_integer_literal("-"));
    assert!(!is_integer_literal("--1"));
    assert!(!is_integer_literal(" 1"));
    assert!(!is_integer_literal("1.0"));
}

#[test]
fn uneven_record_is_a_csv_error() {
    let err = CsvParser::csv().parse("a,b\n1,2\n3").expect_err("must reject");
    match err {
        CoreError::CsvError(m) => assert!(m.contains("found record with 1 fields")),
        other => panic!("expected CsvError, got {other:?}"),
    }
    // The header alone decides where coercion is off.
    let meta = CsvParser::csv()
        .with_numeric_coercion(false)
        .coercion_metadata("a,b\n1,2\n3")
        .expect("metadata");
    assert!(!meta.numeric_coercion_used);
    assert!(CsvParser::csv().coercion_metadata("a,b\n1,2\n3").is_err());
}

#[test]
fn parse_and_metadata_agree() {
    let p = CsvParser::csv();
    let input = "zip,count\n00123,1.5\n7,8";
    let (v, meta) = p.parse_with_coercion_metadata(input).unwrap();
    assert_eq!(v, p.parse(input).unwrap());
    assert_eq!(meta, p.coercion_metadata(input).unwrap());
    assert!(meta.numeric_coercion_used && meta.lossy_coercion_possible);
}

#[test]
fn parsed_tables_are_tabular() {
    let v = CsvParser::csv().parse("a,b\n1,x\n2,y\n3,z").unwrap();
    assert_eq!(Classifier::classify(&v), ShapeClass::Tabular);
}

#[test]
fn quoted_fields_keep_their_delimiters() {
    let v = CsvParser::csv().parse("a,b\n\"x,y\",\"say \"\"hi\"\"\"").unwrap();
    let r = &items(&v)[0];
    assert_eq!(get(r, "a"), &text("x,y"));
    assert_eq!(get(r, "b"), &text("say \"hi\""));
}

#[test]
fn custom_delimiter_is_used() {
    let v = CsvParser::new(b';').parse("a;b\n1;2").unwrap();
    assert_eq!(get(&items(&v)[0], "b"), &integer(2));
}

#[test]
fn string_cells_survive_both_delimiters() {
    let rows = [["ab", "c d"], ["e_f", "g-h"]];
    for (delim, parser) in [(",", CsvParser::csv()), ("\t", CsvParser::tsv())] {
        let mut input = ["one", "two"].join(delim);
        for row in rows {
            input.push('\n');
            input.push_str(&row.join(delim));
        }
        let v = parser.parse(&input).unwrap();
        for (i, row) in rows.iter().enumerate() {
            assert_eq!(get(&items(&v)[i], "one"), &text(row[0]));
            assert_eq!(get(&items(&v)[i], "two"), &text(row[1]));
        }
    }
}
