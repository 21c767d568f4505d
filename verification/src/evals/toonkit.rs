//! The parsers and the codec as the evaluation uses them.

use vstd::prelude::*;
use crate::bindings::{decode_toon, encode_toon, outcome, toon_decoding, toon_encoding};
use crate::compressor::Delimiter;
use crate::error::{fault_message, Fault};
use crate::parser::csv::{table, CsvParser, COMMA, TAB};
use crate::parser::json::{json_document, JsonParser};
use crate::parser::jsonl::{jsonl_reading, JsonlParser};
use crate::parser::Parser;
use crate::text::same_text;
use crate::value::{Json, JsonValue};

verus! {

/// What the parser named by `format` makes of a payload.
pub open spec fn named_parse(format: Seq<char>, payload: Seq<char>, coerce: bool) -> Option<
    Result<Json, Fault>,
> {
    if format == "json"@ {
        Some(json_document(payload))
    } else if format == "jsonl"@ {
        Some(jsonl_reading(payload))
    } else if format == "csv"@ {
        Some(
            match table(COMMA, coerce, payload) {
                Ok(t) => Ok(t.0),
                Err(e) => Err(e),
            },
        )
    } else if format == "tsv"@ {
        Some(
            match table(TAB, coerce, payload) {
                Ok(t) => Ok(t.0),
                Err(e) => Err(e),
            },
        )
    } else {
        None
    }
}

/// The value of a payload, or the message of the failure.
pub open spec fn payload_value(format: Seq<char>, payload: Seq<char>, coerce: bool) -> Result<
    Json,
    Seq<char>,
> {
    match named_parse(format, payload, coerce) {
        None => Err("unknown format `"@ + format + "`"@),
        Some(Ok(v)) => Ok(v),
        Some(Err(e)) => Err("parse failed: "@ + fault_message(e)),
    }
}

/// Parse a payload with the parser that the pipeline uses for its format.
pub fn parse_to_value(format: &str, payload: &str, numeric_coercion: bool) -> (r: Result<
    JsonValue,
    String,
>)
    ensures
        outcome(r) == payload_value(format@, payload@, numeric_coercion),
{
    proof {
        reveal_strlit("json");
        reveal_strlit("jsonl");
        reveal_strlit("csv");
        reveal_strlit("tsv");
    }
    let parsed = if same_text(format, "json") {
        JsonParser.parse(payload)
    } else if same_text(format, "jsonl") {
        JsonlParser.parse(payload)
    } else if same_text(format, "csv") {
        CsvParser::csv().with_numeric_coercion(numeric_coercion).parse(payload)
    } else if same_text(format, "tsv") {
        CsvParser::tsv().with_numeric_coercion(numeric_coercion).parse(payload)
    } else {
        return Err("unknown format `".to_owned().concat(format).concat("`"));
    };
    match parsed {
        Ok(v) => Ok(v),
        Err(e) => Err("parse failed: ".to_owned().concat(e.message().as_str())),
    }
}

/// A failure's message behind a prefix.
pub open spec fn prefixed<T>(r: Result<T, Seq<char>>, prefix: Seq<char>) -> Result<T, Seq<char>> {
    match r {
        Ok(v) => Ok(v),
        Err(m) => Err(prefix + m),
    }
}

/// The TOON text of a value under the default options, or the failure.
pub open spec fn pipeline_text(value: Json) -> Result<Seq<char>, Seq<char>> {
    prefixed(toon_encoding(value, Delimiter::Comma, true), "encode failed: "@)
}

/// The value of a TOON text under the default options, or the failure.
pub open spec fn pipeline_value(toon: Seq<char>) -> Result<Json, Seq<char>> {
    prefixed(toon_decoding(toon), "decode failed: "@)
}

/// Encode with the default pipeline options: comma delimiter, key folding.
pub fn encode_pipeline(value: &JsonValue) -> (r: Result<String, String>)
    ensures
        outcome(r) == pipeline_text(value@),
{
    match encode_toon(value, Delimiter::Comma, true) {
        Ok(toon) => Ok(toon),
        Err(m) => Err("encode failed: ".to_owned().concat(m.as_str())),
    }
}

/// Decode pipeline output. Folded keys are expanded into nested objects again.
pub fn decode_pipeline(toon: &str) -> (r: Result<JsonValue, String>)
    ensures
        outcome(r) == pipeline_value(toon@),
{
    match decode_toon(toon) {
        Ok(value) => Ok(value),
        Err(m) => Err("decode failed: ".to_owned().concat(m.as_str())),
    }
}

} // verus!
