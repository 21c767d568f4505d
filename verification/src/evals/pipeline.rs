//! Pipeline evaluation: what the compressor does with a corpus item, and whether
//! decoding gives the parsed value back.

use vstd::prelude::*;
use crate::bindings::{json_text, write_json};
use crate::classifier::{default_thresholds, shape_name, shape_of, Classifier, ShapeClass};
use crate::compressor::{
    decision, reason_name, CompressConfig, CompressDecision, Compressor, Decision,
};
use crate::detector::{format_name, InputFormat};
use crate::evals::corpus::CorpusItem;
use crate::evals::toonkit::{
    decode_pipeline, encode_pipeline, parse_to_value, payload_value, pipeline_text, pipeline_value,
};
use crate::fidelity::{decides, equivalent, values_equiv};
use crate::text::{byte_len, bytes_in, chars_of, optional, same_text, text_between};
use crate::value::{Json, JsonValue, Num, Number};

verus! {

/// The measurements of one corpus item. A saved percentage is
/// `100 * (1 - after / before)` of the byte or token counts.
#[derive(Debug)]
pub struct PipelineResult {
    /// Identifier of the item.
    pub id: String,
    /// Format of the payload.
    pub format: String,
    /// Domain label.
    pub category: String,
    /// Shape that the payload was meant to have.
    pub intended_shape: String,
    /// Byte length of the payload.
    pub original_bytes: usize,
    /// Detected format.
    pub detected_format: String,
    /// Shape of the parsed value.
    pub actual_shape: Option<String>,
    /// Whether the shape is the intended one.
    pub shape_correct: Option<bool>,
    /// Whether the server would compress the payload.
    pub compressed: bool,
    /// Why it would not.
    pub pass_reason: Option<String>,
    /// Byte length of the server's output, when compressed.
    pub pipeline_toon_bytes: Option<usize>,
    /// Byte length of the TOON text, whatever the server decides.
    pub toon_bytes: Option<usize>,
    /// Tokens of the payload.
    pub orig_tokens: Option<usize>,
    /// Tokens of the TOON text.
    pub toon_tokens: Option<usize>,
    /// Whether decoding gives the parsed value back.
    pub roundtrip_ok: Option<bool>,
    /// What differs, where it does not.
    pub roundtrip_detail: Option<String>,
    /// Why the payload could not be measured.
    pub error: Option<String>,
}

/// The name of a shape.
pub fn shape_str(s: ShapeClass) -> (r: &'static str)
    ensures
        r@ == shape_name(s),
{
    s.as_str()
}

/// The name of a format.
pub fn fmt_str(f: InputFormat) -> (r: &'static str)
    ensures
        r@ == format_name(f),
{
    f.as_str()
}

/// The first `n` characters of `s`.
pub open spec fn clip_to(s: Seq<char>, n: nat) -> Seq<char> {
    if s.len() <= n {
        s
    } else {
        s.take(n as int)
    }
}

/// The first `n` characters of a text.
fn clip(s: &str, n: usize) -> (r: String)
    ensures
        r@ == clip_to(s@, n as nat),
{
    let chars = chars_of(s);
    let end: usize = if chars.len() <= n {
        chars.len()
    } else {
        n
    };
    assert(chars@.subrange(0, end as int) =~= clip_to(s@, n as nat));
    text_between(&chars, 0, end)
}

/// How a value and what was decoded of it differ, as clipped JSON.
pub open spec fn difference(orig: Json, decoded: Json) -> Seq<char> {
    "orig="@ + clip_to(json_text(orig), 160) + " decoded="@ + clip_to(json_text(decoded), 160)
}

/// Describes how a value and what was decoded of it differ.
pub fn roundtrip_diff(orig: &JsonValue, decoded: &JsonValue) -> (r: String)
    ensures
        r@ == difference(orig@, decoded@),
{
    let o = write_json(orig);
    let d = write_json(decoded);
    "orig=".to_owned().concat(clip(o.as_str(), 160).as_str()).concat(" decoded=").concat(
        clip(d.as_str(), 160).as_str(),
    )
}

/// Whether decoding `toon` gives `value` back, and what differs where not.
pub open spec fn fidelity_of(value: Json, toon: Seq<char>, close: spec_fn(Num, Num) -> bool) -> (
    bool,
    Option<Seq<char>>,
) {
    match pipeline_value(toon) {
        Ok(decoded) => if equivalent(value, decoded, close) {
            (true, None)
        } else {
            (false, Some(difference(value, decoded)))
        },
        Err(m) => (false, Some("decode error: "@ + m)),
    }
}

/// Decodes a TOON text and compares the result with the value it was made from.
fn check_fidelity<F: Fn(&Number, &Number) -> bool>(
    value: &JsonValue,
    toon: &str,
    close: &F,
) -> (r: (bool, Option<String>))
    requires
        forall|x: &Number, y: &Number| #[trigger] call_requires(*close, (x, y)),
    ensures
        r.1 is Some <==> !r.0,
        forall|relation: spec_fn(Num, Num) -> bool| #[trigger]
            decides(*close, relation) ==> (r.0, optional(r.1)) == fidelity_of(
                value@,
                toon@,
                relation,
            ),
{
    match decode_pipeline(toon) {
        Ok(decoded) => {
            if values_equiv(value, &decoded, close) {
                (true, None)
            } else {
                (false, Some(roundtrip_diff(value, &decoded)))
            }
        },
        Err(m) => (false, Some("decode error: ".to_owned().concat(m.as_str()))),
    }
}

/// Whether `r` carries the item's own data.
pub open spec fn is_about(r: PipelineResult, item: CorpusItem) -> bool {
    &&& r.id@ == item.id@
    &&& r.format@ == item.format@
    &&& r.category@ == item.category@
    &&& r.intended_shape@ == item.intended_shape@
    &&& r.original_bytes == byte_len(item.payload@)
    &&& r.orig_tokens is None
    &&& r.toon_tokens is None
}

/// Whether `r` reports the server's decision on the payload.
pub open spec fn reports_decision(r: PipelineResult, d: Decision) -> bool {
    match d {
        Decision::Compressed { toon, input_format, .. } => {
            &&& r.compressed
            &&& r.detected_format@ == format_name(input_format)
            &&& r.pipeline_toon_bytes == Some(byte_len(toon) as usize)
            &&& r.pass_reason is None
        },
        Decision::PassedThrough { reason, input_format } => {
            &&& !r.compressed
            &&& r.detected_format@ == (match input_format {
                Some(f) => format_name(f),
                None => "unknown"@,
            })
            &&& r.pipeline_toon_bytes is None
            &&& optional(r.pass_reason) == Some(reason_name(reason))
        },
    }
}

/// The shape that a decision alone reports.
pub open spec fn decided_shape(d: Decision) -> Option<Seq<char>> {
    match d {
        Decision::Compressed { shape_class, .. } => Some(shape_name(shape_class)),
        Decision::PassedThrough { .. } => None,
    }
}

/// Whether `r` reports the measurements on the parsed value, apart from
/// fidelity, and `toon` is the text that was measured.
pub open spec fn reports_value(
    r: PipelineResult,
    toon: Option<String>,
    parse: Result<Json, Seq<char>>,
    d: Decision,
    intended: Seq<char>,
) -> bool {
    match parse {
        Err(m) => {
            &&& optional(r.error) == Some(m)
            &&& optional(r.actual_shape) == decided_shape(d)
            &&& r.shape_correct is None
            &&& r.toon_bytes is None
            &&& toon is None
        },
        Ok(value) => {
            let shape = shape_name(shape_of(value, default_thresholds()));
            &&& optional(r.actual_shape) == Some(shape)
            &&& r.shape_correct == Some(shape == intended)
            &&& match pipeline_text(value) {
                Err(m) => {
                    &&& optional(r.error) == Some(m)
                    &&& r.toon_bytes is None
                    &&& toon is None
                },
                Ok(text) => {
                    &&& r.error is None
                    &&& r.toon_bytes == Some(byte_len(text) as usize)
                    &&& optional(toon) == Some(text)
                },
            }
        },
    }
}

/// Whether `r` reports the fidelity of the codec on the parsed value.
pub open spec fn reports_fidelity(
    r: PipelineResult,
    parse: Result<Json, Seq<char>>,
    close: spec_fn(Num, Num) -> bool,
) -> bool {
    match parse {
        Ok(value) => match pipeline_text(value) {
            Ok(text) => {
                &&& r.roundtrip_ok == Some(fidelity_of(value, text, close).0)
                &&& optional(r.roundtrip_detail) == fidelity_of(value, text, close).1
            },
            Err(_) => r.roundtrip_ok is None && r.roundtrip_detail is None,
        },
        Err(_) => r.roundtrip_ok is None && r.roundtrip_detail is None,
    }
}

/// Measures one corpus item: what the server would do with its payload, the
/// shape and the TOON text of its value, and whether decoding gives the value
/// back. The TOON text is returned for token counts.
pub fn evaluate_item<F: Fn(&Number, &Number) -> bool>(
    item: &CorpusItem,
    config: &CompressConfig,
    close: &F,
) -> (r: (PipelineResult, Option<String>))
    requires
        forall|x: &Number, y: &Number| #[trigger] call_requires(*close, (x, y)),
    ensures
        is_about(r.0, *item),
        reports_decision(r.0, decision(*config, item.payload@).0),
        reports_value(
            r.0,
            r.1,
            payload_value(item.format@, item.payload@, config.csv_numeric_coercion),
            decision(*config, item.payload@).0,
            item.intended_shape@,
        ),
        r.0.roundtrip_ok is Some <==> r.0.error is None,
        r.0.roundtrip_detail is Some <==> r.0.roundtrip_ok == Some(false),
        forall|relation: spec_fn(Num, Num) -> bool| #[trigger]
            decides(*close, relation) ==> reports_fidelity(
                r.0,
                payload_value(item.format@, item.payload@, config.csv_numeric_coercion),
                relation,
            ),
{
    let mut result = PipelineResult {
        id: item.id.clone(),
        format: item.format.clone(),
        category: item.category.clone(),
        intended_shape: item.intended_shape.clone(),
        original_bytes: bytes_in(item.payload.as_str()),
        detected_format: "unknown".to_owned(),
        actual_shape: None,
        shape_correct: None,
        compressed: false,
        pass_reason: None,
        pipeline_toon_bytes: None,
        toon_bytes: None,
        orig_tokens: None,
        toon_tokens: None,
        roundtrip_ok: None,
        roundtrip_detail: None,
        error: None,
    };
    match Compressor::decide(item.payload.as_str(), config) {
        CompressDecision::Compressed {
            toon: _,
            original_bytes: _,
            toon_bytes,
            savings: _,
            input_format,
            shape_class,
        } => {
            result.compressed = true;
            result.detected_format = fmt_str(input_format).to_owned();
            result.pipeline_toon_bytes = Some(toon_bytes);
            result.actual_shape = Some(shape_str(shape_class).to_owned());
        },
        CompressDecision::PassedThrough { reason, input_format } => {
            result.pass_reason = Some(reason.as_str().to_owned());
            match input_format {
                Some(f) => {
                    result.detected_format = fmt_str(f).to_owned();
                },
                None => {},
            }
        },
    }
    let value = match parse_to_value(
        item.format.as_str(),
        item.payload.as_str(),
        config.csv_numeric_coercion,
    ) {
        Ok(v) => v,
        Err(m) => {
            result.error = Some(m);
            return (result, None);
        },
    };
    let actual = shape_str(Classifier::classify(&value));
    result.actual_shape = Some(actual.to_owned());
    result.shape_correct = Some(same_text(actual, item.intended_shape.as_str()));
    let toon = match encode_pipeline(&value) {
        Ok(t) => t,
        Err(m) => {
            result.error = Some(m);
            return (result, None);
        },
    };
    result.toon_bytes = Some(bytes_in(toon.as_str()));
    let (ok, detail) = check_fidelity(&value, toon.as_str(), close);
    result.roundtrip_ok = Some(ok);
    result.roundtrip_detail = detail;
    (result, Some(toon))
}

/// Adds token counts to the measurements.
pub fn with_tokens(result: PipelineResult, orig: usize, toon: usize) -> (r: PipelineResult)
    ensures
        r == (PipelineResult { orig_tokens: Some(orig), toon_tokens: Some(toon), ..result }),
{
    let mut r = result;
    r.orig_tokens = Some(orig);
    r.toon_tokens = Some(toon);
    r
}

} // verus!
