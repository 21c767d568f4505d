//! The compression pipeline: size gates, detection, parsing, classification,
//! TOON encoding and the savings gate.

use vstd::prelude::*;
use crate::bindings::{encode_toon, outcome, toon_encoding};
use crate::classifier::{
    shape_of, Classifier, ClassifyConfig, ShapeClass, FOLD_MIN_DEPTH, PRIMITIVE_ARRAY_MIN,
    TABULAR_MIN_ROWS,
};
use crate::detector::{
    detected, undetected, Detection, DetectionMetadata, FormatDetector, InputFormat,
};
use crate::error::{fault_message, CoreError, Fault};
use crate::parser::csv::{table, CsvCoercionMetadata, CsvParser, COMMA, TAB};
use crate::parser::json::{json_document, JsonParser};
use crate::parser::jsonl::{jsonl_reading, JsonlParser};
use crate::parser::Parser;
use crate::ratio::{within, Ratio, Savings};
use crate::text::{byte_len, bytes_in};
use crate::value::{Json, JsonValue};

verus! {

/// Default upper bound on the input length: 10 MiB.
pub const DEFAULT_MAX_INPUT_BYTES: usize = 10_485_760;

/// The delimiter between the items of an inline TOON array.
#[derive(Debug, Clone, Copy, PartialEq, Eq, Structural)]
pub enum Delimiter {
    /// `,`
    Comma,
    /// A horizontal tab.
    Tab,
    /// `|`
    Pipe,
}

/// Configuration of the compressor.
#[derive(Debug, Clone, Copy, PartialEq, Eq, Structural)]
pub struct CompressConfig {
    /// Largest accepted ratio of output bytes to input bytes. The output must
    /// also be shorter than the input.
    pub max_output_ratio: Ratio,
    /// Inputs below this byte length are passed through unexamined.
    pub min_bytes: usize,
    /// Inputs above this byte length are passed through unexamined.
    pub max_input_bytes: usize,
    /// Whether single-key chains are folded into dotted keys.
    pub key_folding: bool,
    /// The array delimiter of the TOON output.
    pub delimiter: Delimiter,
    /// Minimum array length for the tabular shape.
    pub tabular_min_rows: usize,
    /// Minimum chain length for the fold-chain shape.
    pub fold_min_depth: usize,
    /// Minimum array length for the primitive-array shape.
    pub primitive_array_min: usize,
    /// Whether numeric-looking CSV and TSV fields become numbers.
    pub csv_numeric_coercion: bool,
}

/// The default configuration.
pub open spec fn default_config() -> CompressConfig {
    CompressConfig {
        max_output_ratio: Ratio { digits: 85, places: 2 },
        min_bytes: 256,
        max_input_bytes: DEFAULT_MAX_INPUT_BYTES,
        key_folding: true,
        delimiter: Delimiter::Comma,
        tabular_min_rows: TABULAR_MIN_ROWS,
        fold_min_depth: FOLD_MIN_DEPTH,
        primitive_array_min: PRIMITIVE_ARRAY_MIN,
        csv_numeric_coercion: true,
    }
}

impl Default for CompressConfig {
    fn default() -> (r: Self)
        ensures
            r == default_config(),
    {
        Self {
            max_output_ratio: Ratio { digits: 85, places: 2 },
            min_bytes: 256,
            max_input_bytes: DEFAULT_MAX_INPUT_BYTES,
            key_folding: true,
            delimiter: Delimiter::Comma,
            tabular_min_rows: TABULAR_MIN_ROWS,
            fold_min_depth: FOLD_MIN_DEPTH,
            primitive_array_min: PRIMITIVE_ARRAY_MIN,
            csv_numeric_coercion: true,
        }
    }
}

/// The classification thresholds of a configuration.
pub open spec fn thresholds(config: CompressConfig) -> ClassifyConfig {
    ClassifyConfig {
        tabular_min_rows: config.tabular_min_rows,
        fold_min_depth: config.fold_min_depth,
        primitive_array_min: config.primitive_array_min,
    }
}

/// Why content was passed through without compression.
#[derive(Debug)]
pub enum PassThroughReason {
    /// The input format was not recognised.
    UnknownFormat,
    /// The input is shorter than `min_bytes`.
    BelowMinBytes,
    /// The input is longer than `max_input_bytes`.
    InputExceedsLimit {
        /// Byte length of the input.
        actual: usize,
        /// Configured limit.
        limit: usize,
    },
    /// The encoded output is not short enough.
    InsufficientSavings {
        /// What encoding would have saved.
        savings: Savings,
        /// Configured ratio.
        max_output_ratio: Ratio,
    },
    /// The classifier found no shape that encoding would shorten.
    ShapeNotBeneficial,
    /// The input could not be parsed.
    ParseFailed {
        /// The format where parsing failed.
        format: InputFormat,
        /// Human-readable description of the failure.
        detail: String,
    },
    /// The input parsed but could not be encoded.
    EncodeFailed {
        /// Human-readable description of the failure.
        detail: String,
    },
}

/// Mathematical model of a [`PassThroughReason`].
pub enum Reason {
    UnknownFormat,
    BelowMinBytes,
    InputExceedsLimit { actual: nat, limit: nat },
    InsufficientSavings { savings: Savings, max_output_ratio: Ratio },
    ShapeNotBeneficial,
    ParseFailed { format: InputFormat, detail: Seq<char> },
    EncodeFailed { detail: Seq<char> },
}

impl View for PassThroughReason {
    type V = Reason;

    open spec fn view(&self) -> Reason {
        match self {
            PassThroughReason::UnknownFormat => Reason::UnknownFormat,
            PassThroughReason::BelowMinBytes => Reason::BelowMinBytes,
            PassThroughReason::InputExceedsLimit { actual, limit } => Reason::InputExceedsLimit {
                actual: *actual as nat,
                limit: *limit as nat,
            },
            PassThroughReason::InsufficientSavings { savings, max_output_ratio } => {
                Reason::InsufficientSavings {
                    savings: *savings,
                    max_output_ratio: *max_output_ratio,
                }
            },
            PassThroughReason::ShapeNotBeneficial => Reason::ShapeNotBeneficial,
            PassThroughReason::ParseFailed { format, detail } => Reason::ParseFailed {
                format: *format,
                detail: detail@,
            },
            PassThroughReason::EncodeFailed { detail } => Reason::EncodeFailed { detail: detail@ },
        }
    }
}

/// The stable lowercase name of a reason.
pub open spec fn reason_name(r: Reason) -> Seq<char> {
    match r {
        Reason::UnknownFormat => "unknown_format"@,
        Reason::BelowMinBytes => "below_min_bytes"@,
        Reason::InputExceedsLimit { .. } => "input_exceeds_limit"@,
        Reason::InsufficientSavings { .. } => "insufficient_savings"@,
        Reason::ShapeNotBeneficial => "shape_not_beneficial"@,
        Reason::ParseFailed { .. } => "parse_failed"@,
        Reason::EncodeFailed { .. } => "encode_failed"@,
    }
}

impl PassThroughReason {
    /// A stable lowercase identifier for logging.
    pub fn as_str(&self) -> (r: &'static str)
        ensures
            r@ == reason_name(self@),
    {
        match self {
            PassThroughReason::UnknownFormat => "unknown_format",
            PassThroughReason::BelowMinBytes => "below_min_bytes",
            PassThroughReason::InputExceedsLimit { .. } => "input_exceeds_limit",
            PassThroughReason::InsufficientSavings { .. } => "insufficient_savings",
            PassThroughReason::ShapeNotBeneficial => "shape_not_beneficial",
            PassThroughReason::ParseFailed { .. } => "parse_failed",
            PassThroughReason::EncodeFailed { .. } => "encode_failed",
        }
    }
}

/// The outcome of a compression attempt.
#[derive(Debug)]
#[allow(inconsistent_fields)]
pub enum CompressDecision {
    /// Compression was applied and saves enough.
    Compressed {
        /// The TOON output.
        toon: String,
        /// Byte length of the input.
        original_bytes: usize,
        /// Byte length of the output.
        toon_bytes: usize,
        /// What the output saves.
        savings: Savings,
        /// The detected format.
        input_format: InputFormat,
        /// The shape of the parsed value.
        shape_class: ShapeClass,
    },
    /// Content was not compressed; the original input is to be used as it is.
    PassedThrough {
        /// Why compression was skipped.
        reason: PassThroughReason,
        /// The detected format, where detection ran.
        input_format: Option<InputFormat>,
    },
}

/// Mathematical model of a [`CompressDecision`].
#[allow(inconsistent_fields)]
pub enum Decision {
    Compressed {
        toon: Seq<char>,
        original_bytes: nat,
        input_format: InputFormat,
        shape_class: ShapeClass,
    },
    PassedThrough { reason: Reason, input_format: Option<InputFormat> },
}

impl View for CompressDecision {
    type V = Decision;

    open spec fn view(&self) -> Decision {
        match self {
            CompressDecision::Compressed {
                toon,
                original_bytes,
                input_format,
                shape_class,
                ..
            } => Decision::Compressed {
                toon: toon@,
                original_bytes: *original_bytes as nat,
                input_format: *input_format,
                shape_class: *shape_class,
            },
            CompressDecision::PassedThrough { reason, input_format } => Decision::PassedThrough {
                reason: reason@,
                input_format: *input_format,
            },
        }
    }
}

impl CompressDecision {
    /// Whether the byte counts of a compressed outcome are those of its texts.
    pub open spec fn counts_agree(&self) -> bool {
        match self {
            CompressDecision::Compressed { toon, original_bytes, toon_bytes, savings, .. } => {
                &&& *toon_bytes == byte_len(toon@)
                &&& *savings == (Savings {
                    input_bytes: *original_bytes,
                    output_bytes: *toon_bytes,
                })
            },
            CompressDecision::PassedThrough { .. } => true,
        }
    }
}

/// A decision together with what the pipeline learned on the way.
#[derive(Debug)]
pub struct CompressReport {
    /// The decision.
    pub decision: CompressDecision,
    /// What detection found; the undetected placeholder where it did not run.
    pub detection: DetectionMetadata,
    /// Coercion metadata of a CSV or TSV input that parsed.
    pub coercion: Option<CsvCoercionMetadata>,
}

// ---------------------------------------------------------------------------
// The pipeline as a function
// ---------------------------------------------------------------------------

/// Whether an output of `toon_bytes` is worth having for an input of
/// `original_bytes`: strictly shorter, and within the configured ratio.
pub open spec fn saves_enough(toon_bytes: nat, original_bytes: nat, ratio: Ratio) -> bool {
    toon_bytes < original_bytes && within(ratio, toon_bytes, original_bytes)
}

/// The decision on an encoder's answer.
pub open spec fn gated(
    config: CompressConfig,
    format: InputFormat,
    shape: ShapeClass,
    original_bytes: nat,
    encoding: Result<Seq<char>, Seq<char>>,
) -> Decision {
    match encoding {
        Err(detail) => Decision::PassedThrough {
            reason: Reason::EncodeFailed { detail },
            input_format: Some(format),
        },
        Ok(toon) => if saves_enough(byte_len(toon), original_bytes, config.max_output_ratio) {
            Decision::Compressed { toon, original_bytes, input_format: format, shape_class: shape }
        } else {
            Decision::PassedThrough {
                reason: Reason::InsufficientSavings {
                    savings: Savings {
                        input_bytes: original_bytes as usize,
                        output_bytes: byte_len(toon) as usize,
                    },
                    max_output_ratio: config.max_output_ratio,
                },
                input_format: Some(format),
            }
        },
    }
}

/// The decision on a parsed value.
pub open spec fn value_decision(
    config: CompressConfig,
    format: InputFormat,
    value: Json,
    original_bytes: nat,
) -> Decision {
    let shape = shape_of(value, thresholds(config));
    if shape == ShapeClass::PassThrough {
        Decision::PassedThrough {
            reason: Reason::ShapeNotBeneficial,
            input_format: Some(format),
        }
    } else {
        gated(
            config,
            format,
            shape,
            original_bytes,
            toon_encoding(value, config.delimiter, config.key_folding),
        )
    }
}

/// The description of a parse failure in a decision.
pub open spec fn failure_detail(fault: Fault) -> Seq<char> {
    match fault {
        Fault::ParseFailed { detail, .. } => detail,
        _ => fault_message(fault),
    }
}

/// What the parser of a detected format returns, with the coercion metadata of
/// a table.
pub open spec fn parse_detected(format: InputFormat, coerce: bool, input: Seq<char>) -> Result<
    (Json, Option<CsvCoercionMetadata>),
    Fault,
> {
    match format {
        InputFormat::Json => match json_document(input) {
            Ok(v) => Ok((v, None)),
            Err(e) => Err(e),
        },
        InputFormat::Csv => match table(COMMA, coerce, input) {
            Ok(t) => Ok((t.0, Some(t.1))),
            Err(e) => Err(e),
        },
        InputFormat::Tsv => match table(TAB, coerce, input) {
            Ok(t) => Ok((t.0, Some(t.1))),
            Err(e) => Err(e),
        },
        _ => match jsonl_reading(input) {
            Ok(v) => Ok((v, None)),
            Err(e) => Err(e),
        },
    }
}

/// The reason to pass an input through for its length alone.
pub open spec fn size_reason(config: CompressConfig, bytes: nat) -> Option<Reason> {
    if bytes > config.max_input_bytes {
        Some(Reason::InputExceedsLimit { actual: bytes, limit: config.max_input_bytes as nat })
    } else if bytes < config.min_bytes {
        Some(Reason::BelowMinBytes)
    } else {
        None
    }
}

/// The decision on an input, and the coercion metadata that came with it.
pub open spec fn decision(config: CompressConfig, input: Seq<char>) -> (
    Decision,
    Option<CsvCoercionMetadata>,
) {
    let format = detected(input).format;
    match size_reason(config, byte_len(input)) {
        Some(reason) => (Decision::PassedThrough { reason, input_format: None }, None),
        None => if format == InputFormat::Unknown {
            (
                Decision::PassedThrough {
                    reason: Reason::UnknownFormat,
                    input_format: Some(InputFormat::Unknown),
                },
                None,
            )
        } else {
            match parse_detected(format, config.csv_numeric_coercion, input) {
                Err(fault) => (
                    Decision::PassedThrough {
                        reason: Reason::ParseFailed { format, detail: failure_detail(fault) },
                        input_format: Some(format),
                    },
                    None,
                ),
                Ok((value, coercion)) => (
                    value_decision(config, format, value, byte_len(input)),
                    coercion,
                ),
            }
        },
    }
}

/// What the report says of detection: nothing where a size gate came first.
pub open spec fn reported_detection(config: CompressConfig, input: Seq<char>) -> Detection {
    if size_reason(config, byte_len(input)) is Some {
        undetected()
    } else {
        detected(input)
    }
}

/// Stateless compression decision engine.
///
/// The pipeline is: byte-length gates, format detection and parsing, shape
/// classification, TOON encoding, savings gate.
pub struct Compressor;

impl Compressor {
    /// Run the pipeline on `input`.
    pub fn decide(input: &str, config: &CompressConfig) -> (r: CompressDecision)
        ensures
            r@ == decision(*config, input@).0,
            r.counts_agree(),
    {
        Self::decide_with_metadata(input, config).decision
    }

    /// Run the pipeline on `input` and report what it learned on the way.
    pub fn decide_with_metadata(input: &str, config: &CompressConfig) -> (r: CompressReport)
        ensures
            r.decision@ == decision(*config, input@).0,
            r.decision.counts_agree(),
            r.detection@ == reported_detection(*config, input@),
            r.coercion == decision(*config, input@).1,
    {
        let original_bytes = bytes_in(input);
        if original_bytes > config.max_input_bytes {
            return CompressReport {
                decision: CompressDecision::PassedThrough {
                    reason: PassThroughReason::InputExceedsLimit {
                        actual: original_bytes,
                        limit: config.max_input_bytes,
                    },
                    input_format: None,
                },
                detection: DetectionMetadata::unknown(),
                coercion: None,
            };
        }
        if original_bytes < config.min_bytes {
            return CompressReport {
                decision: CompressDecision::PassedThrough {
                    reason: PassThroughReason::BelowMinBytes,
                    input_format: None,
                },
                detection: DetectionMetadata::unknown(),
                coercion: None,
            };
        }
        let detection = FormatDetector::detect_with_metadata(input);
        let format = detection.format;
        if format == InputFormat::Unknown {
            return CompressReport {
                decision: CompressDecision::PassedThrough {
                    reason: PassThroughReason::UnknownFormat,
                    input_format: Some(InputFormat::Unknown),
                },
                detection,
                coercion: None,
            };
        }
        match Self::parse(format, config.csv_numeric_coercion, input) {
            Err(error) => {
                let detail = match error {
                    CoreError::ParseFailed { format: _, line: _, detail } => detail,
                    other => other.message(),
                };
                CompressReport {
                    decision: CompressDecision::PassedThrough {
                        reason: PassThroughReason::ParseFailed { format, detail },
                        input_format: Some(format),
                    },
                    detection,
                    coercion: None,
                }
            },
            Ok((value, coercion)) => CompressReport {
                decision: Self::decide_value(config, format, &value, original_bytes),
                detection,
                coercion,
            },
        }
    }

    /// Parse `input` as `format`.
    fn parse(format: InputFormat, coerce: bool, input: &str) -> (r: Result<
        (JsonValue, Option<CsvCoercionMetadata>),
        CoreError,
    >)
        requires
            format != InputFormat::Unknown,
        ensures
            match r {
                Ok(t) => parse_detected(format, coerce, input@) == Ok::<
                    (Json, Option<CsvCoercionMetadata>),
                    Fault,
                >((t.0@, t.1)),
                Err(e) => parse_detected(format, coerce, input@) == Err::<
                    (Json, Option<CsvCoercionMetadata>),
                    Fault,
                >(e@),
            },
    {
        match format {
            InputFormat::Json => match JsonParser.parse(input) {
                Ok(v) => Ok((v, None)),
                Err(e) => Err(e),
            },
            InputFormat::Csv => {
                let parser = CsvParser::csv().with_numeric_coercion(coerce);
                match parser.parse_with_coercion_metadata(input) {
                    Ok(t) => Ok((t.0, Some(t.1))),
                    Err(e) => Err(e),
                }
            },
            InputFormat::Tsv => {
                let parser = CsvParser::tsv().with_numeric_coercion(coerce);
                match parser.parse_with_coercion_metadata(input) {
                    Ok(t) => Ok((t.0, Some(t.1))),
                    Err(e) => Err(e),
                }
            },
            _ => match JsonlParser.parse(input) {
                Ok(v) => Ok((v, None)),
                Err(e) => Err(e),
            },
        }
    }

    /// Classify a parsed value, encode it where its shape promises savings, and
    /// gate the result.
    pub fn decide_value(
        config: &CompressConfig,
        format: InputFormat,
        value: &JsonValue,
        original_bytes: usize,
    ) -> (r: CompressDecision)
        ensures
            r@ == value_decision(*config, format, value@, original_bytes as nat),
            r.counts_agree(),
    {
        let limits = ClassifyConfig {
            tabular_min_rows: config.tabular_min_rows,
            fold_min_depth: config.fold_min_depth,
            primitive_array_min: config.primitive_array_min,
        };
        let shape = Classifier::classify_with(value, &limits);
        if shape == ShapeClass::PassThrough {
            return CompressDecision::PassedThrough {
                reason: PassThroughReason::ShapeNotBeneficial,
                input_format: Some(format),
            };
        }
        let encoding = encode_toon(value, config.delimiter, config.key_folding);
        Self::gate(config, format, shape, original_bytes, encoding)
    }

    /// Decide on an encoder's answer: accept the output where it saves enough.
    pub fn gate(
        config: &CompressConfig,
        format: InputFormat,
        shape: ShapeClass,
        original_bytes: usize,
        encoding: Result<String, String>,
    ) -> (r: CompressDecision)
        ensures
            r@ == gated(*config, format, shape, original_bytes as nat, outcome(encoding)),
            r.counts_agree(),
    {
        match encoding {
            Err(detail) => CompressDecision::PassedThrough {
                reason: PassThroughReason::EncodeFailed { detail },
                input_format: Some(format),
            },
            Ok(toon) => {
                let toon_bytes = bytes_in(toon.as_str());
                let savings = Savings { input_bytes: original_bytes, output_bytes: toon_bytes };
                if toon_bytes < original_bytes && config.max_output_ratio.allows(
                    toon_bytes as u64,
                    original_bytes as u64,
                ) {
                    CompressDecision::Compressed {
                        toon,
                        original_bytes,
                        toon_bytes,
                        savings,
                        input_format: format,
                        shape_class: shape,
                    }
                } else {
                    CompressDecision::PassedThrough {
                        reason: PassThroughReason::InsufficientSavings {
                            savings,
                            max_output_ratio: config.max_output_ratio,
                        },
                        input_format: Some(format),
                    }
                }
            },
        }
    }
}

} // verus!
