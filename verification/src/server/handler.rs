//! The tools' request handling: admission, the pipeline runs, the results, the
//! log events and the failure accounting.

use vstd::prelude::*;
use crate::classifier::{shape_name, ShapeClass};
use crate::compressor::{
    decision, reason_name, reported_detection, CompressConfig, CompressDecision, Compressor,
    Decision,
};
use crate::detector::{
    confidence_name, detected, format_name, header_width, DetectionMetadata, FormatDetector,
    InputFormat,
};
use crate::logging::event::LogEvent;
use crate::logging::sink::LogDiagnostics;
use crate::number::{count_text, decimal, decimal_text};
use crate::parser::csv::{inspection, CsvCoercionMetadata, CsvParser, COMMA, TAB};
use crate::ratio::Ratio;
use crate::server::config::Config;
use crate::server::metrics::{
    after_failure, after_success, after_timeout, failure_name, FailureKind, Metrics,
};
use crate::text::{byte_len, bytes_in, optional, texts};

verus! {

/// The tools that process an input.
#[derive(Debug, Clone, Copy, PartialEq, Eq, Structural)]
pub enum Tool {
    DetectFormat,
    CompressContent,
    CompressionStats,
}

/// The name of a tool.
pub open spec fn tool_name(tool: Tool) -> Seq<char> {
    match tool {
        Tool::DetectFormat => "detect_format"@,
        Tool::CompressContent => "compress_content"@,
        Tool::CompressionStats => "compression_stats"@,
    }
}

impl Tool {
    /// The name of the tool.
    pub fn as_str(self) -> (r: &'static str)
        ensures
            r@ == tool_name(self),
    {
        match self {
            Tool::DetectFormat => "detect_format",
            Tool::CompressContent => "compress_content",
            Tool::CompressionStats => "compression_stats",
        }
    }
}

// ---------------------------------------------------------------------------
// Failures
// ---------------------------------------------------------------------------

/// Why a request failed.
#[derive(Debug)]
pub enum ToolError {
    /// The input is longer than allowed.
    InputExceedsLimit { actual: usize, limit: usize },
    /// The concurrency gate is gone.
    SemaphoreClosed,
    /// No concurrency permit became available in time.
    ServerBusy,
    /// The pipeline task crashed.
    TaskFailed { op: &'static str, detail: String },
    /// The pipeline did not finish in time.
    PipelineTimeout { op: &'static str, timeout_ms: u64 },
}

/// The message that answers a failed request.
pub open spec fn error_message(e: ToolError) -> Seq<char> {
    match e {
        ToolError::InputExceedsLimit { actual, limit } => "input_exceeds_limit: input is "@
            + decimal(actual as nat) + " bytes; maximum allowed is "@ + decimal(limit as nat)
            + " bytes (TOON_MAX_INPUT_BYTES)"@,
        ToolError::SemaphoreClosed => "semaphore closed"@,
        ToolError::ServerBusy => "server busy: too many concurrent calls"@,
        ToolError::TaskFailed { op, detail } => "spawn_blocking failed: "@ + detail@,
        ToolError::PipelineTimeout { op, timeout_ms } => "pipeline_timeout: "@ + op@
            + " did not complete within "@ + decimal(timeout_ms as nat)
            + "ms (TOON_PIPELINE_TIMEOUT_MS)"@,
    }
}

/// The machine-readable code of a failure.
pub open spec fn error_code(e: ToolError) -> Option<Seq<char>> {
    match e {
        ToolError::ServerBusy => Some("server_busy"@),
        ToolError::TaskFailed { .. } => Some("spawn_blocking_failed"@),
        ToolError::PipelineTimeout { .. } => Some("pipeline_timeout"@),
        _ => None,
    }
}

/// How the log classifies a failure.
pub open spec fn error_outcome_of(e: ToolError) -> FailureKind {
    match e {
        ToolError::InputExceedsLimit { .. } => FailureKind::Rejected,
        ToolError::ServerBusy => FailureKind::Busy,
        ToolError::PipelineTimeout { .. } => FailureKind::Timeout,
        _ => FailureKind::Failed,
    }
}

impl ToolError {
    /// The message that answers the request.
    pub fn message(&self) -> (r: String)
        ensures
            r@ == error_message(*self),
    {
        match self {
            ToolError::InputExceedsLimit { actual, limit } => {
                "input_exceeds_limit: input is ".to_owned().concat(
                    count_text(*actual).as_str(),
                ).concat(" bytes; maximum allowed is ").concat(count_text(*limit).as_str()).concat(
                    " bytes (TOON_MAX_INPUT_BYTES)",
                )
            },
            ToolError::SemaphoreClosed => "semaphore closed".to_owned(),
            ToolError::ServerBusy => "server busy: too many concurrent calls".to_owned(),
            ToolError::TaskFailed { op: _, detail } => "spawn_blocking failed: ".to_owned().concat(
                detail.as_str(),
            ),
            ToolError::PipelineTimeout { op, timeout_ms } => {
                "pipeline_timeout: ".to_owned().concat(op).concat(
                    " did not complete within ",
                ).concat(decimal_text(*timeout_ms).as_str()).concat(
                    "ms (TOON_PIPELINE_TIMEOUT_MS)",
                )
            },
        }
    }

    /// The machine-readable code, where there is one.
    pub fn code(&self) -> (r: Option<&'static str>)
        ensures
            match r {
                Some(code) => error_code(*self) == Some(code@),
                None => error_code(*self) is None,
            },
    {
        match self {
            ToolError::ServerBusy => Some("server_busy"),
            ToolError::TaskFailed { .. } => Some("spawn_blocking_failed"),
            ToolError::PipelineTimeout { .. } => Some("pipeline_timeout"),
            _ => None,
        }
    }

    /// How the log classifies the failure.
    pub fn error_outcome(&self) -> (r: FailureKind)
        ensures
            r == error_outcome_of(*self),
    {
        match self {
            ToolError::InputExceedsLimit { .. } => FailureKind::Rejected,
            ToolError::ServerBusy => FailureKind::Busy,
            ToolError::PipelineTimeout { .. } => FailureKind::Timeout,
            _ => FailureKind::Failed,
        }
    }
}

/// Refuse an input longer than the configured limit.
pub fn reject_oversized(input_bytes: usize, config: &Config) -> (r: Option<ToolError>)
    ensures
        r == (if input_bytes <= config.max_input_bytes {
            None
        } else {
            Some(
                ToolError::InputExceedsLimit { actual: input_bytes, limit: config.max_input_bytes },
            )
        }),
{
    if input_bytes <= config.max_input_bytes {
        return None;
    }
    Some(ToolError::InputExceedsLimit { actual: input_bytes, limit: config.max_input_bytes })
}

/// What became of the wait for a concurrency permit.
#[derive(Debug, Clone, Copy, PartialEq, Eq, Structural)]
pub enum PermitOutcome {
    Granted,
    Closed,
    TimedOut,
}

/// Whether a request may go on after the wait for a permit.
pub fn acquire_permit(outcome: PermitOutcome) -> (r: Result<(), ToolError>)
    ensures
        r == (match outcome {
            PermitOutcome::Granted => Ok::<(), ToolError>(()),
            PermitOutcome::Closed => Err(ToolError::SemaphoreClosed),
            PermitOutcome::TimedOut => Err(ToolError::ServerBusy),
        }),
{
    match outcome {
        PermitOutcome::Granted => Ok(()),
        PermitOutcome::Closed => Err(ToolError::SemaphoreClosed),
        PermitOutcome::TimedOut => Err(ToolError::ServerBusy),
    }
}

/// What became of a pipeline task.
#[derive(Debug)]
pub enum TaskOutcome<T> {
    /// It returned this.
    Finished(T),
    /// It crashed.
    Crashed(String),
    /// It did not finish in time and goes on without a listener.
    TimedOut,
}

/// The answer of a pipeline task. A timeout is counted together with the task
/// that it leaves behind.
pub fn run_pipeline<T>(
    op: &'static str,
    timeout_ms: u64,
    outcome: TaskOutcome<T>,
    metrics: &mut Metrics,
) -> (r: Result<T, ToolError>)
    ensures
        r == (match outcome {
            TaskOutcome::Finished(v) => Ok::<T, ToolError>(v),
            TaskOutcome::Crashed(detail) => Err(ToolError::TaskFailed { op, detail }),
            TaskOutcome::TimedOut => Err(ToolError::PipelineTimeout { op, timeout_ms }),
        }),
        *final(metrics) == (if outcome is TimedOut {
            after_timeout(*old(metrics))
        } else {
            *old(metrics)
        }),
{
    match outcome {
        TaskOutcome::Finished(v) => Ok(v),
        TaskOutcome::Crashed(detail) => Err(ToolError::TaskFailed { op, detail }),
        TaskOutcome::TimedOut => {
            metrics.record_timeout();
            Err(ToolError::PipelineTimeout { op, timeout_ms })
        },
    }
}

// ---------------------------------------------------------------------------
// Log events
// ---------------------------------------------------------------------------

/// When an event happened, and its identifier.
#[derive(Debug)]
pub struct Stamp {
    /// The identifier.
    pub event_id: String,
    /// Unix timestamp in microseconds.
    pub ts_us: i64,
}

/// What an event says of a processed input.
pub struct Processed {
    pub format: InputFormat,
    pub shape: ShapeClass,
    pub input_bytes: nat,
    pub output_bytes: nat,
    pub compressed: bool,
    pub pass_reason: Option<Seq<char>>,
}

/// Whether `e` records an invocation of `tool` that ended with `outcome`.
pub open spec fn records(
    e: LogEvent,
    tool: Tool,
    stamp: Stamp,
    done: Processed,
    outcome: Seq<char>,
    duration_us: u64,
    config: Config,
) -> bool {
    &&& e.event_id == stamp.event_id
    &&& e.ts_us == stamp.ts_us
    &&& e.tool_name@ == tool_name(tool)
    &&& e.input_format@ == format_name(done.format)
    &&& e.shape_class@ == shape_name(done.shape)
    &&& e.input_bytes == done.input_bytes
    &&& e.output_bytes == done.output_bytes
    &&& e.compressed == done.compressed
    &&& e.threshold_used == config.max_output_ratio
    &&& e.duration_us == duration_us
    &&& e.outcome@ == outcome
    &&& optional(e.pass_reason) == done.pass_reason
    &&& optional(e.client_hint) == optional(config.client_hint)
}

/// What an event says of an input that the pipeline returned unprocessed:
/// placeholders, and as many bytes out as in.
pub open spec fn untouched(format: InputFormat, input_bytes: nat) -> Processed {
    Processed {
        format,
        shape: ShapeClass::PassThrough,
        input_bytes,
        output_bytes: input_bytes,
        compressed: false,
        pass_reason: None,
    }
}

/// A copy of an optional text.
fn copy_text(text: &Option<String>) -> (r: Option<String>)
    ensures
        optional(r) == optional(*text),
{
    match text {
        Some(t) => Some(t.clone()),
        None => None,
    }
}

/// Account for a failed request and build its log event. Fields that the
/// pipeline never produced hold placeholders.
pub fn record_failure(
    error: &ToolError,
    tool: Tool,
    input_bytes: usize,
    duration_us: u64,
    config: &Config,
    stamp: Stamp,
    metrics: &mut Metrics,
) -> (r: LogEvent)
    ensures
        *final(metrics) == after_failure(*old(metrics), error_outcome_of(*error)),
        records(
            r,
            tool,
            stamp,
            untouched(InputFormat::Unknown, input_bytes as nat),
            failure_name(error_outcome_of(*error)),
            duration_us,
            *config,
        ),
{
    let kind = error.error_outcome();
    metrics.record_failure(kind);
    LogEvent {
        event_id: stamp.event_id,
        ts_us: stamp.ts_us,
        tool_name: tool.as_str().to_owned(),
        input_format: InputFormat::Unknown.as_str().to_owned(),
        shape_class: ShapeClass::PassThrough.as_str().to_owned(),
        input_bytes: input_bytes as u64,
        output_bytes: input_bytes as u64,
        compressed: false,
        threshold_used: config.max_output_ratio,
        duration_us,
        outcome: kind.as_str().to_owned(),
        pass_reason: None,
        client_hint: copy_text(&config.client_hint),
    }
}

// ---------------------------------------------------------------------------
// Detection
// ---------------------------------------------------------------------------

/// Input of `detect_format`.
#[derive(Debug)]
pub struct DetectParams {
    /// The input to detect the format of.
    pub input: String,
}

/// Output of `detect_format`.
#[derive(Debug)]
pub struct DetectResult {
    /// Detected format.
    pub format: String,
    /// Byte length of the input.
    pub input_bytes: usize,
    /// Number of non-blank lines, for JSONL inputs.
    pub line_count: Option<usize>,
    /// Number of header columns, for CSV and TSV inputs.
    pub column_count: Option<usize>,
    /// Detection confidence.
    pub detection_confidence: String,
    /// Whether several formats matched.
    pub detection_ambiguous: bool,
    /// All matching formats in order of precedence.
    pub detection_candidates: Vec<String>,
    /// Whether numeric coercion would affect at least one field.
    pub numeric_coercion_used: Option<bool>,
    /// Whether numeric coercion may discard how a field was written.
    pub lossy_coercion_possible: Option<bool>,
}

/// The names of a run of formats.
pub open spec fn format_names(formats: Seq<InputFormat>) -> Seq<Seq<char>> {
    formats.map_values(|f: InputFormat| format_name(f))
}

/// The matching formats by name.
pub fn detection_candidates_as_strings(metadata: &DetectionMetadata) -> (r: Vec<String>)
    ensures
        texts(r@) == format_names(metadata@.candidates),
{
    let mut out: Vec<String> = Vec::new();
    let mut i: usize = 0;
    while i < metadata.candidates.len()
        invariant
            0 <= i <= metadata.candidates@.len(),
            out@.len() == i,
            texts(out@) =~= format_names(metadata.candidates@).take(i as int),
        decreases metadata.candidates@.len() - i,
    {
        let ghost before = texts(out@);
        let name = metadata.candidates[i].as_str().to_owned();
        out.push(name);
        assert(texts(out@) =~= before.push(name@));
        i = i + 1;
    }
    assert(texts(out@) =~= format_names(metadata.candidates@));
    out
}

/// What detection reports of coercion: flags for tables, nothing for other
/// formats. A table that cannot be read reports no coercion.
pub open spec fn detected_coercion(format: InputFormat, coerce: bool, input: Seq<char>) -> Option<
    CsvCoercionMetadata,
> {
    let report = match format {
        InputFormat::Csv => Some(inspection(COMMA, coerce, input)),
        InputFormat::Tsv => Some(inspection(TAB, coerce, input)),
        _ => None,
    };
    match report {
        None => None,
        Some(Ok(m)) => Some(m),
        Some(Err(_)) => Some(
            CsvCoercionMetadata { numeric_coercion_used: false, lossy_coercion_possible: false },
        ),
    }
}

/// Coercion metadata for the detect-only path, which parses no values.
pub fn detect_coercion_metadata(
    fmt: InputFormat,
    input: &str,
    numeric_coercion: bool,
) -> (r: Option<CsvCoercionMetadata>)
    ensures
        r == detected_coercion(fmt, numeric_coercion, input@),
{
    let parser = match fmt {
        InputFormat::Csv => CsvParser::csv(),
        InputFormat::Tsv => CsvParser::tsv(),
        _ => {
            return None;
        },
    };
    match parser.with_numeric_coercion(numeric_coercion).coercion_metadata(input) {
        Ok(metadata) => Some(metadata),
        Err(_) => Some(
            CsvCoercionMetadata { numeric_coercion_used: false, lossy_coercion_possible: false },
        ),
    }
}

/// The two flags of coercion metadata; neither where there is none.
pub open spec fn flags(coercion: Option<CsvCoercionMetadata>) -> (Option<bool>, Option<bool>) {
    match coercion {
        Some(m) => (Some(m.numeric_coercion_used), Some(m.lossy_coercion_possible)),
        None => (None, None),
    }
}

/// The optional booleans that responses carry.
pub fn coercion_visibility(coercion: Option<CsvCoercionMetadata>) -> (r: (
    Option<bool>,
    Option<bool>,
))
    ensures
        r == flags(coercion),
{
    match coercion {
        Some(meta) => (Some(meta.numeric_coercion_used), Some(meta.lossy_coercion_possible)),
        None => (None, None),
    }
}

/// The header width of a table input.
pub open spec fn column_count_of(format: InputFormat, input: Seq<char>) -> Option<usize> {
    match format {
        InputFormat::Csv => header_width(COMMA, input),
        InputFormat::Tsv => header_width(TAB, input),
        _ => None,
    }
}

/// Whether `r` is the answer of `detect_format` for `input`.
pub open spec fn answers_detection(r: DetectResult, input: Seq<char>, coerce: bool) -> bool {
    let found = detected(input);
    &&& r.format@ == format_name(found.format)
    &&& r.input_bytes == byte_len(input)
    &&& r.line_count == (match found.line_count {
        Some(n) => Some(n as usize),
        None => None,
    })
    &&& r.column_count == column_count_of(found.format, input)
    &&& r.detection_confidence@ == confidence_name(found.confidence)
    &&& r.detection_ambiguous == found.ambiguous
    &&& texts(r.detection_candidates@) == format_names(found.candidates)
    &&& (r.numeric_coercion_used, r.lossy_coercion_possible) == flags(
        detected_coercion(found.format, coerce, input),
    )
}

/// Run detection on `input`, and give the format along with the answer.
pub fn detect_format(input: &str, config: &Config) -> (r: (InputFormat, DetectResult))
    ensures
        r.0 == detected(input@).format,
        answers_detection(r.1, input@, config.csv_numeric_coercion),
{
    let metadata = FormatDetector::detect_with_metadata(input);
    let fmt = metadata.format;
    let column_count = FormatDetector::column_count(fmt, input);
    let visible = coercion_visibility(
        detect_coercion_metadata(fmt, input, config.csv_numeric_coercion),
    );
    let candidates = detection_candidates_as_strings(&metadata);
    (
        fmt,
        DetectResult {
            format: fmt.as_str().to_owned(),
            input_bytes: bytes_in(input),
            line_count: metadata.line_count,
            column_count,
            detection_confidence: metadata.confidence.as_str().to_owned(),
            detection_ambiguous: metadata.ambiguous,
            detection_candidates: candidates,
            numeric_coercion_used: visible.0,
            lossy_coercion_possible: visible.1,
        },
    )
}

/// The log event of a successful detection.
pub fn detection_event(
    format: InputFormat,
    input_bytes: usize,
    duration_us: u64,
    config: &Config,
    stamp: Stamp,
) -> (r: LogEvent)
    ensures
        records(
            r,
            Tool::DetectFormat,
            stamp,
            untouched(format, input_bytes as nat),
            "ok"@,
            duration_us,
            *config,
        ),
{
    LogEvent {
        event_id: stamp.event_id,
        ts_us: stamp.ts_us,
        tool_name: Tool::DetectFormat.as_str().to_owned(),
        input_format: format.as_str().to_owned(),
        shape_class: ShapeClass::PassThrough.as_str().to_owned(),
        input_bytes: input_bytes as u64,
        output_bytes: input_bytes as u64,
        compressed: false,
        threshold_used: config.max_output_ratio,
        duration_us,
        outcome: "ok".to_owned(),
        pass_reason: None,
        client_hint: copy_text(&config.client_hint),
    }
}

// ---------------------------------------------------------------------------
// Compression
// ---------------------------------------------------------------------------

/// Input of `compress_content`.
#[derive(Debug)]
pub struct CompressParams {
    /// The input to compress.
    pub input: String,
}

/// Output of `compress_content`. The saved fraction is
/// `1 - output_bytes / input_bytes` when compressed, otherwise zero.
#[derive(Debug)]
pub struct CompressResult {
    /// The TOON text when compressed, otherwise the input unchanged.
    pub output: String,
    /// Whether TOON encoding was applied.
    pub compressed: bool,
    /// Detected input format.
    pub format: String,
    /// Shape of the parsed value.
    pub shape_class: String,
    /// Byte length of the input.
    pub input_bytes: usize,
    /// Byte length of the output.
    pub output_bytes: usize,
    /// Wall-clock duration in microseconds.
    pub duration_us: u64,
    /// Why compression was skipped, when it was.
    pub pass_reason: Option<String>,
    /// Detection confidence.
    pub detection_confidence: String,
    /// Whether several formats matched.
    pub detection_ambiguous: bool,
    /// All matching formats in order of precedence.
    pub detection_candidates: Vec<String>,
    /// Whether numeric coercion affected at least one field.
    pub numeric_coercion_used: Option<bool>,
    /// Whether numeric coercion may have discarded how a field was written.
    pub lossy_coercion_possible: Option<bool>,
}

/// Input of `compression_stats`.
#[derive(Debug)]
pub struct StatsParams {
    /// The input to preview compression for.
    pub input: String,
}

/// Output of `compression_stats`.
#[derive(Debug)]
pub struct StatsResult {
    /// Whether TOON encoding would be applied.
    pub would_compress: bool,
    /// Detected input format.
    pub format: String,
    /// Shape of the parsed value.
    pub shape_class: String,
    /// Byte length of the input.
    pub input_bytes: usize,
    /// Byte length of the output that compression would give.
    pub estimated_output_bytes: usize,
    /// Configured compression ratio.
    pub threshold: Ratio,
    /// Why compression would be skipped, where it would.
    pub pass_reason: Option<String>,
    /// Detection confidence.
    pub detection_confidence: String,
    /// Whether several formats matched.
    pub detection_ambiguous: bool,
    /// All matching formats in order of precedence.
    pub detection_candidates: Vec<String>,
    /// Whether numeric coercion would affect at least one field.
    pub numeric_coercion_used: Option<bool>,
    /// Whether numeric coercion may discard how a field was written.
    pub lossy_coercion_possible: Option<bool>,
}

/// What a decision makes of its input.
#[derive(Debug)]
pub struct CompressOutcome {
    /// Whether TOON encoding was applied.
    pub compressed: bool,
    /// Detected format.
    pub format: InputFormat,
    /// Shape of the parsed value.
    pub shape: ShapeClass,
    /// Byte length of the input.
    pub input_bytes: usize,
    /// Byte length of the output.
    pub output_bytes: usize,
    /// Why compression was skipped, when it was.
    pub pass_reason: Option<&'static str>,
    /// What detection found.
    pub detection: DetectionMetadata,
    /// Coercion metadata, for tables that parsed.
    pub coercion: Option<CsvCoercionMetadata>,
}

/// The text that a decision returns for its input.
pub open spec fn output_of(d: Decision, input: Seq<char>) -> Seq<char> {
    match d {
        Decision::Compressed { toon, .. } => toon,
        Decision::PassedThrough { .. } => input,
    }
}

/// What a decision made of an input, as far as events and answers tell.
pub open spec fn processed(d: Decision, input: Seq<char>) -> Processed {
    Processed {
        format: match d {
            Decision::Compressed { input_format, .. } => input_format,
            Decision::PassedThrough { input_format, .. } => match input_format {
                Some(f) => f,
                None => InputFormat::Unknown,
            },
        },
        shape: match d {
            Decision::Compressed { shape_class, .. } => shape_class,
            Decision::PassedThrough { .. } => ShapeClass::PassThrough,
        },
        input_bytes: byte_len(input),
        output_bytes: byte_len(output_of(d, input)),
        compressed: d is Compressed,
        pass_reason: match d {
            Decision::Compressed { .. } => None,
            Decision::PassedThrough { reason, .. } => Some(reason_name(reason)),
        },
    }
}

/// The model of an optional static text.
pub open spec fn optional_name(text: Option<&'static str>) -> Option<Seq<char>> {
    match text {
        Some(t) => Some(t@),
        None => None,
    }
}

/// Whether `o` tells what the pipeline made of `input`.
pub open spec fn tells(o: CompressOutcome, input: Seq<char>, config: CompressConfig) -> bool {
    let done = processed(decision(config, input).0, input);
    &&& o.compressed == done.compressed
    &&& o.format == done.format
    &&& o.shape == done.shape
    &&& o.input_bytes == done.input_bytes
    &&& o.output_bytes == done.output_bytes
    &&& optional_name(o.pass_reason) == done.pass_reason
    &&& o.detection@ == reported_detection(config, input)
    &&& o.coercion == decision(config, input).1
}

/// Run the pipeline on `input`: the text to return and what it tells.
pub fn compress(input: String, config: &CompressConfig) -> (r: (String, CompressOutcome))
    ensures
        r.0@ == output_of(decision(*config, input@).0, input@),
        tells(r.1, input@, *config),
{
    let input_bytes = bytes_in(input.as_str());
    let report = Compressor::decide_with_metadata(input.as_str(), config);
    match report.decision {
        CompressDecision::Compressed {
            toon,
            original_bytes: _,
            toon_bytes,
            savings: _,
            input_format,
            shape_class,
        } => (
            toon,
            CompressOutcome {
                compressed: true,
                format: input_format,
                shape: shape_class,
                input_bytes,
                output_bytes: toon_bytes,
                pass_reason: None,
                detection: report.detection,
                coercion: report.coercion,
            },
        ),
        CompressDecision::PassedThrough { reason, input_format } => (
            input,
            CompressOutcome {
                compressed: false,
                format: match input_format {
                    Some(f) => f,
                    None => InputFormat::Unknown,
                },
                shape: ShapeClass::PassThrough,
                input_bytes,
                output_bytes: input_bytes,
                pass_reason: Some(reason.as_str()),
                detection: report.detection,
                coercion: report.coercion,
            },
        ),
    }
}

/// A name as an owned text.
fn name_text(name: Option<&'static str>) -> (r: Option<String>)
    ensures
        optional(r) == optional_name(name),
{
    match name {
        Some(t) => Some(t.to_owned()),
        None => None,
    }
}

/// Whether `r` is the answer of `compress_content` for this output and outcome.
pub open spec fn answers_compression(
    r: CompressResult,
    output: String,
    outcome: CompressOutcome,
    duration_us: u64,
) -> bool {
    &&& r.output == output
    &&& r.compressed == outcome.compressed
    &&& r.format@ == format_name(outcome.format)
    &&& r.shape_class@ == shape_name(outcome.shape)
    &&& r.input_bytes == outcome.input_bytes
    &&& r.output_bytes == outcome.output_bytes
    &&& r.duration_us == duration_us
    &&& optional(r.pass_reason) == optional_name(outcome.pass_reason)
    &&& r.detection_confidence@ == confidence_name(outcome.detection@.confidence)
    &&& r.detection_ambiguous == outcome.detection@.ambiguous
    &&& texts(r.detection_candidates@) == format_names(outcome.detection@.candidates)
    &&& (r.numeric_coercion_used, r.lossy_coercion_possible) == flags(outcome.coercion)
}

/// The answer of `compress_content`.
pub fn compress_result(output: String, outcome: &CompressOutcome, duration_us: u64) -> (r:
    CompressResult)
    ensures
        answers_compression(r, output, *outcome, duration_us),
{
    let visible = coercion_visibility(outcome.coercion);
    CompressResult {
        output,
        compressed: outcome.compressed,
        format: outcome.format.as_str().to_owned(),
        shape_class: outcome.shape.as_str().to_owned(),
        input_bytes: outcome.input_bytes,
        output_bytes: outcome.output_bytes,
        duration_us,
        pass_reason: name_text(outcome.pass_reason),
        detection_confidence: outcome.detection.confidence.as_str().to_owned(),
        detection_ambiguous: outcome.detection.ambiguous,
        detection_candidates: detection_candidates_as_strings(&outcome.detection),
        numeric_coercion_used: visible.0,
        lossy_coercion_possible: visible.1,
    }
}

/// Whether `r` is the answer of `compression_stats` for this outcome.
pub open spec fn answers_stats(r: StatsResult, outcome: CompressOutcome, config: Config) -> bool {
    &&& r.would_compress == outcome.compressed
    &&& r.format@ == format_name(outcome.format)
    &&& r.shape_class@ == shape_name(outcome.shape)
    &&& r.input_bytes == outcome.input_bytes
    &&& r.estimated_output_bytes == outcome.output_bytes
    &&& r.threshold == config.max_output_ratio
    &&& optional(r.pass_reason) == optional_name(outcome.pass_reason)
    &&& r.detection_confidence@ == confidence_name(outcome.detection@.confidence)
    &&& r.detection_ambiguous == outcome.detection@.ambiguous
    &&& texts(r.detection_candidates@) == format_names(outcome.detection@.candidates)
    &&& (r.numeric_coercion_used, r.lossy_coercion_possible) == flags(outcome.coercion)
}

/// The answer of `compression_stats`.
pub fn stats_result(outcome: &CompressOutcome, config: &Config) -> (r: StatsResult)
    ensures
        answers_stats(r, *outcome, *config),
{
    let visible = coercion_visibility(outcome.coercion);
    StatsResult {
        would_compress: outcome.compressed,
        format: outcome.format.as_str().to_owned(),
        shape_class: outcome.shape.as_str().to_owned(),
        input_bytes: outcome.input_bytes,
        estimated_output_bytes: outcome.output_bytes,
        threshold: config.max_output_ratio,
        pass_reason: name_text(outcome.pass_reason),
        detection_confidence: outcome.detection.confidence.as_str().to_owned(),
        detection_ambiguous: outcome.detection.ambiguous,
        detection_candidates: detection_candidates_as_strings(&outcome.detection),
        numeric_coercion_used: visible.0,
        lossy_coercion_possible: visible.1,
    }
}

/// What an event says of an outcome.
pub open spec fn processed_by(outcome: CompressOutcome) -> Processed {
    Processed {
        format: outcome.format,
        shape: outcome.shape,
        input_bytes: outcome.input_bytes as nat,
        output_bytes: outcome.output_bytes as nat,
        compressed: outcome.compressed,
        pass_reason: optional_name(outcome.pass_reason),
    }
}

/// The log event of a successful `compress_content` or `compression_stats`.
pub fn compression_event(
    tool: Tool,
    outcome: &CompressOutcome,
    duration_us: u64,
    config: &Config,
    stamp: Stamp,
) -> (r: LogEvent)
    ensures
        records(
            r,
            tool,
            stamp,
            processed_by(*outcome),
            "ok"@,
            duration_us,
            *config,
        ),
{
    LogEvent {
        event_id: stamp.event_id,
        ts_us: stamp.ts_us,
        tool_name: tool.as_str().to_owned(),
        input_format: outcome.format.as_str().to_owned(),
        shape_class: outcome.shape.as_str().to_owned(),
        input_bytes: outcome.input_bytes as u64,
        output_bytes: outcome.output_bytes as u64,
        compressed: outcome.compressed,
        threshold_used: config.max_output_ratio,
        duration_us,
        outcome: "ok".to_owned(),
        pass_reason: name_text(outcome.pass_reason),
        client_hint: copy_text(&config.client_hint),
    }
}

// ---------------------------------------------------------------------------
// Requests
// ---------------------------------------------------------------------------

/// What a handler knows of a request when it decides on it.
#[derive(Debug)]
pub struct Request {
    /// The tool.
    pub tool: Tool,
    /// Byte length of the input.
    pub input_bytes: usize,
    /// The stamp of the log event.
    pub stamp: Stamp,
    /// Time spent on the request so far, in microseconds.
    pub duration_us: u64,
}

/// Whether `event` records the failure `e` of a request.
pub open spec fn records_failure(
    event: LogEvent,
    e: ToolError,
    request: Request,
    config: Config,
) -> bool {
    records(
        event,
        request.tool,
        request.stamp,
        untouched(InputFormat::Unknown, request.input_bytes as nat),
        failure_name(error_outcome_of(e)),
        request.duration_us,
        config,
    )
}

/// Decide whether a request is let in. One with too long an input is refused,
/// counted and logged, and never reaches the pipeline.
pub fn screen(request: Request, config: &Config, metrics: &mut Metrics) -> (r: Result<
    Request,
    (ToolError, LogEvent),
>)
    ensures
        match r {
            Ok(admitted) => {
                &&& request.input_bytes <= config.max_input_bytes
                &&& admitted == request
                &&& *final(metrics) == *old(metrics)
            },
            Err(refused) => {
                &&& request.input_bytes > config.max_input_bytes
                &&& refused.0 == (ToolError::InputExceedsLimit {
                    actual: request.input_bytes,
                    limit: config.max_input_bytes,
                })
                &&& *final(metrics) == after_failure(*old(metrics), FailureKind::Rejected)
                &&& records_failure(refused.1, refused.0, request, *config)
            },
        },
{
    match reject_oversized(request.input_bytes, config) {
        None => Ok(request),
        Some(error) => {
            let event = record_failure(
                &error,
                request.tool,
                request.input_bytes,
                request.duration_us,
                config,
                request.stamp,
                metrics,
            );
            Err((error, event))
        },
    }
}

/// Decide whether an admitted request may run, given what became of its wait
/// for a permit.
pub fn permit(
    request: Request,
    outcome: PermitOutcome,
    config: &Config,
    metrics: &mut Metrics,
) -> (r: Result<Request, (ToolError, LogEvent)>)
    ensures
        match r {
            Ok(permitted) => {
                &&& outcome == PermitOutcome::Granted
                &&& permitted == request
                &&& *final(metrics) == *old(metrics)
            },
            Err(refused) => {
                &&& outcome != PermitOutcome::Granted
                &&& refused.0 == (if outcome == PermitOutcome::Closed {
                    ToolError::SemaphoreClosed
                } else {
                    ToolError::ServerBusy
                })
                &&& *final(metrics) == after_failure(*old(metrics), error_outcome_of(refused.0))
                &&& records_failure(refused.1, refused.0, request, *config)
            },
        },
{
    match acquire_permit(outcome) {
        Ok(()) => Ok(request),
        Err(error) => {
            let event = record_failure(
                &error,
                request.tool,
                request.input_bytes,
                request.duration_us,
                config,
                request.stamp,
                metrics,
            );
            Err((error, event))
        },
    }
}

/// The counters after a pipeline task that did not finish.
pub open spec fn after_crash<T>(m: Metrics, outcome: TaskOutcome<T>) -> Metrics {
    if outcome is TimedOut {
        after_failure(after_timeout(m), FailureKind::Timeout)
    } else {
        after_failure(m, FailureKind::Failed)
    }
}

/// The error of a pipeline task that did not finish.
pub open spec fn crash_error<T>(outcome: TaskOutcome<T>, op: &'static str, config: Config) -> ToolError {
    match outcome {
        TaskOutcome::Crashed(detail) => ToolError::TaskFailed { op, detail },
        _ => ToolError::PipelineTimeout { op, timeout_ms: config.pipeline_timeout_ms },
    }
}

/// Settle what became of a pipeline task: its value, or the failure with its
/// event.
fn finish<T>(
    request: Request,
    op: &'static str,
    outcome: TaskOutcome<T>,
    config: &Config,
    metrics: &mut Metrics,
) -> (r: Result<(Request, T), (ToolError, LogEvent)>)
    ensures
        match r {
            Ok(done) => {
                &&& outcome == TaskOutcome::Finished(done.1)
                &&& done.0 == request
                &&& *final(metrics) == *old(metrics)
            },
            Err(failed) => {
                &&& !(outcome is Finished)
                &&& failed.0 == crash_error(outcome, op, *config)
                &&& *final(metrics) == after_crash(*old(metrics), outcome)
                &&& records_failure(failed.1, failed.0, request, *config)
            },
        },
{
    match run_pipeline(op, config.pipeline_timeout_ms, outcome, metrics) {
        Ok(value) => Ok((request, value)),
        Err(error) => {
            let event = record_failure(
                &error,
                request.tool,
                request.input_bytes,
                request.duration_us,
                config,
                request.stamp,
                metrics,
            );
            Err((error, event))
        },
    }
}

/// Answer a `detect_format` request once its pipeline task ended.
pub fn handle_detect_format(
    request: Request,
    outcome: TaskOutcome<(InputFormat, DetectResult)>,
    config: &Config,
    metrics: &mut Metrics,
) -> (r: (Result<DetectResult, ToolError>, LogEvent))
    requires
        request.tool == Tool::DetectFormat,
    ensures
        match outcome {
            TaskOutcome::Finished(done) => {
                &&& r.0 == Ok::<DetectResult, ToolError>(done.1)
                &&& *final(metrics) == after_success(*old(metrics), request.duration_us)
                &&& records(
                    r.1,
                    Tool::DetectFormat,
                    request.stamp,
                    untouched(done.0, request.input_bytes as nat),
                    "ok"@,
                    request.duration_us,
                    *config,
                )
            },
            _ => {
                &&& r.0 == Err::<DetectResult, ToolError>(
                    crash_error(outcome, "detection", *config),
                )
                &&& *final(metrics) == after_crash(*old(metrics), outcome)
                &&& records_failure(r.1, r.0->Err_0, request, *config)
            },
        },
{
    match finish(request, "detection", outcome, config, metrics) {
        Ok((request, (format, result))) => {
            metrics.record_success_duration(request.duration_us);
            let event = detection_event(
                format,
                request.input_bytes,
                request.duration_us,
                config,
                request.stamp,
            );
            (Ok(result), event)
        },
        Err((error, event)) => (Err(error), event),
    }
}

/// Answer a `compress_content` request once its pipeline task ended.
pub fn handle_compress_content(
    request: Request,
    outcome: TaskOutcome<(String, CompressOutcome)>,
    config: &Config,
    metrics: &mut Metrics,
) -> (r: (Result<CompressResult, ToolError>, LogEvent))
    requires
        request.tool == Tool::CompressContent,
    ensures
        match outcome {
            TaskOutcome::Finished(done) => {
                &&& (r.0 matches Ok(result) && answers_compression(
                    result,
                    done.0,
                    done.1,
                    request.duration_us,
                ))
                &&& *final(metrics) == after_success(*old(metrics), request.duration_us)
                &&& records(
                    r.1,
                    Tool::CompressContent,
                    request.stamp,
                    processed_by(done.1),
                    "ok"@,
                    request.duration_us,
                    *config,
                )
            },
            _ => {
                &&& r.0 == Err::<CompressResult, ToolError>(
                    crash_error(outcome, "compression", *config),
                )
                &&& *final(metrics) == after_crash(*old(metrics), outcome)
                &&& records_failure(r.1, r.0->Err_0, request, *config)
            },
        },
{
    match finish(request, "compression", outcome, config, metrics) {
        Ok((request, (output, done))) => {
            metrics.record_success_duration(request.duration_us);
            let event = compression_event(
                Tool::CompressContent,
                &done,
                request.duration_us,
                config,
                request.stamp,
            );
            (Ok(compress_result(output, &done, request.duration_us)), event)
        },
        Err((error, event)) => (Err(error), event),
    }
}

/// Answer a `compression_stats` request once its pipeline task ended.
pub fn handle_compression_stats(
    request: Request,
    outcome: TaskOutcome<CompressOutcome>,
    config: &Config,
    metrics: &mut Metrics,
) -> (r: (Result<StatsResult, ToolError>, LogEvent))
    requires
        request.tool == Tool::CompressionStats,
    ensures
        match outcome {
            TaskOutcome::Finished(done) => {
                &&& (r.0 matches Ok(result) && answers_stats(result, done, *config))
                &&& *final(metrics) == after_success(*old(metrics), request.duration_us)
                &&& records(
                    r.1,
                    Tool::CompressionStats,
                    request.stamp,
                    processed_by(done),
                    "ok"@,
                    request.duration_us,
                    *config,
                )
            },
            _ => {
                &&& r.0 == Err::<StatsResult, ToolError>(
                    crash_error(outcome, "compression", *config),
                )
                &&& *final(metrics) == after_crash(*old(metrics), outcome)
                &&& records_failure(r.1, r.0->Err_0, request, *config)
            },
        },
{
    match finish(request, "compression", outcome, config, metrics) {
        Ok((request, done)) => {
            metrics.record_success_duration(request.duration_us);
            let event = compression_event(
                Tool::CompressionStats,
                &done,
                request.duration_us,
                config,
                request.stamp,
            );
            (Ok(stats_result(&done, config)), event)
        },
        Err((error, event)) => (Err(error), event),
    }
}

// ---------------------------------------------------------------------------
// Diagnostics
// ---------------------------------------------------------------------------

/// Input of `toon_diagnostics`.
#[derive(Debug)]
pub struct DiagnosticsParams {}

/// Logging diagnostics of `toon_diagnostics`.
#[derive(Debug)]
pub struct LoggingDiagnosticsResult {
    /// Events dropped because the bounded queue was full.
    pub record_dropped_count: u64,
    /// Record attempts that failed because the writer is gone.
    pub record_failed_count: u64,
    /// Events skipped because serialization failed.
    pub serialization_failed_count: u64,
    /// Flush attempts that failed after accepting events.
    pub writer_failed_count: u64,
    /// Last writer, queue or channel error.
    pub last_error: Option<String>,
    /// Queue capacity, if there is a queue.
    pub queue_capacity: Option<usize>,
    /// Queued commands, if there is a queue.
    pub queue_queued: Option<usize>,
    /// Free queue slots, if there is a queue.
    pub queue_available: Option<usize>,
}

/// Handler diagnostics of `toon_diagnostics`. The average duration of a
/// successful request is the total over the count, zero where there was none.
#[derive(Debug)]
pub struct HandlerDiagnosticsResult {
    /// Log records that failed.
    pub log_record_failed_count: u64,
    /// Log records that were dropped.
    pub log_record_dropped_count: u64,
    /// Pipeline timeouts.
    pub pipeline_timeout_count: u64,
    /// Pipeline tasks left running after a timeout.
    pub blocking_tasks_abandoned: u64,
    /// Requests that returned an error.
    pub request_failed_count: u64,
    /// Inputs refused before processing.
    pub input_rejected_count: u64,
    /// Requests refused for want of a permit.
    pub server_busy_count: u64,
    /// Requests that succeeded.
    pub request_succeeded_count: u64,
    /// Sum of the durations of successful requests, in microseconds.
    pub request_duration_us_total: u64,
    /// Longest duration of a successful request, in microseconds.
    pub request_duration_us_max: u64,
}

/// Whether `r` shows the counters.
pub open spec fn shows(r: HandlerDiagnosticsResult, m: Metrics) -> bool {
    &&& r.log_record_failed_count == m.log_record_failed_count
    &&& r.log_record_dropped_count == m.log_record_dropped_count
    &&& r.pipeline_timeout_count == m.pipeline_timeout_count
    &&& r.blocking_tasks_abandoned == m.blocking_tasks_abandoned
    &&& r.request_failed_count == m.request_failed_count
    &&& r.input_rejected_count == m.input_rejected_count
    &&& r.server_busy_count == m.server_busy_count
    &&& r.request_succeeded_count == m.request_succeeded_count
    &&& r.request_duration_us_total == m.request_duration_us_total
    &&& r.request_duration_us_max == m.request_duration_us_max
}

/// Output of `toon_diagnostics`.
#[derive(Debug)]
pub struct DiagnosticsResult {
    /// Whether structured logging is enabled.
    pub logging_enabled: bool,
    /// The logging sink's diagnostics.
    pub logging: LoggingDiagnosticsResult,
    /// The handlers' counters.
    pub handler: HandlerDiagnosticsResult,
    /// Currently available concurrency permits.
    pub semaphore_available_permits: usize,
    /// Configured maximum of concurrent calls.
    pub max_concurrent_calls: usize,
}

/// The answer of `toon_diagnostics`.
pub fn handle_toon_diagnostics(
    config: &Config,
    log: LogDiagnostics,
    metrics: &Metrics,
    available_permits: usize,
) -> (r: DiagnosticsResult)
    ensures
        r.logging_enabled == config.logging_enabled,
        r.max_concurrent_calls == config.max_concurrent_calls,
        r.semaphore_available_permits == available_permits,
        shows(r.handler, *metrics),
        r.logging.record_dropped_count == log.record_dropped_count,
        r.logging.record_failed_count == log.record_failed_count,
        r.logging.serialization_failed_count == log.serialization_failed_count,
        r.logging.writer_failed_count == log.writer_failed_count,
        r.logging.last_error == log.last_error,
        r.logging.queue_capacity == log.queue_capacity,
        r.logging.queue_queued == log.queue_queued,
        r.logging.queue_available == log.queue_available,
{
    DiagnosticsResult {
        logging_enabled: config.logging_enabled,
        logging: LoggingDiagnosticsResult {
            record_dropped_count: log.record_dropped_count,
            record_failed_count: log.record_failed_count,
            serialization_failed_count: log.serialization_failed_count,
            writer_failed_count: log.writer_failed_count,
            last_error: log.last_error,
            queue_capacity: log.queue_capacity,
            queue_queued: log.queue_queued,
            queue_available: log.queue_available,
        },
        handler: HandlerDiagnosticsResult {
            log_record_failed_count: metrics.log_record_failed_count,
            log_record_dropped_count: metrics.log_record_dropped_count,
            pipeline_timeout_count: metrics.pipeline_timeout_count,
            blocking_tasks_abandoned: metrics.blocking_tasks_abandoned,
            request_failed_count: metrics.request_failed_count,
            input_rejected_count: metrics.input_rejected_count,
            server_busy_count: metrics.server_busy_count,
            request_succeeded_count: metrics.request_succeeded_count,
            request_duration_us_total: metrics.request_duration_us_total,
            request_duration_us_max: metrics.request_duration_us_max,
        },
        semaphore_available_permits: available_permits,
        max_concurrent_calls: config.max_concurrent_calls,
    }
}

} // verus!
