//! What requests are answered, and what the log says about them.

use vstd::prelude::*;
use crate::bindings::csv_header;
use crate::classifier::shape_name;
use crate::compressor::{decision, reason_name, CompressConfig, Decision};
use crate::detector::{detected, format_name, DetectionConfidence, InputFormat};
use crate::laws::compression::{has_admitted_length, pass_through_names_the_first_obstacle};
use crate::error::{fault_message, Fault};
use crate::logging::error::LogError;
use crate::logging::event::LogEvent;
use crate::logging::sink::RecordOutcome;
use crate::number::decimal;
use crate::parser::csv::inspection;
use crate::server::config::Config;
use crate::server::handler::{
    after_crash, answers_compression, answers_detection, answers_stats, crash_error, error_code,
    error_message, output_of, processed_by, records, records_failure, tells, tool_name,
    CompressOutcome, CompressResult, DetectResult, Request, Stamp, StatsResult, TaskOutcome, Tool,
    ToolError,
};
use crate::server::metrics::{
    after_failure, after_log, after_success, after_timeout, FailureKind, Metrics,
};
use crate::server::supervisor::{writer_report, Severity, WriterExit};
use crate::text::{byte_len, contains_text, occurs_at, optional, texts};

verus! {

/// The name of a format in answers and events.
pub open spec fn name_of_format(f: InputFormat) -> Seq<char> {
    match f {
        InputFormat::Json => "json"@,
        InputFormat::Jsonl => "jsonl"@,
        InputFormat::Csv => "csv"@,
        InputFormat::Tsv => "tsv"@,
        InputFormat::Unknown => "unknown"@,
    }
}

/// The answer to `compress_content` carries either the encoded text or the input
/// itself. Its byte counts are those of the input and of the output, it names the
/// detected format where the length was admitted, and a reason stands in it
/// exactly where the input came back.
pub proof fn compression_answers_carry_the_output(
    input: Seq<char>,
    config: CompressConfig,
    outcome: CompressOutcome,
    output: String,
    duration_us: u64,
    r: CompressResult,
)
    requires
        tells(outcome, input, config),
        output@ == output_of(decision(config, input).0, input),
        answers_compression(r, output, outcome, duration_us),
    ensures
        r.input_bytes == byte_len(input),
        r.output_bytes == byte_len(r.output@),
        r.duration_us == duration_us,
        r.compressed <==> decision(config, input).0 is Compressed,
        r.compressed ==> r.output@ == decision(config, input).0->toon,
        !r.compressed ==> r.output@ == input,
        r.pass_reason is Some <==> !r.compressed,
        decision(config, input).0 matches Decision::PassedThrough { reason, .. } ==> r.pass_reason
            matches Some(name) && name@ == reason_name(reason),
        decision(config, input).0 matches Decision::Compressed { shape_class, .. }
            ==> r.shape_class@ == shape_name(shape_class),
        !r.compressed ==> r.shape_class@ == "pass_through"@,
        has_admitted_length(config, input) ==> r.format@ == name_of_format(
            detected(input).format,
        ) && r.detection_ambiguous == detected(input).ambiguous
            && r.detection_candidates@.len() == detected(input).candidates.len() && (forall|i: int|
            0 <= i < r.detection_candidates@.len() ==> (#[trigger] r.detection_candidates@[i])@
                == name_of_format(detected(input).candidates[i])),
        has_admitted_length(config, input) ==> r.detection_confidence@ == (if detected(
            input,
        ).confidence == DetectionConfidence::Certain {
            "certain"@
        } else {
            "heuristic"@
        }),
        !has_admitted_length(config, input) ==> r.format@ == "unknown"@
            && r.detection_candidates@.len() == 0,
        match decision(config, input).1 {
            Some(m) => r.numeric_coercion_used == Some(m.numeric_coercion_used)
                && r.lossy_coercion_possible == Some(m.lossy_coercion_possible),
            None => r.numeric_coercion_used is None && r.lossy_coercion_possible is None,
        },
{
    pass_through_names_the_first_obstacle(config, input);
    let listed = texts(r.detection_candidates@);
    assert(listed.len() == r.detection_candidates@.len());
    assert forall|i: int| 0 <= i < r.detection_candidates@.len() implies (
    #[trigger] r.detection_candidates@[i])@ == format_name(outcome.detection@.candidates[i]) by {
        assert(listed[i] == r.detection_candidates@[i]@);
    }
}

/// The preview says what compression would do: whether, to how many bytes, and if
/// not, why not.
pub proof fn previews_say_what_would_happen(
    input: Seq<char>,
    config: Config,
    limits: CompressConfig,
    outcome: CompressOutcome,
    r: StatsResult,
)
    requires
        tells(outcome, input, limits),
        answers_stats(r, outcome, config),
    ensures
        r.would_compress <==> decision(limits, input).0 is Compressed,
        r.input_bytes == byte_len(input),
        decision(limits, input).0 matches Decision::Compressed { toon, .. }
            ==> r.estimated_output_bytes == byte_len(toon) && r.pass_reason is None,
        decision(limits, input).0 matches Decision::PassedThrough { reason, .. }
            ==> r.estimated_output_bytes == byte_len(input) && (r.pass_reason matches Some(name)
            && name@ == reason_name(reason)),
        r.threshold == config.max_output_ratio,
        decision(limits, input).0 matches Decision::Compressed { shape_class, .. }
            ==> r.shape_class@ == shape_name(shape_class),
        !r.would_compress ==> r.shape_class@ == "pass_through"@,
        has_admitted_length(limits, input) ==> r.format@ == name_of_format(
            detected(input).format,
        ) && r.detection_ambiguous == detected(input).ambiguous
            && r.detection_candidates@.len() == detected(input).candidates.len() && (forall|i: int|
            0 <= i < r.detection_candidates@.len() ==> (#[trigger] r.detection_candidates@[i])@
                == name_of_format(detected(input).candidates[i])),
        has_admitted_length(limits, input) ==> r.detection_confidence@ == (if detected(
            input,
        ).confidence == DetectionConfidence::Certain {
            "certain"@
        } else {
            "heuristic"@
        }),
        !has_admitted_length(limits, input) ==> r.format@ == "unknown"@
            && r.detection_candidates@.len() == 0,
        match decision(limits, input).1 {
            Some(m) => r.numeric_coercion_used == Some(m.numeric_coercion_used)
                && r.lossy_coercion_possible == Some(m.lossy_coercion_possible),
            None => r.numeric_coercion_used is None && r.lossy_coercion_possible is None,
        },
{
    pass_through_names_the_first_obstacle(limits, input);
    let listed = texts(r.detection_candidates@);
    assert(listed.len() == r.detection_candidates@.len());
    assert forall|i: int| 0 <= i < r.detection_candidates@.len() implies (
    #[trigger] r.detection_candidates@[i])@ == format_name(outcome.detection@.candidates[i]) by {
        assert(listed[i] == r.detection_candidates@[i]@);
    }
}

/// The log tells the same as the answer.
pub proof fn events_tell_what_was_answered(
    outcome: CompressOutcome,
    output: String,
    duration_us: u64,
    r: CompressResult,
    event: LogEvent,
    stamp: Stamp,
    config: Config,
)
    requires
        answers_compression(r, output, outcome, duration_us),
        records(
            event,
            Tool::CompressContent,
            stamp,
            processed_by(outcome),
            "ok"@,
            duration_us,
            config,
        ),
    ensures
        event.event_id == stamp.event_id,
        event.ts_us == stamp.ts_us,
        event.tool_name@ == "compress_content"@,
        event.outcome@ == "ok"@,
        event.input_format@ == r.format@,
        event.shape_class@ == r.shape_class@,
        event.input_bytes == r.input_bytes,
        event.output_bytes == r.output_bytes,
        event.compressed == r.compressed,
        event.duration_us == r.duration_us,
        event.threshold_used == config.max_output_ratio,
        optional(event.pass_reason) == optional(r.pass_reason),
        optional(event.client_hint) == optional(config.client_hint),
{
}

/// The answer to `detect_format` tells what detection found: the format and its
/// candidates by name, the length of the input, the number of non-blank lines of
/// a stream, and of a table its columns and what coercion would do to it.
pub proof fn detection_answers_tell_what_was_found(
    r: DetectResult,
    input: Seq<char>,
    coerce: bool,
)
    requires
        answers_detection(r, input, coerce),
        byte_len(input) <= usize::MAX,
    ensures
        ({
            let found = detected(input);
            let delimiter: u8 = if found.format == InputFormat::Csv {
                0x2c
            } else {
                0x09
            };
            let is_table = found.format == InputFormat::Csv || found.format == InputFormat::Tsv;
            &&& r.format@ == name_of_format(found.format)
            &&& r.input_bytes == byte_len(input)
            &&& r.line_count is Some <==> found.line_count is Some
            &&& found.line_count matches Some(n) ==> n <= usize::MAX ==> r.line_count->0 == n
            &&& r.detection_ambiguous == found.ambiguous
            &&& r.detection_confidence@ == (if found.confidence == DetectionConfidence::Certain {
                "certain"@
            } else {
                "heuristic"@
            })
            &&& r.detection_candidates@.len() == found.candidates.len()
            &&& forall|i: int|
                0 <= i < found.candidates.len() ==> (#[trigger] r.detection_candidates@[i])@
                    == name_of_format(found.candidates[i])
            &&& !is_table ==> r.column_count is None && r.numeric_coercion_used is None
                && r.lossy_coercion_possible is None
            &&& is_table ==> match csv_header(delimiter, input) {
                Ok(header) => header.len() <= usize::MAX ==> (r.column_count matches Some(n) && n
                    == header.len()),
                Err(_) => r.column_count is None,
            }
            &&& is_table ==> match inspection(delimiter, coerce, input) {
                Ok(m) => r.numeric_coercion_used == Some(m.numeric_coercion_used)
                    && r.lossy_coercion_possible == Some(m.lossy_coercion_possible),
                Err(_) => r.numeric_coercion_used == Some(false) && r.lossy_coercion_possible
                    == Some(false),
            }
        }),
{
    let found = detected(input);
    let listed = texts(r.detection_candidates@);
    assert(listed.len() == r.detection_candidates@.len());
    assert forall|i: int| 0 <= i < found.candidates.len() implies (
    #[trigger] r.detection_candidates@[i])@ == name_of_format(found.candidates[i]) by {
        assert(listed[i] == r.detection_candidates@[i]@);
    }
}

/// A failed request is logged as what it was: refused for its length, turned away
/// for want of a permit, timed out, or failed; with the input's length and
/// nothing made up about its contents.
pub proof fn failures_are_logged_as_what_they_were(
    event: LogEvent,
    e: ToolError,
    request: Request,
    config: Config,
)
    requires
        records_failure(event, e, request, config),
    ensures
        event.outcome@ == match e {
            ToolError::InputExceedsLimit { .. } => "rejected"@,
            ToolError::ServerBusy => "busy"@,
            ToolError::PipelineTimeout { .. } => "timeout"@,
            ToolError::SemaphoreClosed => "failed"@,
            ToolError::TaskFailed { .. } => "failed"@,
        },
        event.tool_name@ == match request.tool {
            Tool::DetectFormat => "detect_format"@,
            Tool::CompressContent => "compress_content"@,
            Tool::CompressionStats => "compression_stats"@,
        },
        event.event_id == request.stamp.event_id,
        event.ts_us == request.stamp.ts_us,
        event.duration_us == request.duration_us,
        event.input_bytes == request.input_bytes,
        event.output_bytes == request.input_bytes,
        !event.compressed,
        event.pass_reason is None,
        event.input_format@ == "unknown"@,
        event.shape_class@ == "pass_through"@,
        event.threshold_used == config.max_output_ratio,
        optional(event.client_hint) == optional(config.client_hint),
{
}

/// A message names its failure and quotes what belongs to it; no two kinds of
/// failure have the same code.
pub proof fn failure_messages_quote_their_data(
    actual: usize,
    limit: usize,
    op: &'static str,
    detail: String,
    timeout_ms: u64,
)
    ensures
        ({
            let m = error_message(ToolError::InputExceedsLimit { actual, limit });
            exists|i: int, j: int|
                #[trigger] occurs_at(m, decimal(actual as nat), i) && #[trigger] occurs_at(
                    m,
                    decimal(limit as nat),
                    j,
                ) && i + decimal(actual as nat).len() <= j
        }),
        ({
            let m = error_message(ToolError::PipelineTimeout { op, timeout_ms });
            contains_text(m, op@) && contains_text(m, decimal(timeout_ms as nat))
        }),
        contains_text(error_message(ToolError::TaskFailed { op, detail }), detail@),
        error_code(ToolError::InputExceedsLimit { actual, limit }) is None,
        error_code(ToolError::SemaphoreClosed) is None,
        error_code(ToolError::ServerBusy) == Some("server_busy"@),
        error_code(ToolError::TaskFailed { op, detail }) == Some("spawn_blocking_failed"@),
        error_code(ToolError::PipelineTimeout { op, timeout_ms }) == Some("pipeline_timeout"@),
{
    let m = error_message(ToolError::InputExceedsLimit { actual, limit });
    let a = "input_exceeds_limit: input is "@;
    let b = " bytes; maximum allowed is "@;
    let x = decimal(actual as nat);
    let y = decimal(limit as nat);
    let i = a.len() as int;
    let j = i + x.len() + b.len();
    assert(m.subrange(i, i + x.len()) =~= x);
    assert(m.subrange(j, j + y.len()) =~= y);
    assert(occurs_at(m, x, i) && occurs_at(m, y, j));
    let t = error_message(ToolError::PipelineTimeout { op, timeout_ms });
    let c = "pipeline_timeout: "@;
    let d = " did not complete within "@;
    let z = decimal(timeout_ms as nat);
    let k = c.len() as int;
    let l = k + op@.len() + d.len();
    assert(t.subrange(k, k + op@.len()) =~= op@);
    assert(t.subrange(l, l + z.len()) =~= z);
    assert(occurs_at(t, op@, k) && occurs_at(t, z, l));
    let f = error_message(ToolError::TaskFailed { op, detail });
    let e = "spawn_blocking failed: "@;
    assert(f.subrange(e.len() as int, (e.len() + detail@.len()) as int) =~= detail@);
    assert(occurs_at(f, detail@, e.len() as int));
}

/// Each event of a request moves the counters that are about it, by one, and
/// leaves all others: a success its count and durations, a failure its count and
/// that of its kind, a timeout the two counts of timeouts, a log failure or drop
/// its own.
pub proof fn counters_move_one_by_one(
    m: Metrics,
    duration_us: u64,
    kind: FailureKind,
    logged: Result<RecordOutcome, LogError>,
)
    requires
        m.request_succeeded_count < u64::MAX,
        m.request_failed_count < u64::MAX,
        m.input_rejected_count < u64::MAX,
        m.server_busy_count < u64::MAX,
        m.pipeline_timeout_count < u64::MAX,
        m.blocking_tasks_abandoned < u64::MAX,
        m.log_record_failed_count < u64::MAX,
        m.log_record_dropped_count < u64::MAX,
        m.request_duration_us_total + duration_us <= u64::MAX,
    ensures
        ({
            let s = after_success(m, duration_us);
            &&& s.request_succeeded_count == m.request_succeeded_count + 1
            &&& s.request_duration_us_total == m.request_duration_us_total + duration_us
            &&& s.request_duration_us_max >= m.request_duration_us_max
            &&& s.request_duration_us_max >= duration_us
            &&& s.request_duration_us_max == m.request_duration_us_max
                || s.request_duration_us_max == duration_us
            &&& s.request_failed_count == m.request_failed_count
            &&& s.input_rejected_count == m.input_rejected_count
            &&& s.server_busy_count == m.server_busy_count
            &&& same_pipeline_counts(s, m)
            &&& same_log_counts(s, m)
        }),
        ({
            let f = after_failure(m, kind);
            &&& f.request_failed_count == m.request_failed_count + 1
            &&& f.input_rejected_count - m.input_rejected_count == (if kind
                == FailureKind::Rejected {
                1int
            } else {
                0
            })
            &&& f.server_busy_count - m.server_busy_count == (if kind == FailureKind::Busy {
                1int
            } else {
                0
            })
            &&& same_success_counts(f, m)
            &&& same_pipeline_counts(f, m)
            &&& same_log_counts(f, m)
        }),
        ({
            let t = after_timeout(m);
            &&& t.pipeline_timeout_count == m.pipeline_timeout_count + 1
            &&& t.blocking_tasks_abandoned == m.blocking_tasks_abandoned + 1
            &&& same_success_counts(t, m)
            &&& t.request_failed_count == m.request_failed_count
            &&& t.input_rejected_count == m.input_rejected_count
            &&& t.server_busy_count == m.server_busy_count
            &&& same_log_counts(t, m)
        }),
        ({
            let l = after_log(m, logged);
            &&& l.log_record_failed_count - m.log_record_failed_count == (if logged is Err {
                1int
            } else {
                0
            })
            &&& l.log_record_dropped_count - m.log_record_dropped_count == (if logged is Ok
                && logged->Ok_0.dropped {
                1int
            } else {
                0
            })
            &&& same_success_counts(l, m)
            &&& same_pipeline_counts(l, m)
            &&& l.request_failed_count == m.request_failed_count
            &&& l.input_rejected_count == m.input_rejected_count
            &&& l.server_busy_count == m.server_busy_count
        }),
{
}

/// Whether the counts and durations of successful requests are the same.
pub open spec fn same_success_counts(a: Metrics, b: Metrics) -> bool {
    &&& a.request_succeeded_count == b.request_succeeded_count
    &&& a.request_duration_us_total == b.request_duration_us_total
    &&& a.request_duration_us_max == b.request_duration_us_max
}

/// Whether the counts of timeouts are the same.
pub open spec fn same_pipeline_counts(a: Metrics, b: Metrics) -> bool {
    &&& a.pipeline_timeout_count == b.pipeline_timeout_count
    &&& a.blocking_tasks_abandoned == b.blocking_tasks_abandoned
}

/// Whether the counts about the log are the same.
pub open spec fn same_log_counts(a: Metrics, b: Metrics) -> bool {
    &&& a.log_record_failed_count == b.log_record_failed_count
    &&& a.log_record_dropped_count == b.log_record_dropped_count
}

/// A task that does not finish is a failed request: a timeout counts as one and
/// names the limit, a crash carries its detail.
pub proof fn unfinished_tasks_are_failures(
    m: Metrics,
    detail: String,
    op: &'static str,
    config: Config,
)
    requires
        m.request_failed_count < u64::MAX,
        m.pipeline_timeout_count < u64::MAX,
        m.blocking_tasks_abandoned < u64::MAX,
    ensures
        ({
            let late = after_crash(m, TaskOutcome::<()>::TimedOut);
            let crashed = after_crash(m, TaskOutcome::<()>::Crashed(detail));
            &&& late.request_failed_count == m.request_failed_count + 1
            &&& late.pipeline_timeout_count == m.pipeline_timeout_count + 1
            &&& late.blocking_tasks_abandoned == m.blocking_tasks_abandoned + 1
            &&& late.input_rejected_count == m.input_rejected_count
            &&& late.server_busy_count == m.server_busy_count
            &&& same_success_counts(late, m)
            &&& crashed.request_failed_count == m.request_failed_count + 1
            &&& crashed.input_rejected_count == m.input_rejected_count
            &&& crashed.server_busy_count == m.server_busy_count
            &&& same_pipeline_counts(crashed, m)
            &&& same_success_counts(crashed, m)
        }),
        crash_error(TaskOutcome::<()>::TimedOut, op, config) == (ToolError::PipelineTimeout {
            op,
            timeout_ms: config.pipeline_timeout_ms,
        }),
        crash_error(TaskOutcome::<()>::Crashed(detail), op, config) == (ToolError::TaskFailed {
            op,
            detail,
        }),
{
}

/// The end of the writer is an error unless it returned during a shutdown.
pub proof fn only_a_drained_writer_is_in_order(exit: WriterExit, shutting_down: bool)
    ensures
        writer_report(exit, shutting_down).0 == Severity::Info <==> exit == WriterExit::Finished
            && shutting_down,
{
}

/// The sentence about a fault ends in what the fault carries, and about a line of
/// a stream it names the line.
pub proof fn fault_messages_end_in_their_detail(
    line: nat,
    detail: Seq<char>,
    format: InputFormat,
)
    ensures
        ends_in(fault_message(Fault::JsonError(detail)), detail),
        ends_in(fault_message(Fault::CsvError(detail)), detail),
        ends_in(fault_message(Fault::ToonError(detail)), detail),
        ends_in(fault_message(Fault::DuplicateKey { key: detail }), detail),
        ends_in(fault_message(Fault::DuplicateHeader { header: detail }), detail),
        ends_in(
            fault_message(Fault::ParseFailed { format, line, detail }),
            " line "@ + decimal(line) + ": "@ + detail,
        ),
{
    reveal_strlit("JSONL parse failed at line ");
    reveal_strlit(" line ");
    lemma_ends_in("JSON parse error: "@, detail);
    lemma_ends_in("CSV parse error: "@, detail);
    lemma_ends_in("TOON encode error: "@, detail);
    lemma_ends_in("duplicate object key: "@, detail);
    lemma_ends_in("duplicate header: "@, detail);
    let head = "JSONL parse failed at line "@;
    let tail = " line "@ + decimal(line) + ": "@ + detail;
    let front = head.take(21);
    assert(head =~= front + " line "@);
    assert(fault_message(Fault::ParseFailed { format, line, detail }) =~= front + tail);
    lemma_ends_in(front, tail);
}

/// Whether a text ends in another.
pub open spec fn ends_in(s: Seq<char>, end: Seq<char>) -> bool {
    s.len() >= end.len() && s.skip(s.len() - end.len()) == end
}

proof fn lemma_ends_in(front: Seq<char>, end: Seq<char>)
    ensures
        ends_in(front + end, end),
{
    let s = front + end;
    assert(s.skip(s.len() - end.len()) =~= end);
}

} // verus!
