use toon_mcp::compressor::{CompressConfig, DEFAULT_MAX_INPUT_BYTES};
use toon_mcp::logging::error::LogError;
use toon_mcp::logging::jsonl_sink::{Counters, SendOutcome};
use toon_mcp::logging::memory_sink::MemorySink;
use toon_mcp::logging::noop_sink::NoopSink;
use toon_mcp::logging::sink::RecordOutcome;
use toon_mcp::ratio::Ratio;
use toon_mcp::server::config::Config;
use toon_mcp::server::handler::{
    compress, detect_format, handle_compress_content, handle_compression_stats,
    handle_detect_format, handle_toon_diagnostics, permit, screen, CompressOutcome, DetectResult,
    PermitOutcome, Request, Stamp, TaskOutcome, Tool, ToolError,
};
use toon_mcp::server::identity::event_id;
use toon_mcp::server::metrics::{FailureKind, Metrics};
use toon_mcp::server::supervisor::{supervise_writer_task, Severity, WriterExit};

fn test_config() -> Config {
    let config = Config::default();
    assert_eq!(config.max_input_bytes, DEFAULT_MAX_INPUT_BYTES);
    config
}

fn request(tool: Tool, input_bytes: usize, duration_us: u64) -> Request {
    Request {
        tool,
        input_bytes,
        stamp: Stamp { event_id: "00000000000000aa".to_string(), ts_us: 7 },
        duration_us,
    }
}

fn detect(input: &str) -> DetectResult {
    detect_format(input, &test_config()).1
}

#[test]
fn detect_format_json() {
    let result = detect(r#"{"key":"value"}"#);
    assert_eq!(result.format, "json");
    assert_eq!(result.input_bytes, 15);
    assert!(result.line_count.is_none());
    assert!(result.column_count.is_none());
    assert_eq!(result.detection_confidence, "certain");
    assert!(!result.detection_ambiguous);
    assert_eq!(result.detection_candidates, vec!["json".to_owned()]);
    assert_eq!(result.numeric_coercion_used, None);
    assert_eq!(result.lossy_coercion_possible, None);
}

#[test]
fn detect_format_jsonl_has_line_count() {
    let result = detect("{\"a\":1}\n{\"b\":2}\n{\"c\":3}");
    assert_eq!(result.format, "jsonl");
    assert_eq!(result.line_count, Some(3));
    assert!(result.column_count.is_none());
}

#[test]
fn detect_format_csv_has_column_count() {
    let result = detect("id,name,score\n1,Alice,9.5");
    assert_eq!(result.format, "csv");
    assert_eq!(result.column_count, Some(3));
    assert!(result.line_count.is_none());
    assert_eq!(result.detection_confidence, "heuristic");
    assert_eq!(result.detection_candidates, vec!["csv".to_owned()]);
    assert_eq!(result.numeric_coercion_used, Some(true));
    assert_eq!(result.lossy_coercion_possible, Some(false));
}

#[test]
fn detect_format_csv_flags_lossy_numeric_coercion() {
    let result = detect("zip,count\n00123,1.0");
    assert_eq!(result.format, "csv");
    assert_eq!(result.numeric_coercion_used, Some(true));
    assert_eq!(result.lossy_coercion_possible, Some(true));
}

#[test]
fn detect_format_unknown() {
    assert_eq!(detect("this is plain text").format, "unknown");
}

#[test]
fn unreadable_table_reports_no_coercion() {
    let result = detect("a,b\n1,2\n3");
    assert_eq!(result.format, "csv");
    assert_eq!(result.numeric_coercion_used, Some(false));
    assert_eq!(result.lossy_coercion_possible, Some(false));
}

#[test]
fn detect_format_rejects_oversized_input() {
    let cfg = test_config();
    let mut metrics = Metrics::default();
    let (err, event) =
        screen(request(Tool::DetectFormat, cfg.max_input_bytes + 1, 0), &cfg, &mut metrics)
            .expect_err("too long");
    assert_eq!(
        err.message(),
        "input_exceeds_limit: input is 10485761 bytes; maximum allowed is 10485760 bytes (TOON_MAX_INPUT_BYTES)"
    );
    assert!(err.code().is_none());
    assert_eq!(event.outcome, "rejected");
}

#[test]
fn input_at_the_limit_is_let_in() {
    let cfg = test_config();
    let mut metrics = Metrics::default();
    assert!(screen(request(Tool::CompressContent, cfg.max_input_bytes, 0), &cfg, &mut metrics).is_ok());
    assert_eq!(metrics, Metrics::default());
}

fn large_json() -> String {
    let rows: Vec<String> = (0..50)
        .map(|i| {
            format!(
                r#"{{"id":{i},"name":"item_{i}","value":{value},"active":true}}"#,
                value = i * 10
            )
        })
        .collect();
    format!("[{}]", rows.join(","))
}

fn finish_compress(input: &str, cfg: &Config, metrics: &mut Metrics) -> toon_mcp::server::handler::CompressResult {
    let done = compress(input.to_string(), &CompressConfig::from(cfg));
    let (result, event) = handle_compress_content(
        request(Tool::CompressContent, input.len(), 42),
        TaskOutcome::Finished(done),
        cfg,
        metrics,
    );
    let result = result.expect("the task finished");
    assert_eq!(event.tool_name, "compress_content");
    assert_eq!(event.outcome, "ok");
    assert_eq!(event.compressed, result.compressed);
    assert_eq!(event.input_bytes, result.input_bytes as u64);
    assert_eq!(event.output_bytes, result.output_bytes as u64);
    assert_eq!(event.pass_reason, result.pass_reason);
    assert_eq!(event.duration_us, 42);
    result
}

#[test]
fn compress_content_compresses_large_json() {
    let mut metrics = Metrics::default();
    let input = large_json();
    let result = finish_compress(&input, &test_config(), &mut metrics);
    assert!(result.compressed);
    assert!(result.output_bytes < result.input_bytes);
    assert_eq!(result.output.len(), result.output_bytes);
    assert_eq!(result.format, "json");
    assert_eq!(result.shape_class, "tabular");
    assert_eq!(result.pass_reason, None);
    assert_eq!(result.detection_confidence, "certain");
    assert_eq!(metrics.request_succeeded_count, 1);
    assert_eq!(metrics.request_duration_us_total, 42);
}

#[test]
fn compress_content_passes_through_small_input() {
    let mut metrics = Metrics::default();
    let input = r#"{"k":"v"}"#;
    let result = finish_compress(input, &test_config(), &mut metrics);
    assert!(!result.compressed);
    assert_eq!(result.output, input);
    assert_eq!(result.numeric_coercion_used, None);
    assert_eq!(result.pass_reason.as_deref(), Some("below_min_bytes"));
    assert_eq!(result.format, "unknown");
    assert_eq!(result.shape_class, "pass_through");
    assert_eq!(result.output_bytes, result.input_bytes);
}

#[test]
fn prose_passes_through_verbatim() {
    let mut metrics = Metrics::default();
    let input = "Prose — with ünïcode, and no structure. ".repeat(20);
    let result = finish_compress(&input, &test_config(), &mut metrics);
    assert_eq!(result.output, input);
    assert_eq!(result.input_bytes, input.len());
    assert_eq!(result.pass_reason.as_deref(), Some("unknown_format"));
}

#[test]
fn handler_compress_content_rejects_oversized_input() {
    let cfg = Config { max_input_bytes: 8, ..test_config() };
    let mut metrics = Metrics::default();
    let (err, _) = screen(request(Tool::CompressContent, 9, 0), &cfg, &mut metrics)
        .expect_err("too long");
    assert!(err.message().contains("input_exceeds_limit"));
}

#[test]
fn compression_stats_returns_threshold() {
    let cfg = test_config();
    let mut metrics = Metrics::default();
    let input = r#"{"key":"value"}"#;
    let (_, outcome) = compress(input.to_string(), &CompressConfig::from(&cfg));
    let (result, event) = handle_compression_stats(
        request(Tool::CompressionStats, input.len(), 1),
        TaskOutcome::Finished(outcome),
        &cfg,
        &mut metrics,
    );
    let result = result.expect("the task finished");
    assert_eq!(result.threshold, cfg.max_output_ratio);
    assert_eq!(result.threshold, Ratio { digits: 85, places: 2 });
    assert!(!result.detection_confidence.is_empty());
    assert_eq!(event.tool_name, "compression_stats");
}

#[test]
fn stats_predict_the_compression() {
    let cfg = test_config();
    let mut metrics = Metrics::default();
    for input in [large_json(), "a,b\n1,2".to_string(), "x".repeat(500)] {
        let compressed = finish_compress(&input, &cfg, &mut metrics);
        let (_, outcome) = compress(input.clone(), &CompressConfig::from(&cfg));
        let (stats, _) = handle_compression_stats(
            request(Tool::CompressionStats, input.len(), 1),
            TaskOutcome::Finished(outcome),
            &cfg,
            &mut metrics,
        );
        let stats = stats.expect("the task finished");
        assert_eq!(stats.would_compress, compressed.compressed);
        assert_eq!(stats.estimated_output_bytes, compressed.output_bytes);
        assert_eq!(stats.pass_reason, compressed.pass_reason);
        assert_eq!(stats.format, compressed.format);
        assert_eq!(stats.shape_class, compressed.shape_class);
    }
}

#[test]
fn detect_format_logs_event() {
    let cfg = Config { client_hint: Some("opencode".to_string()), ..test_config() };
    let mut metrics = Metrics::default();
    let input = r#"{"a":1}"#;
    let done = detect_format(input, &cfg);
    let (result, event) = handle_detect_format(
        request(Tool::DetectFormat, input.len(), 5),
        TaskOutcome::Finished(done),
        &cfg,
        &mut metrics,
    );
    assert_eq!(result.expect("the task finished").format, "json");
    assert_eq!(event.tool_name, "detect_format");
    assert_eq!(event.outcome, "ok");
    assert_eq!(event.input_format, "json");
    assert_eq!(event.client_hint.as_deref(), Some("opencode"));
    assert_eq!(event.event_id, "00000000000000aa");
    assert_eq!(event.ts_us, 7);
}

#[test]
fn oversized_input_records_rejected_failure_event() {
    let cfg = Config { max_input_bytes: 8, ..test_config() };
    let mut metrics = Metrics::default();
    let (err, event) = screen(request(Tool::DetectFormat, 9, 0), &cfg, &mut metrics)
        .expect_err("too long");
    assert!(err.message().contains("input_exceeds_limit"));
    assert_eq!(event.tool_name, "detect_format");
    assert_eq!(event.outcome, "rejected");
    assert!(!event.compressed);
    assert_eq!(event.input_format, "unknown");
    assert_eq!(event.output_bytes, 9);
}

#[test]
fn busy_rejection_records_busy_failure_event() {
    let cfg = test_config();
    let mut metrics = Metrics::default();
    let (err, event) = permit(
        request(Tool::CompressionStats, 7, 0),
        PermitOutcome::TimedOut,
        &cfg,
        &mut metrics,
    )
    .expect_err("no permit");
    assert!(err.message().contains("server busy"));
    assert_eq!(err.code(), Some("server_busy"));
    assert_eq!(event.tool_name, "compression_stats");
    assert_eq!(event.outcome, "busy");
    assert_eq!(metrics.server_busy_count, 1);
    let (err, event) = permit(
        request(Tool::CompressionStats, 7, 0),
        PermitOutcome::Closed,
        &cfg,
        &mut metrics,
    )
    .expect_err("gate gone");
    assert_eq!(err.message(), "semaphore closed");
    assert_eq!(event.outcome, "failed");
    assert_eq!(metrics.request_failed_count, 2);
    assert!(permit(request(Tool::DetectFormat, 7, 0), PermitOutcome::Granted, &cfg, &mut metrics).is_ok());
}

#[test]
fn failure_counters_increment_on_rejection() {
    let cfg = Config { max_input_bytes: 8, ..test_config() };
    let mut metrics = Metrics::default();
    let _ = screen(request(Tool::CompressContent, 9, 0), &cfg, &mut metrics);
    let d = handle_toon_diagnostics(&cfg, NoopSink.diagnostics(), &metrics, 8);
    assert_eq!(d.handler.request_failed_count, 1);
    assert_eq!(d.handler.input_rejected_count, 1);
    assert_eq!(d.handler.server_busy_count, 0);
    assert_eq!(d.max_concurrent_calls, 8);
    assert_eq!(d.semaphore_available_permits, 8);
    assert!(!d.logging_enabled);
}

#[test]
fn timeouts_and_crashes_are_answered() {
    let cfg = Config { pipeline_timeout_ms: 50, ..test_config() };
    let mut metrics = Metrics::default();
    let (result, event) = handle_compress_content(
        request(Tool::CompressContent, 3, 60_000),
        TaskOutcome::TimedOut,
        &cfg,
        &mut metrics,
    );
    let err = result.expect_err("timed out");
    assert_eq!(
        err.message(),
        "pipeline_timeout: compression did not complete within 50ms (TOON_PIPELINE_TIMEOUT_MS)"
    );
    assert_eq!(err.code(), Some("pipeline_timeout"));
    assert_eq!(err.error_outcome(), FailureKind::Timeout);
    assert_eq!(event.outcome, "timeout");
    assert_eq!(event.duration_us, 60_000);
    assert_eq!(metrics.pipeline_timeout_count, 1);
    assert_eq!(metrics.blocking_tasks_abandoned, 1);

    let crashed: TaskOutcome<CompressOutcome> = TaskOutcome::Crashed("panic".to_string());
    let (result, event) = handle_compression_stats(
        request(Tool::CompressionStats, 3, 1),
        crashed,
        &cfg,
        &mut metrics,
    );
    let err = result.expect_err("crashed");
    assert_eq!(err.message(), "spawn_blocking failed: panic");
    assert!(matches!(err, ToolError::TaskFailed { op: "compression", .. }));
    assert_eq!(event.outcome, "failed");
    assert_eq!(metrics.request_failed_count, 2);
    assert_eq!(metrics.request_succeeded_count, 0);
}

#[test]
fn diagnostics_reports_request_durations() {
    let mut metrics = Metrics::default();
    metrics.record_success_duration(10);
    metrics.record_success_duration(30);
    metrics.record_success_duration(20);
    let d = handle_toon_diagnostics(&test_config(), NoopSink.diagnostics(), &metrics, 3);
    assert_eq!(d.handler.request_succeeded_count, 3);
    assert_eq!(d.handler.request_duration_us_total, 60);
    assert_eq!(d.handler.request_duration_us_max, 30);
    assert_eq!(d.semaphore_available_permits, 3);
}

#[test]
fn log_outcomes_are_counted() {
    let mut metrics = Metrics::default();
    metrics.record_log_event(&Ok(RecordOutcome::accepted()));
    assert_eq!(metrics, Metrics::default());
    metrics.record_log_event(&Ok(RecordOutcome::dropped()));
    metrics.record_log_event(&Err(LogError::ChannelSend("closed".to_string())));
    assert_eq!(metrics.log_record_dropped_count, 1);
    assert_eq!(metrics.log_record_failed_count, 1);
}

#[test]
fn counters_wrap() {
    let mut metrics = Metrics { request_duration_us_total: u64::MAX, ..Metrics::default() };
    metrics.record_success_duration(3);
    assert_eq!(metrics.request_duration_us_total, 2);
}

#[test]
fn new_event_id_is_unique() {
    let a = event_id(0, 1_700_000_000_000_000_000);
    let b = event_id(1, 1_700_000_000_000_000_000);
    assert_ne!(a, b);
    assert_eq!(a.len(), 16);
    assert_ne!(event_id(0, 1), event_id(1, 0));
}

#[test]
fn new_event_id_is_hex() {
    let id = event_id(5, 6);
    assert!(id.chars().all(|c| c.is_ascii_hexdigit()));
    assert_eq!(id, id.to_lowercase());
}

#[test]
fn event_id_hashes_counter_and_timestamp() {
    let mut buf = [0u8; 16];
    buf[..8].copy_from_slice(&258u64.to_le_bytes());
    buf[8..].copy_from_slice(&0x0123_4567_89ab_cdefu64.to_le_bytes());
    let expected = format!("{:016x}", xxhash_rust::xxh3::xxh3_64(&buf));
    assert_eq!(event_id(258, 0x0123_4567_89ab_cdef), expected);
}

#[test]
fn supervise_writer_task_absorbs_panic() {
    let (severity, message) = supervise_writer_task(WriterExit::Panicked, true);
    assert_eq!(severity, Severity::Error);
    assert_eq!(message, "writer task panicked; subsequent log events will be dropped");
}

#[test]
fn supervise_writer_task_handles_clean_exit() {
    let (severity, message) = supervise_writer_task(WriterExit::Finished, false);
    assert_eq!(severity, Severity::Error);
    assert!(message.starts_with("writer task exited unexpectedly"));
}

#[test]
fn supervise_writer_task_clean_exit_during_shutdown() {
    let (severity, _) = supervise_writer_task(WriterExit::Finished, true);
    assert_eq!(severity, Severity::Info);
}

#[test]
fn compression_stats_rejects_oversized_input() {
    let cfg = test_config();
    let mut metrics = Metrics::default();
    let (err, event) =
        screen(request(Tool::CompressionStats, cfg.max_input_bytes + 1, 0), &cfg, &mut metrics)
            .expect_err("too long");
    assert!(err.message().contains("input_exceeds_limit"));
    assert_eq!(event.tool_name, "compression_stats");
}

#[test]
fn compress_content_logs_event() {
    let cfg = test_config();
    let mut metrics = Metrics::default();
    let mut sink = MemorySink::new();
    let input = r#"{"a":1}"#;
    let done = compress(input.to_string(), &CompressConfig::from(&cfg));
    let (_, event) = handle_compress_content(
        request(Tool::CompressContent, input.len(), 1),
        TaskOutcome::Finished(done),
        &cfg,
        &mut metrics,
    );
    metrics.record_log_event(&sink.record(event));
    assert_eq!(sink.events().len(), 1);
    assert_eq!(sink.events()[0].tool_name, "compress_content");
}

#[test]
fn compression_stats_logs_event() {
    let cfg = test_config();
    let mut metrics = Metrics::default();
    let mut sink = MemorySink::new();
    let input = r#"{"a":1}"#;
    let (_, outcome) = compress(input.to_string(), &CompressConfig::from(&cfg));
    let (_, event) = handle_compression_stats(
        request(Tool::CompressionStats, input.len(), 1),
        TaskOutcome::Finished(outcome),
        &cfg,
        &mut metrics,
    );
    metrics.record_log_event(&sink.record(event));
    assert_eq!(sink.events().len(), 1);
    assert_eq!(sink.events()[0].tool_name, "compression_stats");
}

#[test]
fn handler_preserves_success_when_logging_channel_closed() {
    let cfg = test_config();
    let mut metrics = Metrics::default();
    let mut counters = Counters::new();
    let input = r#"{"a":1}"#;
    let (result, _) = handle_detect_format(
        request(Tool::DetectFormat, input.len(), 1),
        TaskOutcome::Finished(detect_format(input, &cfg)),
        &cfg,
        &mut metrics,
    );
    metrics.record_log_event(&counters.note_record(SendOutcome::Closed));
    assert_eq!(result.expect("succeeds despite the logging failure").format, "json");
    let d = handle_toon_diagnostics(&cfg, counters.diagnostics(4, 4), &metrics, 1);
    assert_eq!(d.logging.record_failed_count, 1);
    assert_eq!(d.handler.log_record_failed_count, 1);
    assert_eq!(d.handler.request_succeeded_count, 1);
}

#[test]
fn memory_sink_collects_multiple_events() {
    let cfg = test_config();
    let mut metrics = Metrics::default();
    let mut sink = MemorySink::new();
    let input = r#"{"x":1}"#;
    for _ in 0..3 {
        let (_, event) = handle_detect_format(
            request(Tool::DetectFormat, input.len(), 1),
            TaskOutcome::Finished(detect_format(input, &cfg)),
            &cfg,
            &mut metrics,
        );
        metrics.record_log_event(&sink.record(event));
    }
    assert_eq!(sink.events().len(), 3);
}

#[test]
fn counters_agree_with_each_other() {
    let mut m = Metrics::default();
    m.record_failure(FailureKind::Rejected);
    m.record_failure(FailureKind::Busy);
    m.record_timeout();
    m.record_failure(FailureKind::Timeout);
    m.record_success_duration(9);
    m.record_success_duration(4);
    assert_eq!(m.pipeline_timeout_count, m.blocking_tasks_abandoned);
    assert_eq!(m.request_failed_count, 3);
    assert_eq!(m.input_rejected_count + m.server_busy_count, 2);
    assert_eq!((m.request_duration_us_max, m.request_duration_us_total), (9, 13));
}
