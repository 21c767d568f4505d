use toon_mcp::logging::calendar::day_partition_key;
use toon_mcp::logging::error::LogError;
use toon_mcp::logging::event::{default_outcome, LogEvent};
use toon_mcp::logging::jsonl_sink::{
    frame_lines, partition_dir, Counters, JsonlSinkConfig, OpenPartitions, PartitionOutcome,
    SendOutcome, Writer, WriterEvent, WriterStep, MAX_OPEN_DAY_PARTITIONS,
};
use toon_mcp::logging::memory_sink::MemorySink;
use toon_mcp::logging::noop_sink::NoopSink;
use toon_mcp::logging::sink::{LogDiagnostics, RecordOutcome};
use toon_mcp::ratio::Ratio;

const DAY: i64 = 86_400_000_000;
const START: i64 = 1_699_920_000_000_000;

fn make_event(id: u32, ts_us: i64) -> LogEvent {
    LogEvent {
        event_id: format!("evt-{id}"),
        ts_us,
        tool_name: "compress_content".to_string(),
        input_format: "json".to_string(),
        shape_class: "tabular".to_string(),
        input_bytes: 1000,
        output_bytes: 300,
        compressed: true,
        threshold_used: Ratio { digits: 85, places: 2 },
        duration_us: 1200,
        outcome: default_outcome(),
        pass_reason: None,
        client_hint: None,
    }
}

fn ids(events: &[LogEvent]) -> Vec<String> {
    events.iter().map(|e| e.event_id.clone()).collect()
}

fn io(message: &str) -> Option<LogError> {
    Some(LogError::IoError(message.to_string()))
}

#[test]
fn jsonl_sink_day_partition_key_correct() {
    assert_eq!(day_partition_key(1_699_920_000_000_000), "2023-11-14");
}

#[test]
fn day_partition_key_out_of_range_falls_back_to_epoch() {
    assert_eq!(day_partition_key(i64::MAX), "1970-01-01");
}

#[test]
fn partition_keys_at_the_edges() {
    assert_eq!(day_partition_key(0), "1970-01-01");
    assert_eq!(day_partition_key(-1), "1969-12-31");
    assert_eq!(day_partition_key(DAY - 1), "1970-01-01");
    assert_eq!(day_partition_key(DAY), "1970-01-02");
    assert_eq!(day_partition_key(951_782_400_000_000), "2000-02-29");
    assert_eq!(day_partition_key(253_402_207_200_000_000), "9999-12-30");
    assert_eq!(day_partition_key(253_402_207_200_000_001), "1970-01-01");
    assert_eq!(day_partition_key(-62_167_219_200_000_000), "0000-01-01");
    assert_eq!(day_partition_key(-377_705_023_201_000_001), "1970-01-01");
    assert_ne!(day_partition_key(-377_705_023_201_000_000), "1970-01-01");
}

#[test]
fn partition_keys_sort_by_day() {
    let mut previous = day_partition_key(START);
    assert_eq!(previous, day_partition_key(START + DAY - 1));
    for k in 1..800 {
        let key = day_partition_key(START + k * DAY);
        assert!(previous < key);
        previous = key;
    }
}

#[test]
fn a_full_buffer_triggers_a_flush() {
    let mut w = Writer::new(2);
    let step = w.on_event(WriterEvent::Record(make_event(1, START)));
    assert!(!step.flush && !step.exit);
    let step = w.on_event(WriterEvent::Record(make_event(2, START)));
    assert_eq!(
        step,
        WriterStep { flush: true, sync: false, acknowledge: false, report: false, exit: false }
    );
}

#[test]
fn commands_decide_durability_and_exit() {
    let mut w = Writer::new(10);
    assert_eq!(
        w.on_event(WriterEvent::Flush),
        WriterStep { flush: true, sync: true, acknowledge: true, report: false, exit: false }
    );
    assert_eq!(
        w.on_event(WriterEvent::Shutdown),
        WriterStep { flush: true, sync: true, acknowledge: true, report: true, exit: true }
    );
    assert_eq!(
        w.on_event(WriterEvent::Closed),
        WriterStep { flush: true, sync: false, acknowledge: false, report: false, exit: true }
    );
    assert!(!w.on_event(WriterEvent::Tick).flush);
    w.on_event(WriterEvent::Record(make_event(1, START)));
    let tick = w.on_event(WriterEvent::Tick);
    assert!(tick.flush && tick.report && !tick.sync && !tick.exit);
}

#[test]
fn events_spread_over_their_days() {
    let mut w = Writer::new(100);
    for (id, day) in [(1, 1), (2, 0), (3, 1), (4, 2), (5, 0)] {
        w.on_event(WriterEvent::Record(make_event(id, START + day * DAY)));
    }
    let partitions = w.take_partitions();
    let seen: Vec<(String, Vec<String>)> =
        partitions.iter().map(|p| (p.day.clone(), ids(&p.events))).collect();
    assert_eq!(
        seen,
        vec![
            ("2023-11-15".to_string(), vec!["evt-1".to_string(), "evt-3".to_string()]),
            ("2023-11-14".to_string(), vec!["evt-2".to_string(), "evt-5".to_string()]),
            ("2023-11-16".to_string(), vec!["evt-4".to_string()]),
        ]
    );
    assert!(w.take_partitions().is_empty());
}

#[test]
fn unwritten_events_are_retried_and_overflow_is_counted() {
    let mut w = Writer::new(3);
    let mut c = Counters::new();
    for id in 1..=5 {
        w.on_event(WriterEvent::Record(make_event(id, START + i64::from(id % 2) * DAY)));
    }
    let mut outcomes: Vec<PartitionOutcome> = Vec::new();
    for p in w.take_partitions() {
        let error = if p.day == "2023-11-15" { io("disk full") } else { None };
        outcomes.push(PartitionOutcome { events: p.events, error });
    }
    let err = w.settle(outcomes, &mut c).expect_err("one partition failed");
    assert_eq!(err.message(), "log I/O error: disk full");
    assert_eq!(c.writer_failed_count, 1);
    assert_eq!(c.record_dropped_count, 0);
    assert_eq!(c.last_error.as_deref(), Some("log I/O error: disk full"));
    let again = w.take_partitions();
    assert_eq!(ids(&again[0].events), vec!["evt-1", "evt-3", "evt-5"]);

    let mut outcomes: Vec<PartitionOutcome> = Vec::new();
    outcomes.push(PartitionOutcome {
        events: vec![make_event(1, START), make_event(2, START)],
        error: io("first"),
    });
    outcomes.push(PartitionOutcome {
        events: vec![make_event(3, START), make_event(4, START), make_event(5, START)],
        error: io("second"),
    });
    let err = w.settle(outcomes, &mut c).expect_err("both failed");
    assert_eq!(err.message(), "log I/O error: first");
    assert_eq!(c.record_dropped_count, 2);
    assert_eq!(c.writer_failed_count, 2);
    assert_eq!(ids(&w.take_partitions()[0].events), vec!["evt-1", "evt-2", "evt-3"]);
}

#[test]
fn a_flush_without_failures_changes_no_counter() {
    let mut w = Writer::new(3);
    let mut c = Counters::new();
    assert!(w.settle(Vec::new(), &mut c).is_ok());
    assert_eq!(c.writer_failed_count, 0);
    assert!(c.last_error.is_none());
}

#[test]
fn record_drops_when_channel_full() {
    let mut c = Counters::new();
    assert_eq!(c.note_record(SendOutcome::Sent).unwrap(), RecordOutcome::accepted());
    assert_eq!(c.note_record(SendOutcome::Full).unwrap(), RecordOutcome::dropped());
    assert_eq!(c.record_dropped_count, 1);
    assert_eq!(c.record_failed_count, 0);
    assert_eq!(c.last_error.as_deref(), Some("writer task channel is full"));
}

#[test]
fn record_failed_count_increments_when_channel_closed() {
    let mut c = Counters::new();
    match c.note_record(SendOutcome::Closed) {
        Err(LogError::ChannelSend(m)) => assert_eq!(m, "writer task channel is closed"),
        other => panic!("expected ChannelSend, got {other:?}"),
    }
    assert_eq!(c.record_failed_count, 1);
    assert_eq!(c.record_dropped_count, 0);
}

#[test]
fn diagnostics_snapshot_counters_and_gauges() {
    let mut c = Counters::new();
    c.note_serialization_failures(2);
    c.note_writer_failure("boom".to_string());
    let d = c.diagnostics(1000, 990);
    assert_eq!(d.serialization_failed_count, 2);
    assert_eq!(d.writer_failed_count, 1);
    assert_eq!(d.last_error.as_deref(), Some("boom"));
    assert_eq!(
        (d.queue_capacity, d.queue_queued, d.queue_available),
        (Some(1000), Some(10), Some(990))
    );
    assert_eq!(c.diagnostics(1, 2).queue_queued, Some(0));
}

#[test]
fn serialized_rows_become_lines() {
    let rows = vec![
        Some("{\"a\":1}".to_string()),
        None,
        Some(String::new()),
        Some("{\"b\":2}".to_string()),
    ];
    let (text, failed) = frame_lines(&rows);
    assert_eq!(text, "{\"a\":1}\n{\"b\":2}\n");
    assert_eq!(failed, 1);
    assert_eq!(frame_lines(&vec![None]), (String::new(), 1));
    assert_eq!(partition_dir("2023-11-14"), "day=2023-11-14");
}

#[test]
fn the_oldest_open_partition_is_evicted() {
    let mut open = OpenPartitions::new();
    let days: Vec<String> = (0..8).map(|k| day_partition_key(START + (k * 3 % 8) * DAY)).collect();
    for day in &days {
        assert_eq!(open.make_room(day), None);
        open.open(day);
    }
    assert_eq!(MAX_OPEN_DAY_PARTITIONS, 8);
    assert_eq!(open.make_room(&days[3]), None);
    let next = day_partition_key(START + 20 * DAY);
    assert_eq!(open.make_room(&next), Some("2023-11-14".to_string()));
    open.open(&next);
    assert!(open.is_open(&next));
    assert!(!open.is_open("2023-11-14"));
    assert_eq!(open.make_room("2023-11-14"), Some("2023-11-15".to_string()));
}

#[test]
fn memory_sink_keeps_events_in_order() {
    let mut sink = MemorySink::new();
    assert_eq!(sink.record(make_event(1, 0)).unwrap(), RecordOutcome::accepted());
    sink.record(make_event(2, 0)).unwrap();
    assert_eq!(ids(sink.events()), vec!["evt-1", "evt-2"]);
    assert_eq!(sink.diagnostics().queue_queued, Some(2));
    assert!(sink.flush().is_ok());
    assert!(sink.shutdown().is_ok());
}

#[test]
fn noop_sink_reports_no_telemetry() {
    let sink = NoopSink;
    let outcome = sink.record(make_event(1, 0)).unwrap();
    assert!(outcome.accepted && !outcome.dropped);
    let d: LogDiagnostics = sink.diagnostics();
    assert_eq!(d.record_dropped_count, 0);
    assert_eq!(d.queue_capacity, None);
    assert_eq!(d.queue_queued, None);
    assert!(sink.flush().is_ok());
    assert!(sink.shutdown().is_ok());
}

#[test]
fn sink_defaults_and_messages() {
    let c = JsonlSinkConfig::default();
    assert_eq!(c.log_dir, "data/logs");
    assert_eq!(c.buffer_size, 1000);
    assert_eq!(c.flush_interval_secs, 300);
    assert_eq!(
        LogError::ShutdownAck("gone".to_string()).message(),
        "shutdown acknowledgement not received: gone"
    );
    assert_eq!(
        LogError::ChannelSend("closed".to_string()).message(),
        "log channel send failed: closed"
    );
}
