use std::collections::BTreeMap;

use toon_mcp::logging::calendar::day_partition_key;
use toon_mcp::logging::error::LogError;
use toon_mcp::logging::event::LogEvent;
use toon_mcp::logging::jsonl_sink::{
    frame_lines, partition_dir, Counters, OpenPartitions, PartitionOutcome, SendOutcome, Writer,
    WriterEvent, MAX_OPEN_DAY_PARTITIONS,
};
use toon_mcp::ratio::Ratio;

fn make_event(n: u64) -> LogEvent {
    LogEvent {
        event_id: format!("event-{n}"),
        ts_us: 1_700_000_000_000_000,
        tool_name: "compress_content".to_string(),
        input_format: "jsonl".to_string(),
        shape_class: "tabular".to_string(),
        input_bytes: n * 100,
        output_bytes: n * 44,
        compressed: true,
        threshold_used: Ratio { digits: 85, places: 2 },
        duration_us: n * 10,
        outcome: "ok".to_string(),
        pass_reason: None,
        client_hint: Some("test".to_string()),
    }
}

/// A sink whose partition files are kept in memory.
struct Sink {
    writer: Writer,
    counters: Counters,
    open: OpenPartitions,
    handles: Vec<String>,
    opened: usize,
    files: BTreeMap<String, String>,
    writable: bool,
}

impl Sink {
    fn new(buffer_size: usize) -> Self {
        Sink {
            writer: Writer::new(buffer_size),
            counters: Counters::new(),
            open: OpenPartitions::new(),
            handles: Vec::new(),
            opened: 0,
            files: BTreeMap::new(),
            writable: true,
        }
    }

    fn record(&mut self, event: LogEvent) {
        self.counters.note_record(SendOutcome::Sent).expect("accepted");
        let step = self.writer.on_event(WriterEvent::Record(event));
        if step.flush {
            let _ = self.flush_pending();
        }
    }

    fn flush(&mut self) -> Result<(), LogError> {
        let step = self.writer.on_event(WriterEvent::Flush);
        assert!(step.flush && step.sync && step.acknowledge && !step.exit);
        self.flush_pending()
    }

    fn shutdown(&mut self) -> Result<(), LogError> {
        let step = self.writer.on_event(WriterEvent::Shutdown);
        assert!(step.flush && step.sync && step.acknowledge && step.report && step.exit);
        self.flush_pending()
    }

    fn flush_pending(&mut self) -> Result<(), LogError> {
        let mut outcomes = Vec::new();
        for partition in self.writer.take_partitions() {
            let error = self.write(&partition.day, &partition.events).err();
            outcomes.push(PartitionOutcome { events: partition.events, error });
        }
        self.writer.settle(outcomes, &mut self.counters)
    }

    fn write(&mut self, day: &str, events: &[LogEvent]) -> Result<(), LogError> {
        let rows: Vec<Option<String>> = events.iter().map(|e| Some(e.event_id.clone())).collect();
        let (lines, failed) = frame_lines(&rows);
        self.counters.note_serialization_failures(failed);
        if !self.writable {
            return Err(LogError::IoError("not a directory".to_string()));
        }
        if let Some(closed) = self.open.make_room(day) {
            self.handles.retain(|h| *h != closed);
        }
        if !self.open.is_open(day) {
            self.open.open(day);
            self.handles.push(day.to_string());
            self.opened += 1;
        }
        assert!(self.handles.len() <= MAX_OPEN_DAY_PARTITIONS);
        let path = format!("{}/events.jsonl", partition_dir(day));
        self.files.entry(path).or_default().push_str(&lines);
        Ok(())
    }

    fn lines(&self, day: &str) -> Vec<String> {
        match self.files.get(&format!("day={day}/events.jsonl")) {
            Some(text) => text.lines().map(str::to_owned).collect(),
            None => Vec::new(),
        }
    }
}

#[test]
fn jsonl_sink_flushes_to_jsonl() {
    let mut sink = Sink::new(100);
    for i in 1..=5 {
        sink.record(make_event(i));
    }
    assert!(sink.files.is_empty());
    sink.shutdown().expect("shutdown succeeds");
    assert_eq!(sink.lines("2023-11-14").len(), 5);
}

#[test]
fn flush_is_acknowledged() {
    let mut sink = Sink::new(1000);
    sink.record(make_event(1));
    sink.flush().expect("flush succeeds");
    assert_eq!(sink.lines("2023-11-14"), vec!["event-1"]);
    sink.shutdown().expect("shutdown succeeds");
    assert_eq!(sink.lines("2023-11-14"), vec!["event-1"]);
}

#[test]
fn file_handle_reused_across_flushes() {
    let mut sink = Sink::new(1000);
    sink.record(make_event(1));
    sink.flush().expect("flush 1 succeeds");
    sink.record(make_event(2));
    sink.flush().expect("flush 2 succeeds");
    sink.shutdown().expect("shutdown succeeds");
    assert_eq!(sink.lines("2023-11-14").len(), 2);
    assert_eq!(sink.opened, 1);
}

#[test]
fn parquet_sink_day_partition_key_correct() {
    assert_eq!(day_partition_key(1_699_920_000_000_000), "2023-11-14");
}

#[test]
fn handle_map_eviction_keeps_all_partitions_correct() {
    let mut sink = Sink::new(1000);
    let micros_per_day: i64 = 86_400 * 1_000_000;
    let days = MAX_OPEN_DAY_PARTITIONS + 4;
    let base_us: i64 = 1_700_006_400_000_000;
    for d in 0..days {
        let mut e = make_event(d as u64);
        e.ts_us = base_us + (d as i64) * micros_per_day;
        sink.record(e);
    }
    sink.flush().expect("flush succeeds");
    let mut reopen = make_event(999);
    reopen.ts_us = base_us;
    sink.record(reopen);
    sink.flush().expect("flush succeeds");
    sink.shutdown().expect("shutdown succeeds");
    for d in 0..days {
        let key = day_partition_key(base_us + (d as i64) * micros_per_day);
        let expected = if d == 0 { 2 } else { 1 };
        assert_eq!(sink.lines(&key).len(), expected, "partition {key}");
    }
    assert_eq!(sink.opened, days + 1);
}

#[test]
fn day_rollover_writes_to_separate_partitions() {
    let mut sink = Sink::new(1000);
    let end_of_day_us: i64 = 1_700_006_399_999_999;
    let start_of_next_day_us: i64 = 1_700_006_400_000_000;
    let mut e1 = make_event(1);
    e1.ts_us = end_of_day_us;
    let mut e2 = make_event(2);
    e2.ts_us = start_of_next_day_us;
    let mut e3 = make_event(3);
    e3.ts_us = end_of_day_us - 1_000_000;
    sink.record(e1);
    sink.record(e2);
    sink.flush().expect("flush 1");
    sink.record(e3);
    sink.flush().expect("flush 2");
    sink.shutdown().expect("shutdown");
    assert_eq!(sink.lines("2023-11-14"), vec!["event-1", "event-3"]);
    assert_eq!(sink.lines("2023-11-15"), vec!["event-2"]);
    assert_eq!(sink.opened, 2);
}

#[test]
fn serialization_failed_count_starts_zero() {
    let mut sink = Sink::new(100);
    sink.record(make_event(1));
    sink.flush().expect("flush");
    assert_eq!(sink.counters.serialization_failed_count, 0);
    sink.shutdown().expect("shutdown");
}

#[test]
fn events_survive_failed_flush_and_are_requeued() {
    let mut sink = Sink::new(100);
    sink.record(make_event(1));
    sink.writable = false;
    assert!(sink.flush().is_err());
    sink.writable = true;
    sink.flush().expect("second flush succeeds");
    sink.shutdown().expect("shutdown succeeds");
    assert_eq!(sink.lines("2023-11-14").len(), 1);
}

#[test]
fn multi_partition_flush_failure_preserves_all_partitions() {
    let mut sink = Sink::new(100);
    let mut day_a = make_event(1);
    day_a.ts_us = 1_700_000_000_000_000;
    let mut day_b = make_event(2);
    day_b.ts_us = 1_700_006_400_000_000;
    sink.record(day_a);
    sink.record(day_b);
    sink.writable = false;
    assert!(sink.flush().is_err());
    sink.writable = true;
    sink.flush().expect("second flush succeeds");
    sink.shutdown().expect("shutdown succeeds");
    for day in ["2023-11-14", "2023-11-15"] {
        assert_eq!(sink.lines(day).len(), 1, "partition {day} has its event");
    }
}

#[test]
fn diagnostics_reports_writer_failures() {
    let mut sink = Sink::new(100);
    sink.record(make_event(1));
    sink.writable = false;
    assert!(sink.flush().is_err());
    let diagnostics = sink.counters.diagnostics(100, 100);
    assert_eq!(diagnostics.writer_failed_count, 1);
    assert!(diagnostics.last_error.is_some());
}

#[test]
fn periodic_summary_log_does_not_panic() {
    let mut sink = Sink::new(100);
    let idle = sink.writer.on_event(WriterEvent::Tick);
    assert!(idle.report && !idle.flush);
    sink.record(make_event(1));
    let busy = sink.writer.on_event(WriterEvent::Tick);
    assert!(busy.report && busy.flush && !busy.sync && !busy.exit);
    sink.flush_pending().expect("flush succeeds");
    assert_eq!(sink.lines("2023-11-14").len(), 1);
    sink.shutdown().expect("shutdown succeeds");
}
