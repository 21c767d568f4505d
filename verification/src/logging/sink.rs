//! What a log sink reports about itself and about each event.

use vstd::prelude::*;

verus! {

/// Snapshot of logging health. Counters are monotonic for the lifetime of a
/// sink; queue fields are gauges, absent for sinks without a bounded queue.
#[derive(Debug)]
pub struct LogDiagnostics {
    /// Events dropped because the bounded queue was full.
    pub record_dropped_count: u64,
    /// Record attempts that failed because the writer is gone.
    pub record_failed_count: u64,
    /// Events skipped because serialization failed.
    pub serialization_failed_count: u64,
    /// Flush attempts that failed after accepting events.
    pub writer_failed_count: u64,
    /// Last writer or channel error, if any.
    pub last_error: Option<String>,
    /// Capacity of the bounded queue, if any.
    pub queue_capacity: Option<usize>,
    /// Currently queued commands, if a queue exists.
    pub queue_queued: Option<usize>,
    /// Currently available queue slots, if a queue exists.
    pub queue_available: Option<usize>,
}

impl LogDiagnostics {
    /// Whether nothing was counted and no queue exists.
    pub open spec fn is_blank(&self) -> bool {
        &&& self.record_dropped_count == 0
        &&& self.record_failed_count == 0
        &&& self.serialization_failed_count == 0
        &&& self.writer_failed_count == 0
        &&& self.last_error is None
        &&& self.queue_capacity is None
        &&& self.queue_queued is None
        &&& self.queue_available is None
    }
}

impl Default for LogDiagnostics {
    fn default() -> (r: Self)
        ensures
            r.is_blank(),
    {
        Self {
            record_dropped_count: 0,
            record_failed_count: 0,
            serialization_failed_count: 0,
            writer_failed_count: 0,
            last_error: None,
            queue_capacity: None,
            queue_queued: None,
            queue_available: None,
        }
    }
}

/// What happened to a single event handed to a sink.
#[derive(Debug, Clone, Copy, PartialEq, Eq, Structural)]
pub struct RecordOutcome {
    /// The sink took the event and will attempt to persist it.
    pub accepted: bool,
    /// The event was discarded because the bounded queue was full.
    pub dropped: bool,
}

impl RecordOutcome {
    /// The event was accepted for persistence.
    pub fn accepted() -> (r: Self)
        ensures
            r == (RecordOutcome { accepted: true, dropped: false }),
    {
        RecordOutcome { accepted: true, dropped: false }
    }

    /// The event was discarded due to backpressure.
    pub fn dropped() -> (r: Self)
        ensures
            r == (RecordOutcome { accepted: false, dropped: true }),
    {
        RecordOutcome { accepted: false, dropped: true }
    }
}

} // verus!
