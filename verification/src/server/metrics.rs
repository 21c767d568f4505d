//! Process-lifetime counters of the request handlers.

use vstd::prelude::*;
use crate::logging::error::LogError;
use crate::logging::sink::RecordOutcome;

verus! {

/// How a failed request ended.
#[derive(Debug, Clone, Copy, PartialEq, Eq, Structural)]
pub enum FailureKind {
    /// The input was refused before processing.
    Rejected,
    /// No concurrency permit became available.
    Busy,
    /// The pipeline did not finish in time.
    Timeout,
    /// An internal failure.
    Failed,
}

/// The outcome that the log records for a failure.
pub open spec fn failure_name(kind: FailureKind) -> Seq<char> {
    match kind {
        FailureKind::Rejected => "rejected"@,
        FailureKind::Busy => "busy"@,
        FailureKind::Timeout => "timeout"@,
        FailureKind::Failed => "failed"@,
    }
}

impl FailureKind {
    /// The outcome that the log records.
    pub fn as_str(self) -> (r: &'static str)
        ensures
            r@ == failure_name(self),
    {
        match self {
            FailureKind::Rejected => "rejected",
            FailureKind::Busy => "busy",
            FailureKind::Timeout => "timeout",
            FailureKind::Failed => "failed",
        }
    }
}

/// Counters and gauges. Sums wrap on overflow; they feed gauges, not control
/// flow.
#[derive(Debug, Clone, Copy, PartialEq, Eq, Structural)]
pub struct Metrics {
    /// Log records that failed.
    pub log_record_failed_count: u64,
    /// Log records that were dropped under backpressure.
    pub log_record_dropped_count: u64,
    /// Pipeline timeouts.
    pub pipeline_timeout_count: u64,
    /// Pipeline tasks left running after a timeout.
    pub blocking_tasks_abandoned: u64,
    /// Requests that returned an error.
    pub request_failed_count: u64,
    /// Inputs refused before processing.
    pub input_rejected_count: u64,
    /// Requests refused for want of a permit.
    pub server_busy_count: u64,
    /// Requests that succeeded.
    pub request_succeeded_count: u64,
    /// Sum of the durations of successful requests, in microseconds.
    pub request_duration_us_total: u64,
    /// Longest duration of a successful request, in microseconds.
    pub request_duration_us_max: u64,
}

/// All counters at zero.
pub open spec fn no_metrics() -> Metrics {
    Metrics {
        log_record_failed_count: 0,
        log_record_dropped_count: 0,
        pipeline_timeout_count: 0,
        blocking_tasks_abandoned: 0,
        request_failed_count: 0,
        input_rejected_count: 0,
        server_busy_count: 0,
        request_succeeded_count: 0,
        request_duration_us_total: 0,
        request_duration_us_max: 0,
    }
}

/// `a + b` modulo 2^64.
pub open spec fn wrapped(a: u64, b: u64) -> u64 {
    ((a + b) % 0x1_0000_0000_0000_0000) as u64
}

/// The counters after a successful request.
pub open spec fn after_success(m: Metrics, duration_us: u64) -> Metrics {
    Metrics {
        request_succeeded_count: wrapped(m.request_succeeded_count, 1),
        request_duration_us_total: wrapped(m.request_duration_us_total, duration_us),
        request_duration_us_max: if duration_us > m.request_duration_us_max {
            duration_us
        } else {
            m.request_duration_us_max
        },
        ..m
    }
}

/// The counters after a failed request.
pub open spec fn after_failure(m: Metrics, kind: FailureKind) -> Metrics {
    Metrics {
        request_failed_count: wrapped(m.request_failed_count, 1),
        input_rejected_count: if kind == FailureKind::Rejected {
            wrapped(m.input_rejected_count, 1)
        } else {
            m.input_rejected_count
        },
        server_busy_count: if kind == FailureKind::Busy {
            wrapped(m.server_busy_count, 1)
        } else {
            m.server_busy_count
        },
        ..m
    }
}

/// The counters after a pipeline timeout.
pub open spec fn after_timeout(m: Metrics) -> Metrics {
    Metrics {
        pipeline_timeout_count: wrapped(m.pipeline_timeout_count, 1),
        blocking_tasks_abandoned: wrapped(m.blocking_tasks_abandoned, 1),
        ..m
    }
}

/// The counters after an attempt to log an event. A log failure never turns a
/// successful response into an error; it is only counted.
pub open spec fn after_log(m: Metrics, outcome: Result<RecordOutcome, LogError>) -> Metrics {
    match outcome {
        Ok(recorded) => if recorded.dropped {
            Metrics { log_record_dropped_count: wrapped(m.log_record_dropped_count, 1), ..m }
        } else {
            m
        },
        Err(_) => Metrics {
            log_record_failed_count: wrapped(m.log_record_failed_count, 1),
            ..m
        },
    }
}

/// Whether the counters agree with each other: every timeout leaves a task
/// behind, refusals are failures, and the longest request is part of the total.
pub open spec fn consistent(m: Metrics) -> bool {
    &&& m.pipeline_timeout_count == m.blocking_tasks_abandoned
    &&& m.input_rejected_count + m.server_busy_count <= m.request_failed_count
    &&& m.request_duration_us_max <= m.request_duration_us_total
    &&& m.request_succeeded_count == 0 ==> m.request_duration_us_total == 0
}

/// Whether no counter of `m` exceeds that of `n`.
pub open spec fn no_greater(m: Metrics, n: Metrics) -> bool {
    &&& m.log_record_failed_count <= n.log_record_failed_count
    &&& m.log_record_dropped_count <= n.log_record_dropped_count
    &&& m.pipeline_timeout_count <= n.pipeline_timeout_count
    &&& m.blocking_tasks_abandoned <= n.blocking_tasks_abandoned
    &&& m.request_failed_count <= n.request_failed_count
    &&& m.input_rejected_count <= n.input_rejected_count
    &&& m.server_busy_count <= n.server_busy_count
    &&& m.request_succeeded_count <= n.request_succeeded_count
    &&& m.request_duration_us_total <= n.request_duration_us_total
    &&& m.request_duration_us_max <= n.request_duration_us_max
}

/// Whether the counters can take one more event of this duration without
/// wrapping.
pub open spec fn has_room(m: Metrics, duration_us: u64) -> bool {
    &&& m.log_record_failed_count < u64::MAX
    &&& m.log_record_dropped_count < u64::MAX
    &&& m.pipeline_timeout_count < u64::MAX
    &&& m.blocking_tasks_abandoned < u64::MAX
    &&& m.request_failed_count < u64::MAX
    &&& m.request_succeeded_count < u64::MAX
    &&& m.request_duration_us_total + duration_us <= u64::MAX
}

impl Default for Metrics {
    fn default() -> (r: Self)
        ensures
            r == no_metrics(),
    {
        Self {
            log_record_failed_count: 0,
            log_record_dropped_count: 0,
            pipeline_timeout_count: 0,
            blocking_tasks_abandoned: 0,
            request_failed_count: 0,
            input_rejected_count: 0,
            server_busy_count: 0,
            request_succeeded_count: 0,
            request_duration_us_total: 0,
            request_duration_us_max: 0,
        }
    }
}

impl Metrics {
    /// Count a successful request.
    pub fn record_success_duration(&mut self, duration_us: u64)
        ensures
            *final(self) == after_success(*old(self), duration_us),
    {
        self.request_succeeded_count = self.request_succeeded_count.wrapping_add(1);
        self.request_duration_us_total = self.request_duration_us_total.wrapping_add(duration_us);
        if duration_us > self.request_duration_us_max {
            self.request_duration_us_max = duration_us;
        }
    }

    /// Count a failed request.
    pub fn record_failure(&mut self, kind: FailureKind)
        ensures
            *final(self) == after_failure(*old(self), kind),
    {
        self.request_failed_count = self.request_failed_count.wrapping_add(1);
        match kind {
            FailureKind::Rejected => {
                self.input_rejected_count = self.input_rejected_count.wrapping_add(1);
            },
            FailureKind::Busy => {
                self.server_busy_count = self.server_busy_count.wrapping_add(1);
            },
            _ => {},
        }
    }

    /// Count a pipeline timeout and the task that it leaves behind.
    pub fn record_timeout(&mut self)
        ensures
            *final(self) == after_timeout(*old(self)),
    {
        self.pipeline_timeout_count = self.pipeline_timeout_count.wrapping_add(1);
        self.blocking_tasks_abandoned = self.blocking_tasks_abandoned.wrapping_add(1);
    }

    /// Count what became of a log event. Drops are attributed to the request
    /// that caused them, from the sink's own answer.
    pub fn record_log_event(&mut self, outcome: &Result<RecordOutcome, LogError>)
        ensures
            *final(self) == after_log(*old(self), *outcome),
    {
        match outcome {
            Ok(recorded) => {
                if recorded.dropped {
                    self.log_record_dropped_count = self.log_record_dropped_count.wrapping_add(1);
                }
            },
            Err(_) => {
                self.log_record_failed_count = self.log_record_failed_count.wrapping_add(1);
            },
        }
    }
}

} // verus!
