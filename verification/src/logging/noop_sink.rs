//! A sink that discards every event.

use vstd::prelude::*;
use crate::logging::error::LogError;
use crate::logging::event::LogEvent;
use crate::logging::sink::{LogDiagnostics, RecordOutcome};

verus! {

/// A sink that silently discards every event, for when logging is disabled.
pub struct NoopSink;

impl NoopSink {
    /// Discard `event`. Nothing is dropped under backpressure, so the event
    /// counts as accepted.
    pub fn record(&self, event: LogEvent) -> (r: Result<RecordOutcome, LogError>)
        ensures
            r == Ok::<RecordOutcome, LogError>(RecordOutcome { accepted: true, dropped: false }),
    {
        Ok(RecordOutcome::accepted())
    }

    /// Nothing is buffered, so nothing can fail.
    pub fn flush(&self) -> (r: Result<(), LogError>)
        ensures
            r is Ok,
    {
        Ok(())
    }

    /// No telemetry: zero counters and no queue.
    pub fn diagnostics(&self) -> (r: LogDiagnostics)
        ensures
            r.is_blank(),
    {
        LogDiagnostics::default()
    }

    /// Nothing is to be finalised.
    pub fn shutdown(self) -> (r: Result<(), LogError>)
        ensures
            r is Ok,
    {
        Ok(())
    }
}

} // verus!
