//! A sink that keeps events in memory.

use vstd::prelude::*;
use crate::logging::error::LogError;
use crate::logging::event::LogEvent;
use crate::logging::sink::{LogDiagnostics, RecordOutcome};

verus! {

/// A sink that collects all events in order, for assertions on what was logged.
pub struct MemorySink {
    events: Vec<LogEvent>,
}

impl View for MemorySink {
    type V = Seq<LogEvent>;

    closed spec fn view(&self) -> Seq<LogEvent> {
        self.events@
    }
}

impl MemorySink {
    /// An empty sink.
    pub fn new() -> (r: Self)
        ensures
            r@ == Seq::<LogEvent>::empty(),
    {
        Self { events: Vec::new() }
    }

    /// Keep `event` behind those recorded before.
    pub fn record(&mut self, event: LogEvent) -> (r: Result<RecordOutcome, LogError>)
        ensures
            final(self)@ == old(self)@.push(event),
            r == Ok::<RecordOutcome, LogError>(RecordOutcome { accepted: true, dropped: false }),
    {
        self.events.push(event);
        Ok(RecordOutcome::accepted())
    }

    /// The recorded events.
    pub fn events(&self) -> (r: &Vec<LogEvent>)
        ensures
            r@ == self@,
    {
        &self.events
    }

    /// Nothing is written, so nothing can fail.
    pub fn flush(&self) -> (r: Result<(), LogError>)
        ensures
            r is Ok,
    {
        Ok(())
    }

    /// The number of recorded events as the queue gauge, nothing else.
    pub fn diagnostics(&self) -> (r: LogDiagnostics)
        ensures
            r.queue_queued == Some(self@.len() as usize),
            (LogDiagnostics { queue_queued: None, ..r }).is_blank(),
    {
        let mut r = LogDiagnostics::default();
        r.queue_queued = Some(self.events.len());
        r
    }

    /// Nothing is to be finalised.
    pub fn shutdown(self) -> (r: Result<(), LogError>)
        ensures
            r is Ok,
    {
        Ok(())
    }
}

impl Default for MemorySink {
    fn default() -> (r: Self)
        ensures
            r@ == Seq::<LogEvent>::empty(),
    {
        Self::new()
    }
}

} // verus!
