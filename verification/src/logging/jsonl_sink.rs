//! The decisions of the background writer: when to flush, how events spread
//! over day partitions, what is retried after a failed write, and which
//! partition files stay open.

use vstd::prelude::*;
use crate::logging::calendar::{day_partition_key, partition_key};
use crate::logging::error::{log_error_message, LogError};
use crate::logging::event::LogEvent;
use crate::logging::sink::{LogDiagnostics, RecordOutcome};
use crate::sequence::{lemma_filter_empty, lemma_filter_push};
use crate::text::{
    comes_before, lemma_not_before_itself, lemma_precedes_transitive, precedes, same_text, texts,
};

verus! {

/// Configuration of the JSONL sink. Events go to
/// `log_dir/day=YYYY-MM-DD/events.jsonl`.
#[derive(Debug)]
pub struct JsonlSinkConfig {
    /// Root directory of the partitioned log files.
    pub log_dir: String,
    /// Number of events to buffer before flushing to disk.
    pub buffer_size: usize,
    /// Seconds between periodic flushes.
    pub flush_interval_secs: u64,
}

impl Default for JsonlSinkConfig {
    fn default() -> (r: Self)
        ensures
            r.log_dir@ == "data/logs"@,
            r.buffer_size == 1000,
            r.flush_interval_secs == 300,
    {
        Self { log_dir: "data/logs".to_owned(), buffer_size: 1000, flush_interval_secs: 300 }
    }
}

impl JsonlSinkConfig {
    /// A copy of the configuration.
    pub fn duplicate(&self) -> (r: Self)
        ensures
            r.log_dir@ == self.log_dir@,
            r.buffer_size == self.buffer_size,
            r.flush_interval_secs == self.flush_interval_secs,
    {
        Self {
            log_dir: self.log_dir.clone(),
            buffer_size: self.buffer_size,
            flush_interval_secs: self.flush_interval_secs,
        }
    }
}

/// Largest number of day-partition files kept open at once.
pub const MAX_OPEN_DAY_PARTITIONS: usize = 8;

// ---------------------------------------------------------------------------
// Counters
// ---------------------------------------------------------------------------

/// Health counters of a sink. They wrap on overflow and feed gauges only.
#[derive(Debug)]
pub struct Counters {
    /// Events skipped because serialization failed.
    pub serialization_failed_count: u64,
    /// Record attempts that failed because the writer is gone.
    pub record_failed_count: u64,
    /// Events dropped for want of buffer space.
    pub record_dropped_count: u64,
    /// Flush attempts that failed.
    pub writer_failed_count: u64,
    /// Last writer or channel error, if any.
    pub last_error: Option<String>,
}

/// What a bounded channel answers to an attempt to send.
#[derive(Debug, Clone, Copy, PartialEq, Eq, Structural)]
pub enum SendOutcome {
    /// The command is queued.
    Sent,
    /// The queue is full.
    Full,
    /// The writer is gone.
    Closed,
}

impl Counters {
    /// Counters at zero.
    pub fn new() -> (r: Self)
        ensures
            r.serialization_failed_count == 0,
            r.record_failed_count == 0,
            r.record_dropped_count == 0,
            r.writer_failed_count == 0,
            r.last_error is None,
    {
        Self {
            serialization_failed_count: 0,
            record_failed_count: 0,
            record_dropped_count: 0,
            writer_failed_count: 0,
            last_error: None,
        }
    }

    /// Whether only the record counters and the last error may differ.
    pub open spec fn same_writer_counts(&self, other: &Counters) -> bool {
        &&& self.serialization_failed_count == other.serialization_failed_count
        &&& self.writer_failed_count == other.writer_failed_count
    }

    /// Remember the last error.
    pub fn set_last_error(&mut self, message: String)
        ensures
            final(self).last_error == Some(message),
            final(self).same_writer_counts(old(self)),
            final(self).record_failed_count == old(self).record_failed_count,
            final(self).record_dropped_count == old(self).record_dropped_count,
    {
        self.last_error = Some(message);
    }

    /// Account for an attempt to queue an event. A full queue drops the event
    /// and says so in the outcome; a closed one is an error.
    pub fn note_record(&mut self, sent: SendOutcome) -> (r: Result<RecordOutcome, LogError>)
        ensures
            final(self).same_writer_counts(old(self)),
            match sent {
                SendOutcome::Sent => {
                    &&& r == Ok::<RecordOutcome, LogError>(
                        RecordOutcome { accepted: true, dropped: false },
                    )
                    &&& *final(self) == *old(self)
                },
                SendOutcome::Full => {
                    &&& r == Ok::<RecordOutcome, LogError>(
                        RecordOutcome { accepted: false, dropped: true },
                    )
                    &&& final(self).record_dropped_count
                        == (old(self).record_dropped_count + 1) % 0x1_0000_0000_0000_0000
                    &&& final(self).record_failed_count == old(self).record_failed_count
                    &&& (final(self).last_error matches Some(m) && m@
                        == "writer task channel is full"@)
                },
                SendOutcome::Closed => {
                    &&& (r matches Err(LogError::ChannelSend(m)) && m@
                        == "writer task channel is closed"@)
                    &&& final(self).record_failed_count
                        == (old(self).record_failed_count + 1) % 0x1_0000_0000_0000_0000
                    &&& final(self).record_dropped_count == old(self).record_dropped_count
                    &&& (final(self).last_error matches Some(m) && m@
                        == "writer task channel is closed"@)
                },
            },
    {
        match sent {
            SendOutcome::Sent => Ok(RecordOutcome::accepted()),
            SendOutcome::Full => {
                self.record_dropped_count = self.record_dropped_count.wrapping_add(1);
                self.set_last_error("writer task channel is full".to_owned());
                Ok(RecordOutcome::dropped())
            },
            SendOutcome::Closed => {
                self.record_failed_count = self.record_failed_count.wrapping_add(1);
                self.set_last_error("writer task channel is closed".to_owned());
                Err(LogError::ChannelSend("writer task channel is closed".to_owned()))
            },
        }
    }

    /// Account for events that could not be serialized.
    pub fn note_serialization_failures(&mut self, failed: u64)
        ensures
            final(self).serialization_failed_count == (old(self).serialization_failed_count
                + failed) % 0x1_0000_0000_0000_0000,
            final(self).record_failed_count == old(self).record_failed_count,
            final(self).record_dropped_count == old(self).record_dropped_count,
            final(self).writer_failed_count == old(self).writer_failed_count,
            final(self).last_error == old(self).last_error,
    {
        self.serialization_failed_count = self.serialization_failed_count.wrapping_add(failed);
    }

    /// Account for a failed flush.
    pub fn note_writer_failure(&mut self, message: String)
        ensures
            final(self).writer_failed_count == (old(self).writer_failed_count + 1)
                % 0x1_0000_0000_0000_0000,
            final(self).last_error == Some(message),
            final(self).serialization_failed_count == old(self).serialization_failed_count,
            final(self).record_failed_count == old(self).record_failed_count,
            final(self).record_dropped_count == old(self).record_dropped_count,
    {
        self.writer_failed_count = self.writer_failed_count.wrapping_add(1);
        self.last_error = Some(message);
    }

    /// A snapshot for a queue of this capacity with this many free slots.
    pub fn diagnostics(&self, capacity: usize, available: usize) -> (r: LogDiagnostics)
        ensures
            r.record_dropped_count == self.record_dropped_count,
            r.record_failed_count == self.record_failed_count,
            r.serialization_failed_count == self.serialization_failed_count,
            r.writer_failed_count == self.writer_failed_count,
            r.last_error == self.last_error,
            r.queue_capacity == Some(capacity),
            r.queue_available == Some(available),
            r.queue_queued == Some(
                if available <= capacity {
                    (capacity - available) as usize
                } else {
                    0
                },
            ),
    {
        LogDiagnostics {
            record_dropped_count: self.record_dropped_count,
            record_failed_count: self.record_failed_count,
            serialization_failed_count: self.serialization_failed_count,
            writer_failed_count: self.writer_failed_count,
            last_error: match &self.last_error {
                Some(m) => Some(m.clone()),
                None => None,
            },
            queue_capacity: Some(capacity),
            queue_queued: Some(capacity.saturating_sub(available)),
            queue_available: Some(available),
        }
    }
}

// ---------------------------------------------------------------------------
// The writer
// ---------------------------------------------------------------------------

/// What the writer waits for.
#[derive(Debug)]
pub enum WriterEvent {
    /// An event is to be logged.
    Record(LogEvent),
    /// A caller wants buffered events on disk.
    Flush,
    /// The sink is to shut down.
    Shutdown,
    /// Every sender is gone.
    Closed,
    /// The flush interval elapsed.
    Tick,
}

/// What the writer does next. A flush writes all buffered events.
#[derive(Debug, Clone, Copy, PartialEq, Eq, Structural)]
pub struct WriterStep {
    /// Write the buffered events.
    pub flush: bool,
    /// Make the writes durable before going on.
    pub sync: bool,
    /// Send the result of the flush to the caller.
    pub acknowledge: bool,
    /// Report the counters.
    pub report: bool,
    /// Stop after that.
    pub exit: bool,
}

/// The step that an event calls for, given whether the buffer is full or empty
/// once the event is taken in.
pub open spec fn step_for(event: WriterEvent, full: bool, empty: bool) -> WriterStep {
    match event {
        WriterEvent::Record(_) => WriterStep {
            flush: full,
            sync: false,
            acknowledge: false,
            report: false,
            exit: false,
        },
        WriterEvent::Flush => WriterStep {
            flush: true,
            sync: true,
            acknowledge: true,
            report: false,
            exit: false,
        },
        WriterEvent::Shutdown => WriterStep {
            flush: true,
            sync: true,
            acknowledge: true,
            report: true,
            exit: true,
        },
        WriterEvent::Closed => WriterStep {
            flush: true,
            sync: false,
            acknowledge: false,
            report: false,
            exit: true,
        },
        WriterEvent::Tick => WriterStep {
            flush: !empty,
            sync: false,
            acknowledge: false,
            report: true,
            exit: false,
        },
    }
}

/// The events of one day, in the order they were recorded.
#[derive(Debug)]
pub struct Partition {
    /// The day, `YYYY-MM-DD`.
    pub day: String,
    /// The events.
    pub events: Vec<LogEvent>,
}

/// How the write of one partition ended.
#[derive(Debug)]
pub struct PartitionOutcome {
    /// The partition's events.
    pub events: Vec<LogEvent>,
    /// Why they were not written, if so.
    pub error: Option<LogError>,
}

/// The predicate that selects the events of a day.
pub open spec fn on_day(day: Seq<char>) -> spec_fn(LogEvent) -> bool {
    |e: LogEvent| partition_key(e.ts_us) == day
}

/// Whether some partition is for `day`.
pub open spec fn has_day(partitions: Seq<Partition>, day: Seq<char>) -> bool {
    exists|i: int| 0 <= i < partitions.len() && (#[trigger] partitions[i]).day@ == day
}

/// Whether `partitions` spreads `events` over their days: one partition per
/// day, each with exactly the events of that day in order, none empty, and none
/// of the events left out.
pub open spec fn spreads(partitions: Seq<Partition>, events: Seq<LogEvent>) -> bool {
    &&& forall|i: int, j: int|
        0 <= i < j < partitions.len() ==> (#[trigger] partitions[i]).day@ != (
        #[trigger] partitions[j]).day@
    &&& forall|i: int|
        0 <= i < partitions.len() ==> (#[trigger] partitions[i]).events@ == events.filter(
            on_day(partitions[i].day@),
        ) && partitions[i].events@.len() > 0
    &&& forall|k: int|
        0 <= k < events.len() ==> has_day(partitions, partition_key((#[trigger] events[k]).ts_us))
}

/// The events of the partitions that were not written, in order.
pub open spec fn unwritten(outcomes: Seq<PartitionOutcome>) -> Seq<LogEvent>
    decreases outcomes.len(),
{
    if outcomes.len() == 0 {
        Seq::empty()
    } else {
        let last = outcomes.last();
        unwritten(outcomes.drop_last()) + (if last.error is Some {
            last.events@
        } else {
            Seq::empty()
        })
    }
}

/// The first error among the outcomes.
pub open spec fn first_error(outcomes: Seq<PartitionOutcome>) -> Option<LogError>
    decreases outcomes.len(),
{
    if outcomes.len() == 0 {
        None
    } else {
        match first_error(outcomes.drop_last()) {
            Some(e) => Some(e),
            None => outcomes.last().error,
        }
    }
}

/// How many of `waiting` events fit behind `pending` ones.
pub open spec fn room_for(waiting: nat, pending: nat, buffer_size: nat) -> nat {
    let room = if pending <= buffer_size {
        (buffer_size - pending) as nat
    } else {
        0
    };
    if waiting <= room {
        waiting
    } else {
        room
    }
}

/// The state of the background writer: the events not yet written.
pub struct Writer {
    pending: Vec<LogEvent>,
    buffer_size: usize,
}

impl View for Writer {
    type V = Seq<LogEvent>;

    closed spec fn view(&self) -> Seq<LogEvent> {
        self.pending@
    }
}

impl Writer {
    /// The number of events that trigger a flush, and the bound on retries.
    pub closed spec fn capacity(&self) -> nat {
        self.buffer_size as nat
    }

    /// A writer with an empty buffer.
    pub fn new(buffer_size: usize) -> (r: Self)
        ensures
            r@ == Seq::<LogEvent>::empty(),
            r.capacity() == buffer_size,
    {
        Self { pending: Vec::new(), buffer_size }
    }

    /// Take in an event and decide what to do.
    pub fn on_event(&mut self, event: WriterEvent) -> (r: WriterStep)
        ensures
            final(self).capacity() == old(self).capacity(),
            final(self)@ == (match event {
                WriterEvent::Record(e) => old(self)@.push(e),
                _ => old(self)@,
            }),
            r == step_for(
                event,
                final(self)@.len() >= final(self).capacity(),
                final(self)@.len() == 0,
            ),
    {
        match event {
            WriterEvent::Record(e) => {
                self.pending.push(e);
                WriterStep {
                    flush: self.pending.len() >= self.buffer_size,
                    sync: false,
                    acknowledge: false,
                    report: false,
                    exit: false,
                }
            },
            WriterEvent::Flush => WriterStep {
                flush: true,
                sync: true,
                acknowledge: true,
                report: false,
                exit: false,
            },
            WriterEvent::Shutdown => WriterStep {
                flush: true,
                sync: true,
                acknowledge: true,
                report: true,
                exit: true,
            },
            WriterEvent::Closed => WriterStep {
                flush: true,
                sync: false,
                acknowledge: false,
                report: false,
                exit: true,
            },
            WriterEvent::Tick => WriterStep {
                flush: self.pending.len() > 0,
                sync: false,
                acknowledge: false,
                report: true,
                exit: false,
            },
        }
    }

    /// Empty the buffer into day partitions.
    pub fn take_partitions(&mut self) -> (r: Vec<Partition>)
        ensures
            final(self)@ == Seq::<LogEvent>::empty(),
            final(self).capacity() == old(self).capacity(),
            spreads(r@, old(self)@),
    {
        let mut events: Vec<LogEvent> = Vec::new();
        std::mem::swap(&mut self.pending, &mut events);
        let ghost all = events@;
        let mut partitions: Vec<Partition> = Vec::new();
        let ghost mut done: Seq<LogEvent> = Seq::empty();
        for event in it: events
            invariant
                it.seq() == all,
                done == all.take(it.index()),
                spreads(partitions@, done),
        {
            let ghost before = done;
            proof {
                assert(all.take(it.index() + 1) =~= done.push(event));
                done = done.push(event);
            }
            place(&mut partitions, event, Ghost(before));
        }
        assert(done =~= all);
        partitions
    }

    /// Take back the events of partitions that were not written, as far as the
    /// buffer has room, and count the rest as dropped. The first error is the
    /// flush's error.
    pub fn settle(&mut self, outcomes: Vec<PartitionOutcome>, counters: &mut Counters) -> (r: Result<
        (),
        LogError,
    >)
        ensures
            final(self).capacity() == old(self).capacity(),
            ({
                let waiting = unwritten(outcomes@);
                let kept = room_for(waiting.len(), old(self)@.len(), old(self).capacity());
                &&& final(self)@ == old(self)@ + waiting.take(kept as int)
                &&& final(counters).record_dropped_count == (old(counters).record_dropped_count
                    + waiting.len() - kept) % 0x1_0000_0000_0000_0000
            }),
            final(counters).record_failed_count == old(counters).record_failed_count,
            final(counters).serialization_failed_count == old(
                counters,
            ).serialization_failed_count,
            match first_error(outcomes@) {
                None => {
                    &&& r is Ok
                    &&& final(counters).writer_failed_count == old(counters).writer_failed_count
                    &&& final(counters).last_error == old(counters).last_error
                },
                Some(e) => {
                    &&& r == Err::<(), LogError>(e)
                    &&& final(counters).writer_failed_count == (old(counters).writer_failed_count
                        + 1) % 0x1_0000_0000_0000_0000
                    &&& (final(counters).last_error matches Some(m) && m@ == log_error_message(e))
                },
            },
    {
        let ghost start = self.pending@;
        let ghost all = outcomes@;
        let mut error: Option<LogError> = None;
        let mut dropped: u64 = 0;
        let ghost mut seen: Seq<PartitionOutcome> = Seq::empty();
        for outcome in it: outcomes
            invariant
                it.seq() == all,
                seen == all.take(it.index()),
                error == first_error(seen),
                self.buffer_size == old(self).buffer_size,
                start == old(self).pending@,
                self.pending@ == start + unwritten(seen).take(
                    room_for(unwritten(seen).len(), start.len(), self.buffer_size as nat) as int,
                ),
                dropped == (unwritten(seen).len() - room_for(
                    unwritten(seen).len(),
                    start.len(),
                    self.buffer_size as nat,
                )) % 0x1_0000_0000_0000_0000,
        {
            let ghost earlier = unwritten(seen);
            proof {
                assert(all.take(it.index() + 1) =~= seen.push(outcome));
                seen = seen.push(outcome);
                assert(seen.drop_last() =~= all.take(it.index()));
            }
            match outcome.error {
                None => {
                    assert(unwritten(seen) =~= earlier);
                },
                Some(e) => {
                    let lost = self.requeue(outcome.events, Ghost(start), Ghost(earlier));
                    dropped = dropped.wrapping_add(lost);
                    if error.is_none() {
                        error = Some(e);
                    }
                },
            }
        }
        assert(seen =~= all);
        counters.record_dropped_count = counters.record_dropped_count.wrapping_add(dropped);
        match error {
            None => Ok(()),
            Some(e) => {
                counters.note_writer_failure(e.message());
                Err(e)
            },
        }
    }

    /// Put `events` back as far as there is room, and say how many there was no
    /// room for.
    fn requeue(
        &mut self,
        events: Vec<LogEvent>,
        Ghost(start): Ghost<Seq<LogEvent>>,
        Ghost(earlier): Ghost<Seq<LogEvent>>,
    ) -> (r: u64)
        requires
            old(self).pending@ == start + earlier.take(
                room_for(earlier.len(), start.len(), old(self).buffer_size as nat) as int,
            ),
        ensures
            final(self).buffer_size == old(self).buffer_size,
            ({
                let waiting = earlier + events@;
                let kept = room_for(waiting.len(), start.len(), final(self).buffer_size as nat);
                let before = room_for(earlier.len(), start.len(), final(self).buffer_size as nat);
                &&& final(self).pending@ == start + waiting.take(kept as int)
                &&& r == waiting.len() - kept - (earlier.len() - before)
            }),
    {
        let ghost waiting = earlier + events@;
        let ghost added = events@;
        let mut lost: u64 = 0;
        let count = events.len();
        for event in it: events
            invariant
                it.seq() == added,
                count == added.len(),
                self.buffer_size == old(self).buffer_size,
                waiting == earlier + added,
                lost <= it.index(),
                self.pending@ == start + waiting.take(
                    room_for(
                        earlier.len() + it.index() as nat,
                        start.len(),
                        self.buffer_size as nat,
                    ) as int,
                ),
                lost == (earlier.len() + it.index()) - room_for(
                    earlier.len() + it.index() as nat,
                    start.len(),
                    self.buffer_size as nat,
                ) - (earlier.len() - room_for(
                    earlier.len(),
                    start.len(),
                    self.buffer_size as nat,
                )),
        {
            let ghost k = (earlier.len() + it.index()) as nat;
            assert(waiting[k as int] == event);
            if self.pending.len() < self.buffer_size {
                let ghost before = self.pending@;
                self.pending.push(event);
                assert(self.pending@ =~= start + waiting.take(
                    room_for(k + 1, start.len(), self.buffer_size as nat) as int,
                ));
            } else {
                lost = lost + 1;
            }
        }
        lost
    }
}

/// Put `event` into the partition of its day, a new one where there is none.
fn place(partitions: &mut Vec<Partition>, event: LogEvent, Ghost(done): Ghost<Seq<LogEvent>>)
    requires
        spreads(old(partitions)@, done),
    ensures
        spreads(final(partitions)@, done.push(event)),
{
    let day = day_partition_key(event.ts_us);
    let ghost before = partitions@;
    let ghost more = done.push(event);
    let i = find_day(partitions, day.as_str());
    if i < partitions.len() {
        partitions[i].events.push(event);
    } else {
        let mut events: Vec<LogEvent> = Vec::new();
        events.push(event);
        partitions.push(Partition { day, events });
    }
    proof {
        let after = partitions@;
        let at = i as int;
        let key = partition_key(event.ts_us);
        assert(after[at].day@ == key);
        assert forall|j: int| 0 <= j < before.len() implies #[trigger] after[j].day
            == before[j].day by {}
        assert forall|j: int| 0 <= j < after.len() implies (#[trigger] after[j]).events@
            == more.filter(on_day(after[j].day@)) && after[j].events@.len() > 0 by {
            let p = on_day(after[j].day@);
            lemma_filter_push(done, event, p);
            if j < before.len() {
                assert(before[j].events@ == done.filter(p));
                if j != at {
                    assert(after[j].day@ != key) by {
                        if at < before.len() {
                            if j < at {
                                assert(before[j].day@ != before[at].day@);
                            } else {
                                assert(before[at].day@ != before[j].day@);
                            }
                        }
                    }
                }
            } else {
                lemma_no_day(before, done, key);
                assert(after[j].events@ =~= Seq::<LogEvent>::empty().push(event));
            }
        }
        assert forall|k: int| 0 <= k < more.len() implies has_day(
            after,
            partition_key((#[trigger] more[k]).ts_us),
        ) by {
            if k < done.len() {
                assert(more[k] == done[k]);
                let day_k = partition_key(done[k].ts_us);
                let w = choose|w: int|
                    0 <= w < before.len() && (#[trigger] before[w]).day@ == day_k;
                assert(after[w].day@ == day_k);
            } else {
                assert(after[at].day@ == key);
            }
        }
    }
}

/// Index of the first partition for `day`, or the number of partitions.
fn find_day(partitions: &Vec<Partition>, day: &str) -> (r: usize)
    ensures
        0 <= r <= partitions@.len(),
        r < partitions@.len() ==> partitions@[r as int].day@ == day@,
        forall|j: int| 0 <= j < r ==> (#[trigger] partitions@[j]).day@ != day@,
{
    let mut i: usize = 0;
    while i < partitions.len()
        invariant
            0 <= i <= partitions@.len(),
            forall|j: int| 0 <= j < i ==> (#[trigger] partitions@[j]).day@ != day@,
        decreases partitions@.len() - i,
    {
        if same_text(partitions[i].day.as_str(), day) {
            return i;
        }
        i = i + 1;
    }
    i
}

/// A day without a partition has no events.
pub proof fn lemma_no_day(partitions: Seq<Partition>, events: Seq<LogEvent>, day: Seq<char>)
    requires
        !has_day(partitions, day),
        forall|k: int|
            0 <= k < events.len() ==> has_day(
                partitions,
                partition_key((#[trigger] events[k]).ts_us),
            ),
    ensures
        events.filter(on_day(day)) == Seq::<LogEvent>::empty(),
    decreases events.len(),
{
    if events.len() == 0 {
        assert(events =~= Seq::empty());
        lemma_filter_empty(on_day(day));
    } else {
        let front = events.drop_last();
        assert forall|k: int| 0 <= k < front.len() implies has_day(
            partitions,
            partition_key((#[trigger] front[k]).ts_us),
        ) by {
            assert(front[k] == events[k]);
        }
        lemma_no_day(partitions, front, day);
        lemma_filter_push(front, events.last(), on_day(day));
        assert(front.push(events.last()) =~= events);
        assert(has_day(partitions, partition_key(events[events.len() - 1].ts_us)));
    }
}

// ---------------------------------------------------------------------------
// Partition files
// ---------------------------------------------------------------------------

/// The lines of the serialized events, each with a line feed. An event that
/// could not be serialized, or left no text, adds nothing.
pub open spec fn framed(rows: Seq<Option<String>>) -> Seq<char>
    decreases rows.len(),
{
    if rows.len() == 0 {
        Seq::empty()
    } else {
        framed(rows.drop_last()) + (match rows.last() {
            Some(text) if text@.len() > 0 => text@.push('\n'),
            _ => Seq::empty(),
        })
    }
}

/// How many rows could not be serialized.
pub open spec fn missing(rows: Seq<Option<String>>) -> nat
    decreases rows.len(),
{
    if rows.len() == 0 {
        0
    } else {
        missing(rows.drop_last()) + (if rows.last() is None {
            1nat
        } else {
            0
        })
    }
}

/// The text to append for serialized events, and how many could not be
/// serialized. Nothing is to be written where the text is empty.
pub fn frame_lines(rows: &Vec<Option<String>>) -> (r: (String, u64))
    ensures
        r.0@ == framed(rows@),
        r.1 == missing(rows@),
{
    let mut text = String::new();
    let mut failed: u64 = 0;
    let mut i: usize = 0;
    assert(rows@.take(0) =~= Seq::empty());
    while i < rows.len()
        invariant
            0 <= i <= rows@.len(),
            text@ == framed(rows@.take(i as int)),
            failed == missing(rows@.take(i as int)),
            failed <= i,
        decreases rows@.len() - i,
    {
        let ghost before = text@;
        assert(rows@.take(i + 1).drop_last() =~= rows@.take(i as int));
        assert(rows@.take(i + 1).last() == rows@[i as int]);
        match &rows[i] {
            Some(line) => {
                if !line.as_str().is_empty() {
                    text.append(line.as_str());
                    text.push('\n');
                    assert(text@ =~= before + line@.push('\n'));
                } else {
                    assert(text@ =~= before + Seq::<char>::empty());
                }
            },
            None => {
                failed = failed + 1;
                assert(text@ =~= before + Seq::<char>::empty());
            },
        }
        i = i + 1;
    }
    assert(rows@.take(rows@.len() as int) =~= rows@);
    (text, failed)
}

/// The directory of a day's partition, below the log directory.
pub fn partition_dir(day: &str) -> (r: String)
    ensures
        r@ == "day="@ + day@,
{
    "day=".to_owned().concat(day)
}

/// The days whose partition files are open, at most
/// [`MAX_OPEN_DAY_PARTITIONS`] of them.
pub struct OpenPartitions {
    days: Vec<String>,
}

impl View for OpenPartitions {
    type V = Seq<Seq<char>>;

    closed spec fn view(&self) -> Seq<Seq<char>> {
        texts(self.days@)
    }
}

/// Whether a day is listed.
pub open spec fn lists(days: Seq<Seq<char>>, day: Seq<char>) -> bool {
    exists|i: int| 0 <= i < days.len() && #[trigger] days[i] == day
}

/// Whether no listed day comes before `day`.
pub open spec fn is_oldest(days: Seq<Seq<char>>, day: Seq<char>) -> bool {
    forall|i: int| 0 <= i < days.len() ==> !precedes(#[trigger] days[i], day)
}

/// Whether the list is within its bound and names no day twice.
pub open spec fn well_listed(days: Seq<Seq<char>>) -> bool {
    &&& days.len() <= MAX_OPEN_DAY_PARTITIONS
    &&& forall|i: int, j: int| 0 <= i < j < days.len() ==> #[trigger] days[i] != #[trigger] days[j]
}

impl OpenPartitions {
    /// No open files.
    pub fn new() -> (r: Self)
        ensures
            r@ == Seq::<Seq<char>>::empty(),
            well_listed(r@),
    {
        let r = Self { days: Vec::new() };
        assert(r@ =~= Seq::empty());
        r
    }

    /// Whether the file of `day` is open.
    pub fn is_open(&self, day: &str) -> (r: bool)
        ensures
            r == lists(self@, day@),
    {
        let mut i: usize = 0;
        while i < self.days.len()
            invariant
                0 <= i <= self.days@.len(),
                forall|j: int| 0 <= j < i ==> #[trigger] self@[j] != day@,
            decreases self.days@.len() - i,
        {
            assert(self@[i as int] == self.days@[i as int]@);
            if same_text(self.days[i].as_str(), day) {
                return true;
            }
            i = i + 1;
        }
        false
    }

    /// Make room for the file of `day`: where it is not open and the bound is
    /// reached, the oldest day is closed and returned.
    pub fn make_room(&mut self, day: &str) -> (r: Option<String>)
        requires
            well_listed(old(self)@),
        ensures
            well_listed(final(self)@),
            match r {
                None => {
                    &&& final(self)@ == old(self)@
                    &&& (lists(old(self)@, day@) || old(self)@.len() < MAX_OPEN_DAY_PARTITIONS)
                },
                Some(closed) => {
                    &&& !lists(old(self)@, day@)
                    &&& old(self)@.len() == MAX_OPEN_DAY_PARTITIONS
                    &&& is_oldest(old(self)@, closed@)
                    &&& exists|i: int|
                        0 <= i < old(self)@.len() && #[trigger] old(self)@[i] == closed@
                            && final(self)@ == old(self)@.remove(i)
                },
            },
            lists(final(self)@, day@) || final(self)@.len() < MAX_OPEN_DAY_PARTITIONS,
    {
        if self.is_open(day) || self.days.len() < MAX_OPEN_DAY_PARTITIONS {
            return None;
        }
        let ghost days = self@;
        let mut oldest: usize = 0;
        let mut i: usize = 1;
        proof {
            lemma_not_before_itself(days[0]);
        }
        while i < self.days.len()
            invariant
                1 <= i <= self.days@.len(),
                0 <= oldest < self.days@.len(),
                days == self@,
                self.days@ == old(self).days@,
                forall|j: int| 0 <= j < i ==> !precedes(#[trigger] days[j], days[oldest as int]),
            decreases self.days@.len() - i,
        {
            assert(days[i as int] == self.days@[i as int]@);
            assert(days[oldest as int] == self.days@[oldest as int]@);
            if comes_before(self.days[i].as_str(), self.days[oldest].as_str()) {
                proof {
                    lemma_not_before_itself(days[i as int]);
                    assert forall|j: int| 0 <= j < i implies !precedes(
                        #[trigger] days[j],
                        days[i as int],
                    ) by {
                        if precedes(days[j], days[i as int]) {
                            lemma_precedes_transitive(
                                days[j],
                                days[i as int],
                                days[oldest as int],
                            );
                        }
                    }
                }
                oldest = i;
            }
            i = i + 1;
        }
        let closed = self.days.remove(oldest);
        proof {
            assert(self@ =~= days.remove(oldest as int));
            assert(days[oldest as int] == closed@);
            assert forall|a: int, b: int|
                0 <= a < b < self@.len() implies #[trigger] self@[a] != #[trigger] self@[b] by {
                let x = if a < oldest {
                    a
                } else {
                    a + 1
                };
                let y = if b < oldest {
                    b
                } else {
                    b + 1
                };
                assert(self@[a] == days[x]);
                assert(self@[b] == days[y]);
                assert(days[x] != days[y]);
            }
        }
        Some(closed)
    }

    /// Note that the file of `day` is open.
    pub fn open(&mut self, day: &str)
        requires
            well_listed(old(self)@),
            lists(old(self)@, day@) || old(self)@.len() < MAX_OPEN_DAY_PARTITIONS,
        ensures
            well_listed(final(self)@),
            final(self)@ == if lists(old(self)@, day@) {
                old(self)@
            } else {
                old(self)@.push(day@)
            },
    {
        if !self.is_open(day) {
            let ghost days = self@;
            self.days.push(day.to_owned());
            assert(self@ =~= days.push(day@));
        }
    }
}

} // verus!
