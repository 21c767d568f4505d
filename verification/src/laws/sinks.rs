//! What becomes of log events.

use vstd::prelude::*;
use vstd::arithmetic::power::pow;
use crate::bindings::utc_date;
use crate::laws::is_line;
use crate::logging::calendar::{in_calendar, partition_key};
use crate::logging::event::LogEvent;
use crate::logging::jsonl_sink::{
    first_error, framed, missing, room_for, step_for, unwritten, PartitionOutcome, WriterEvent,
};
use crate::server::identity::{hex, hex_char, identifier, identity_bytes, little_endian};
use crate::text::lines;

verus! {

/// The buffer is flushed when an event fills it, when a caller asks, when the sink
/// ends, and at intervals where there is anything to write. Only what a caller
/// waits for is made durable and acknowledged, and only an end stops the writer.
pub proof fn flushes_happen_when_due(event: WriterEvent, full: bool, empty: bool)
    ensures
        ({
            let step = step_for(event, full, empty);
            let asked = event is Flush || event is Shutdown;
            let ends = event is Shutdown || event is Closed;
            &&& step.flush <==> asked || ends || event is Record && full || event is Tick && !empty
            &&& step.sync <==> asked
            &&& step.acknowledge <==> asked
            &&& step.exit <==> ends
            &&& step.report <==> event is Shutdown || event is Tick
        }),
{
}

/// As many unwritten events are kept as the buffer has room for: none is dropped
/// while there is room, and the buffer never exceeds its size on their account.
pub proof fn events_are_dropped_only_for_want_of_room(
    waiting: nat,
    pending: nat,
    buffer_size: nat,
)
    ensures
        room_for(waiting, pending, buffer_size) <= waiting,
        room_for(waiting, pending, buffer_size) < waiting && pending <= buffer_size ==> pending
            + room_for(waiting, pending, buffer_size) == buffer_size,
        pending >= buffer_size ==> room_for(waiting, pending, buffer_size) == 0,
        pending + waiting <= buffer_size ==> room_for(waiting, pending, buffer_size) == waiting,
{
}

/// Exactly the events of failed partitions come back, in the order of the
/// partitions, and the error of a flush is that of its first failed partition.
pub proof fn failed_partitions_come_back(
    before: Seq<PartitionOutcome>,
    outcome: PartitionOutcome,
)
    ensures
        unwritten(Seq::empty()) == Seq::<LogEvent>::empty(),
        unwritten(before.push(outcome)) == unwritten(before) + (if outcome.error is Some {
            outcome.events@
        } else {
            Seq::empty()
        }),
        first_error(Seq::empty()) is None,
        first_error(before.push(outcome)) == (if first_error(before) is Some {
            first_error(before)
        } else {
            outcome.error
        }),
{
    assert(before.push(outcome).drop_last() =~= before);
}

/// A file gets one line per serialized event: its lines are the rows, in order,
/// and rows that could not be serialized are counted and left out.
pub proof fn files_get_one_line_per_event(rows: Seq<Option<String>>)
    requires
        forall|i: int| 0 <= i < rows.len() ==> (#[trigger] rows[i] matches Some(row) ==> is_line(
            row@,
        )),
    ensures
        lines(framed(rows)) == rows.filter(|r: Option<String>| r is Some).map_values(
            |r: Option<String>| r->0@,
        ),
        missing(rows) == rows.filter(|r: Option<String>| r is None).len(),
    decreases rows.len(),
{
    let has = |r: Option<String>| r is Some;
    let lacks = |r: Option<String>| r is None;
    let text = |r: Option<String>| r->0@;
    if rows.len() == 0 {
        assert(rows =~= Seq::empty());
        crate::sequence::lemma_filter_empty(has);
        crate::sequence::lemma_filter_empty(lacks);
        assert(lines(framed(rows)) =~= rows.filter(has).map_values(text));
    } else {
        let front = rows.drop_last();
        assert forall|i: int| 0 <= i < front.len() implies (#[trigger] front[i] matches Some(row)
            ==> is_line(row@)) by {
            assert(front[i] == rows[i]);
        }
        files_get_one_line_per_event(front);
        let last = rows.last();
        assert(last == rows[rows.len() - 1]);
        assert(front.push(last) =~= rows);
        crate::sequence::lemma_filter_push(front, last, has);
        crate::sequence::lemma_filter_push(front, last, lacks);
        lemma_framed_ends(front);
        if last is Some {
            let row = last->0@;
            lemma_append_line(framed(front), row);
            assert(framed(rows) =~= framed(front) + row + seq!['\n']);
            let kept = front.filter(has);
            assert(kept.push(last).map_values(text) =~= kept.map_values(text).push(row));
        } else {
            assert(framed(rows) =~= framed(front));
        }
    }
}

/// A framed text is empty or ends in a line feed.
proof fn lemma_framed_ends(rows: Seq<Option<String>>)
    ensures
        framed(rows).len() == 0 || framed(rows).last() == '\n',
    decreases rows.len(),
{
    if rows.len() > 0 {
        lemma_framed_ends(rows.drop_last());
        let more: Seq<char> = match rows.last() {
            Some(text) if text@.len() > 0 => text@.push('\n'),
            _ => Seq::empty(),
        };
        assert(framed(rows) == framed(rows.drop_last()) + more);
        if more.len() == 0 {
            assert(framed(rows) =~= framed(rows.drop_last()));
        } else {
            assert(framed(rows).last() == more.last());
        }
    }
}

/// A line appended to whole lines is one more line.
proof fn lemma_append_line(s: Seq<char>, row: Seq<char>)
    requires
        s.len() == 0 || s.last() == '\n',
        is_line(row),
    ensures
        lines(s + row + seq!['\n']) == lines(s).push(row),
    decreases s.len(),
{
    let whole = s + row + seq!['\n'];
    if s.len() == 0 {
        assert forall|i: int| 0 <= i < row.len() implies #[trigger] row[i] != '\n' by {}
        crate::laws::texts::lines_end_at_line_feeds(row, Seq::empty());
        assert(whole =~= row + seq!['\n'] + Seq::<char>::empty());
        assert(row.len() > 0 && row[row.len() - 1] == row.last());
        assert(lines(Seq::<char>::empty()) =~= Seq::empty());
        assert(lines(whole) =~= lines(s).push(row));
    } else {
        crate::text::lemma_position(s, '\n');
        assert(s[s.len() - 1] == '\n');
        assert(s.contains('\n'));
        let end = crate::text::position(s, '\n');
        let line = s.take(end);
        let rest = s.skip(end + 1);
        assert(s =~= line + seq!['\n'] + rest);
        assert forall|i: int| 0 <= i < line.len() implies #[trigger] line[i] != '\n' by {
            assert(line[i] == s[i]);
        }
        if rest.len() > 0 {
            assert(rest.last() == s.last());
        }
        lemma_append_line(rest, row);
        crate::laws::texts::lines_end_at_line_feeds(line, rest);
        let more = rest + row + seq!['\n'];
        crate::laws::texts::lines_end_at_line_feeds(line, more);
        assert(whole =~= line + seq!['\n'] + more);
        assert(lines(whole) =~= lines(s).push(row));
    }
}

/// An event belongs to the UTC day that its timestamp lies in, counted in whole
/// days of 86,400 seconds, also before 1970; one outside the calendar belongs to
/// the first day of 1970.
pub proof fn events_belong_to_their_day(ts_us: i64, day: int)
    ensures
        in_calendar(ts_us) && day * 86_400_000_000 <= ts_us < (day + 1) * 86_400_000_000
            ==> partition_key(ts_us) == utc_date(day),
        ts_us > 253_402_207_200_000_000 || ts_us < -377_705_023_201_000_000 ==> partition_key(ts_us)
            == "1970-01-01"@,
        -377_705_023_201_000_000 <= ts_us <= 253_402_207_200_000_000 ==> in_calendar(ts_us),
{
    if day * 86_400_000_000 <= ts_us < (day + 1) * 86_400_000_000 {
        assert(ts_us as int / 86_400_000_000 == day) by (nonlinear_arith)
            requires
                day * 86_400_000_000 <= ts_us < (day + 1) * 86_400_000_000,
        ;
    }
}

/// The number that bytes write, least significant first.
pub open spec fn worth(bytes: Seq<u8>) -> nat
    decreases bytes.len(),
{
    if bytes.len() == 0 {
        0
    } else {
        bytes[0] as nat + 256 * worth(bytes.drop_first())
    }
}

proof fn lemma_worth(n: nat, width: nat)
    requires
        n < pow(256, width),
    ensures
        little_endian(n, width).len() == width,
        worth(little_endian(n, width)) == n,
    decreases width,
{
    reveal(pow);
    if width > 0 {
        let rest = little_endian(n / 256, (width - 1) as nat);
        assert(n / 256 < pow(256, (width - 1) as nat)) by (nonlinear_arith)
            requires
                n < 256 * pow(256, (width - 1) as nat),
        ;
        lemma_worth(n / 256, (width - 1) as nat);
        let all = little_endian(n, width);
        assert(all.drop_first() =~= rest);
    }
}

/// What an identifier hashes gives both of its parts back: eight bytes of the
/// counter and eight of the timestamp, least significant first.
pub proof fn identifiers_hash_counter_and_time(sequence: u64, ts_ns: u64)
    ensures
        identity_bytes(sequence, ts_ns).len() == 16,
        worth(identity_bytes(sequence, ts_ns).take(8)) == sequence,
        worth(identity_bytes(sequence, ts_ns).skip(8)) == ts_ns,
{
    assert(pow(256, 8) == 0x1_0000_0000_0000_0000) by {
        reveal_with_fuel(pow, 9);
    }
    lemma_worth(sequence as nat, 8);
    lemma_worth(ts_ns as nat, 8);
    let all = identity_bytes(sequence, ts_ns);
    assert(all.take(8) =~= little_endian(sequence as nat, 8));
    assert(all.skip(8) =~= little_endian(ts_ns as nat, 8));
}

/// An identifier is sixteen lowercase hexadecimal digits.
pub proof fn identifiers_are_hexadecimal(sequence: u64, ts_ns: u64)
    ensures
        identifier(sequence, ts_ns).len() == 16,
        forall|i: int|
            0 <= i < 16 ==> '0' <= #[trigger] identifier(sequence, ts_ns)[i] <= '9' || 'a'
                <= identifier(sequence, ts_ns)[i] <= 'f',
{
    lemma_hex(crate::bindings::xxh3(identity_bytes(sequence, ts_ns)) as nat, 16);
}

proof fn lemma_hex(n: nat, width: nat)
    ensures
        hex(n, width).len() == width,
        forall|i: int|
            0 <= i < width ==> '0' <= #[trigger] hex(n, width)[i] <= '9' || 'a' <= hex(n, width)[i]
                <= 'f',
    decreases width,
{
    if width > 0 {
        lemma_hex(n / 16, (width - 1) as nat);
        let last = hex_char(n % 16);
        assert('0' <= last <= '9' || 'a' <= last <= 'f');
    }
}

} // verus!
