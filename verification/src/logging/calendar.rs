//! Calendar days, their ISO 8601 dates, and the order of the dates as text.

use vstd::prelude::*;
use crate::bindings::{read_utc_date, utc_date};
use crate::number::digit_char;
use crate::text::{lemma_precedes_at, precedes};

verus! {

/// Microseconds in a day.
pub const DAY_US: i64 = 86_400_000_000;

/// The day, counted from 1970-01-01, that a microsecond timestamp lies in.
pub open spec fn day_of(ts_us: int) -> int {
    ts_us / (DAY_US as int)
}

/// Whether the Gregorian year has a 29 February.
pub open spec fn is_leap(y: int) -> bool {
    y % 4 == 0 && (y % 100 != 0 || y % 400 == 0)
}

/// The length of a month.
pub open spec fn month_length(y: int, m: int) -> int {
    if m == 2 {
        if is_leap(y) {
            29
        } else {
            28
        }
    } else if m == 4 || m == 6 || m == 9 || m == 11 {
        30
    } else {
        31
    }
}

/// The number of days of a year before its month `m`.
pub open spec fn days_before_month(y: int, m: int) -> int
    decreases m,
{
    if m <= 1 {
        0
    } else {
        days_before_month(y, m - 1) + month_length(y, m - 1)
    }
}

/// The number of days from 0000-01-01 to the start of year `y`.
pub open spec fn days_before_year(y: int) -> int {
    365 * y + (y + 3) / 4 - (y + 99) / 100 + (y + 399) / 400
}

/// The day of a date, counted from 1970-01-01.
pub open spec fn epoch_day(y: int, m: int, d: int) -> int {
    days_before_year(y) + days_before_month(y, m) + d - 1 - days_before_year(1970)
}

/// Whether `y-m-d` is a date with a four-digit year.
pub open spec fn is_calendar_date(y: int, m: int, d: int) -> bool {
    0 <= y <= 9999 && 1 <= m <= 12 && 1 <= d <= month_length(y, m)
}

/// The digit of `n` at the place worth `unit`.
pub open spec fn digit_at(n: int, unit: int) -> char {
    digit_char(((n / unit) % 10) as nat)
}

/// The date `y-m-d` in ISO 8601 form.
pub open spec fn date_text(y: int, m: int, d: int) -> Seq<char> {
    seq![
        digit_at(y, 1000),
        digit_at(y, 100),
        digit_at(y, 10),
        digit_at(y, 1),
        '-',
        digit_at(m, 10),
        digit_at(m, 1),
        '-',
        digit_at(d, 10),
        digit_at(d, 1),
    ]
}

/// Whether `text` is the date of `day`.
pub open spec fn is_date(text: Seq<char>, day: int) -> bool {
    exists|y: int, m: int, d: int|
        #![trigger date_text(y, m, d)]
        is_calendar_date(y, m, d) && epoch_day(y, m, d) == day && text == date_text(y, m, d)
}

/// Whether a microsecond timestamp lies in the supported calendar range.
pub open spec fn in_calendar(ts_us: i64) -> bool {
    -377_705_023_201_000_000 <= ts_us <= 253_402_207_200_000_000
}

/// The key of the partition that a timestamp belongs to: its UTC date, or that
/// of 1970-01-01 where the timestamp is out of range.
pub open spec fn partition_key(ts_us: i64) -> Seq<char> {
    if in_calendar(ts_us) {
        utc_date(day_of(ts_us as int))
    } else {
        "1970-01-01"@
    }
}

/// The partition key of a microsecond Unix timestamp, a `YYYY-MM-DD` date.
pub fn day_partition_key(ts_us: i64) -> (r: String)
    ensures
        r@ == partition_key(ts_us),
        in_calendar(ts_us) && ts_us >= 0 ==> is_date(r@, day_of(ts_us as int)),
{
    match read_utc_date(ts_us) {
        Some(date) => date,
        None => "1970-01-01".to_owned(),
    }
}

/// The days of a year fill its months in order, and a year starts where the
/// year before it ends.
proof fn lemma_year(y: int)
    requires
        0 <= y,
    ensures
        days_before_year(y + 1) == days_before_year(y) + days_before_month(y, 12) + 31,
        forall|m: int| 1 <= m <= 12 ==> 0 <= #[trigger] days_before_month(y, m),
        forall|m: int|
            1 <= m <= 11 ==> #[trigger] days_before_month(y, m) + month_length(y, m)
                == days_before_month(y, m + 1),
{
    reveal_with_fuel(days_before_month, 13);
    assert(days_before_month(y, 12) == 334 + (if is_leap(y) {
        1int
    } else {
        0
    }));
    assert forall|m: int| 1 <= m <= 11 implies #[trigger] days_before_month(y, m) + month_length(
        y,
        m,
    ) == days_before_month(y, m + 1) by {}
    assert forall|m: int| 1 <= m <= 12 implies 0 <= #[trigger] days_before_month(y, m) by {
        lemma_month_start(y, m);
    }
}

/// A month starts after the months before it.
proof fn lemma_month_start(y: int, m: int)
    ensures
        0 <= days_before_month(y, m),
    decreases m,
{
    if m > 1 {
        lemma_month_start(y, m - 1);
    }
}

/// A later month of the same year starts no earlier than the end of an earlier
/// one.
proof fn lemma_month_order(y: int, m: int, n: int)
    requires
        1 <= m < n,
    ensures
        days_before_month(y, m) + month_length(y, m) <= days_before_month(y, n),
    decreases n,
{
    if m + 1 < n {
        lemma_month_order(y, m, n - 1);
    }
}

/// A later year starts no earlier than the end of an earlier one.
proof fn lemma_year_order(y: int, z: int)
    requires
        0 <= y < z,
    ensures
        days_before_year(y + 1) <= days_before_year(z),
    decreases z,
{
    if y + 1 < z {
        lemma_year_order(y, z - 1);
        lemma_year(z - 1);
    }
}

/// A date earlier by year, month and day is an earlier day.
proof fn lemma_date_order(y: int, m: int, d: int, z: int, n: int, e: int)
    requires
        is_calendar_date(y, m, d),
        is_calendar_date(z, n, e),
        y < z || y == z && (m < n || m == n && d < e),
    ensures
        epoch_day(y, m, d) < epoch_day(z, n, e),
{
    lemma_year(y);
    lemma_year(z);
    if y < z {
        lemma_year_order(y, z);
        lemma_month_start(z, n);
        if m < 12 {
            lemma_month_order(y, m, 12);
        }
    } else if m < n {
        lemma_month_order(y, m, n);
    }
}

/// A two-digit number is made of its digits.
proof fn lemma_two_digits(n: int)
    requires
        0 <= n <= 99,
    ensures
        n == 10 * ((n / 10) % 10) + (n / 1) % 10,
{
}

/// A four-digit number is made of its digits.
proof fn lemma_four_digits(n: int)
    requires
        0 <= n <= 9999,
    ensures
        n == 1000 * ((n / 1000) % 10) + 100 * ((n / 100) % 10) + 10 * ((n / 10) % 10) + (n / 1)
            % 10,
{
    let tens = n / 10;
    let hundreds = tens / 10;
    let thousands = hundreds / 10;
    assert(n / 100 == hundreds);
    assert(n / 1000 == thousands);
    assert(n == 10 * tens + n % 10);
    assert(tens == 10 * hundreds + tens % 10);
    assert(hundreds == 10 * thousands + hundreds % 10);
    assert(thousands % 10 == thousands);
}

/// Digits order as the numbers that they write.
proof fn lemma_digit_order(a: int, b: int)
    requires
        0 <= a < 10,
        0 <= b < 10,
    ensures
        a < b <==> digit_char(a as nat) < digit_char(b as nat),
        a == b <==> digit_char(a as nat) == digit_char(b as nat),
{
}

/// An earlier date is the smaller text.
proof fn lemma_text_order(y: int, m: int, d: int, z: int, n: int, e: int)
    requires
        is_calendar_date(y, m, d),
        is_calendar_date(z, n, e),
        y < z || y == z && (m < n || m == n && d < e),
    ensures
        precedes(date_text(y, m, d), date_text(z, n, e)),
{
    let a = date_text(y, m, d);
    let b = date_text(z, n, e);
    lemma_four_digits(y);
    lemma_four_digits(z);
    lemma_two_digits(m);
    lemma_two_digits(n);
    lemma_two_digits(d);
    lemma_two_digits(e);
    lemma_digit_order((y / 1000) % 10, (z / 1000) % 10);
    lemma_digit_order((y / 100) % 10, (z / 100) % 10);
    lemma_digit_order((y / 10) % 10, (z / 10) % 10);
    lemma_digit_order((y / 1) % 10, (z / 1) % 10);
    lemma_digit_order((m / 10) % 10, (n / 10) % 10);
    lemma_digit_order((m / 1) % 10, (n / 1) % 10);
    lemma_digit_order((d / 10) % 10, (e / 10) % 10);
    lemma_digit_order((d / 1) % 10, (e / 1) % 10);
    if y < z {
        if (y / 1000) % 10 != (z / 1000) % 10 {
            lemma_precedes_at(a, b, 0);
        } else if (y / 100) % 10 != (z / 100) % 10 {
            lemma_precedes_at(a, b, 1);
        } else if (y / 10) % 10 != (z / 10) % 10 {
            lemma_precedes_at(a, b, 2);
        } else {
            lemma_precedes_at(a, b, 3);
        }
    } else if m < n {
        if (m / 10) % 10 != (n / 10) % 10 {
            lemma_precedes_at(a, b, 5);
        } else {
            lemma_precedes_at(a, b, 6);
        }
    } else {
        if (d / 10) % 10 != (e / 10) % 10 {
            lemma_precedes_at(a, b, 8);
        } else {
            lemma_precedes_at(a, b, 9);
        }
    }
}

/// Dates sort as text in the order of their days: of two days with four-digit
/// years, the earlier has the lexicographically smaller date.
pub proof fn dates_sort_by_day(a: Seq<char>, b: Seq<char>, day: int, later: int)
    requires
        is_date(a, day),
        is_date(b, later),
        day < later,
    ensures
        precedes(a, b),
{
    let (y, m, d) = choose|y: int, m: int, d: int|
        #![trigger date_text(y, m, d)]
        is_calendar_date(y, m, d) && epoch_day(y, m, d) == day && a == date_text(y, m, d);
    let (z, n, e) = choose|z: int, n: int, e: int|
        #![trigger date_text(z, n, e)]
        is_calendar_date(z, n, e) && epoch_day(z, n, e) == later && b == date_text(z, n, e);
    if z < y || z == y && (n < m || n == m && e < d) {
        lemma_date_order(z, n, e, y, m, d);
    } else if y == z && m == n && d == e {
        assert(day == later);
    } else {
        lemma_text_order(y, m, d, z, n, e);
    }
}

/// Timestamps of one UTC day share their partition key.
pub proof fn same_day_same_partition(a: i64, b: i64)
    requires
        day_of(a as int) == day_of(b as int),
        in_calendar(a),
        in_calendar(b),
    ensures
        partition_key(a) == partition_key(b),
{
}

} // verus!
