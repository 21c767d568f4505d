//! What CSV and TSV tables are read as.

use vstd::prelude::*;
use vstd::arithmetic::power2::pow2;
use crate::bindings::{csv_header, csv_rows, float_reading};
use crate::error::Fault;
use crate::laws::texts::{is_space, trimming_drops_white_space_only};
use crate::number::{
    all_digits, decimal, digits_value, is_digit, is_whole, lemma_decimal_reads_back, signed_value,
    unsigned_value,
};
use crate::parser::csv::{
    cell, coercion, coercion_flags, has_float_mark, has_lossy, has_number, inspection,
    is_lossy_field, may_be_lossy, records, repeated_name, table, without_minus, CsvCoercionMetadata,
};
use crate::parser::without_bom;
use crate::text::{byte_len, lemma_position, position, trimmed};
use crate::value::{Json, Num};

verus! {

// ---------------------------------------------------------------------------
// Cells
// ---------------------------------------------------------------------------

/// Whether a text is a run of at least one ASCII digit.
pub open spec fn is_digit_run(s: Seq<char>) -> bool {
    s.len() > 0 && forall|i: int| 0 <= i < s.len() ==> '0' <= #[trigger] s[i] <= '9'
}

/// Whether a text is a run of digits, with or without a sign.
pub open spec fn is_integer_text(s: Seq<char>) -> bool {
    is_digit_run(s) || s.len() > 0 && (s[0] == '+' || s[0] == '-') && is_digit_run(s.skip(1))
}

/// Whether a text holds a decimal point or an exponent mark.
pub open spec fn has_point_or_exponent(s: Seq<char>) -> bool {
    exists|i: int| 0 <= i < s.len() && (#[trigger] s[i] == '.' || s[i] == 'e' || s[i] == 'E')
}

/// `n` zeros.
pub open spec fn zeros(n: nat) -> Seq<char> {
    Seq::new(n, |i: int| '0')
}

proof fn lemma_integer_text(s: Seq<char>)
    ensures
        signed_value(s) is Some <==> is_integer_text(s),
{
    assert(unsigned_value(s) is Some <==> is_digit_run(s)) by {
        if unsigned_value(s) is Some {
            assert forall|i: int| 0 <= i < s.len() implies '0' <= #[trigger] s[i] <= '9' by {
                assert(is_digit(s[i]));
            }
        }
    }
    if s.len() > 0 {
        let rest = s.skip(1);
        assert(s.drop_first() =~= rest);
        assert(unsigned_value(rest) is Some <==> is_digit_run(rest)) by {
            if unsigned_value(rest) is Some {
                assert forall|i: int| 0 <= i < rest.len() implies '0' <= #[trigger] rest[i] <= '9' by {
                    assert(is_digit(rest[i]));
                }
            }
        }
        if s[0] == '+' || s[0] == '-' {
            assert(!is_digit_run(s));
        }
    }
}

proof fn lemma_marks(s: Seq<char>)
    ensures
        has_float_mark(trimmed(s)) <==> has_point_or_exponent(s),
{
    trimming_drops_white_space_only(s);
    let t = trimmed(s);
    let (from, to) = choose|from: int, to: int|
        0 <= from <= to <= s.len() && trimmed(s) == #[trigger] s.subrange(from, to) && (forall|
            i: int,
        |
            0 <= i < from || to <= i < s.len() ==> is_space(#[trigger] s[i])) && (from < to
            ==> !is_space(s[from]) && !is_space(s[to - 1]));
    if has_float_mark(t) {
        let i = choose|i: int| 0 <= i < t.len() && (t[i] == '.' || t[i] == 'e' || t[i] == 'E');
        assert(s[from + i] == t[i]);
    }
    if has_point_or_exponent(s) {
        let i = choose|i: int|
            0 <= i < s.len() && (#[trigger] s[i] == '.' || s[i] == 'e' || s[i] == 'E');
        assert(!is_space(s[i]));
        assert(from <= i < to);
        assert(t[i - from] == s[i]);
    }
}

/// A cell that is not numeric keeps its text, the empty cell among them: with
/// coercion on, only a signed or unsigned run of digits, or a field with a point
/// or an exponent that reads as a finite number, becomes a number. Such a field
/// becomes the number that it reads as. Without coercion every cell keeps its
/// text.
pub proof fn only_numeric_cells_become_numbers(field: Seq<char>)
    ensures
        cell(field, false) == Json::String(field),
        !is_integer_text(field) && !has_point_or_exponent(field) ==> cell(field, true)
            == Json::String(field),
        !is_integer_text(field) && has_point_or_exponent(field) ==> cell(field, true) == (
        match float_reading(field) {
            Some(Some(number)) => Json::Number(Num::Float(number.0)),
            _ => Json::String(field),
        }),
        is_integer_text(field) ==> !(cell(field, true) matches Json::Number(Num::Float(_))),
        cell(field, true) is Number || cell(field, true) == Json::String(field),
{
    lemma_integer_text(field);
    lemma_marks(field);
}

pub proof fn lemma_leading_zeros(k: nat, digits: Seq<char>)
    requires
        all_digits(digits),
    ensures
        all_digits(zeros(k) + digits),
        digits_value(zeros(k) + digits) == digits_value(digits),
    decreases digits.len(), k,
{
    let s = zeros(k) + digits;
    assert forall|i: int| 0 <= i < s.len() implies is_digit(#[trigger] s[i]) by {
        if i >= k {
            assert(s[i] == digits[i - k]);
        }
    }
    if digits.len() > 0 {
        let front = digits.drop_last();
        assert forall|i: int| 0 <= i < front.len() implies is_digit(#[trigger] front[i]) by {
            assert(front[i] == digits[i]);
        }
        lemma_leading_zeros(k, front);
        assert(s.drop_last() =~= zeros(k) + front);
        assert(s.last() == digits.last());
    } else if k > 0 {
        lemma_leading_zeros((k - 1) as nat, digits);
        assert(s.drop_last() =~= zeros((k - 1) as nat) + digits);
        assert(s.last() == '0');
    } else {
        assert(s =~= digits);
    }
}

/// An integer cell becomes the integer that it writes, however it is spelled:
/// leading zeros and a plus sign do not matter, and a minus sign negates. Beyond
/// 2^53 in magnitude it keeps its text instead.
pub proof fn integer_cells_become_their_integer(n: nat, k: nat)
    ensures
        ({
            let digits = zeros(k) + decimal(n);
            let plus = seq!['+'] + digits;
            let minus = seq!['-'] + digits;
            if n <= 9_007_199_254_740_992 {
                &&& cell(digits, true) == Json::Number(Num::PosInt(n as u64))
                &&& cell(plus, true) == Json::Number(Num::PosInt(n as u64))
                &&& cell(minus, true) == if n == 0 {
                    Json::Number(Num::PosInt(0))
                } else {
                    Json::Number(Num::NegInt((-(n as int)) as i64))
                }
            } else {
                &&& cell(digits, true) == Json::String(digits)
                &&& cell(plus, true) == Json::String(plus)
                &&& cell(minus, true) == Json::String(minus)
            }
        }),
{
    lemma_decimal_reads_back(n);
    lemma_leading_zeros(k, decimal(n));
    let digits = zeros(k) + decimal(n);
    let plus = seq!['+'] + digits;
    let minus = seq!['-'] + digits;
    assert(plus.drop_first() =~= digits);
    assert(minus.drop_first() =~= digits);
    assert(is_digit(digits[0]));
    assert(signed_value(digits) == Some(n as int));
    assert(signed_value(plus) == Some(n as int));
    assert(signed_value(minus) == Some(-(n as int)));
}

// ---------------------------------------------------------------------------
// Rows
// ---------------------------------------------------------------------------

proof fn lemma_records(rows: Seq<Result<Seq<Seq<char>>, Seq<char>>>, n: nat)
    requires
        n <= rows.len(),
    ensures
        records(rows, n) matches Ok(all) ==> all.len() == n && forall|i: int|
            0 <= i < n ==> #[trigger] rows[i] == Ok::<Seq<Seq<char>>, Seq<char>>(all[i]),
        records(rows, n) matches Err(e) ==> exists|i: int|
            0 <= i < n && (#[trigger] rows[i] matches Err(m) && e == Fault::CsvError(m)) && forall|
                j: int,
            |
                0 <= j < i ==> (#[trigger] rows[j]) is Ok,
    decreases n,
{
    if n > 0 {
        lemma_records(rows, (n - 1) as nat);
        if records(rows, (n - 1) as nat) is Ok && rows[n - 1] is Err {
            assert(rows[n - 1] is Err);
        }
    }
}

proof fn lemma_repeats(names: Seq<Seq<char>>, n: nat)
    requires
        n <= names.len(),
    ensures
        repeated_name(names, n) is None ==> names.take(n as int).no_duplicates(),
        repeated_name(names, n) matches Some(name) ==> exists|j: int|
            0 <= j < n && #[trigger] names[j] == name && names.take(j).contains(name)
                && names.take(j).no_duplicates(),
    decreases n,
{
    if n > 0 {
        lemma_repeats(names, (n - 1) as nat);
        let front = names.take(n - 1);
        let whole = names.take(n as int);
        if repeated_name(names, (n - 1) as nat) is None {
            if front.contains(names[n - 1]) {
                assert(names[n - 1] == names[n - 1]);
            } else {
                assert forall|i: int, j: int|
                    0 <= i < whole.len() && 0 <= j < whole.len() && i != j implies whole[i]
                    != whole[j] by {
                    if i < n - 1 {
                        assert(whole[i] == front[i]);
                    }
                    if j < n - 1 {
                        assert(whole[j] == front[j]);
                    }
                }
            }
        }
    }
}

/// A table keeps every cell in its place: it has one object per record, and each
/// object has the header's names in order, each with the value of the cell below
/// it. It reads exactly where the header reads, names no column twice, and every
/// record reads.
pub proof fn tables_keep_every_cell(delimiter: u8, coerce: bool, input: Seq<char>)
    ensures
        ({
            let s = without_bom(input);
            let rows = csv_rows(delimiter, s);
            let readable = csv_header(delimiter, s) is Ok && csv_header(
                delimiter,
                s,
            )->Ok_0.no_duplicates() && forall|i: int|
                0 <= i < rows.len() ==> (#[trigger] rows[i]) is Ok;
            &&& table(delimiter, coerce, input) is Ok <==> readable
            &&& table(delimiter, coerce, input) matches Ok(t) ==> {
                let header = csv_header(delimiter, s)->Ok_0;
                &&& t.0 is Array
                &&& t.0->Array_0.len() == rows.len()
                &&& forall|i: int|
                    #![trigger t.0->Array_0[i]]
                    0 <= i < rows.len() ==> {
                        let record = rows[i]->Ok_0;
                        &&& t.0->Array_0[i] is Object
                        &&& record.len() == header.len() ==> t.0->Array_0[i]->Object_0.len()
                            == header.len()
                        &&& forall|j: int|
                            #![trigger t.0->Array_0[i]->Object_0[j]]
                            0 <= j < header.len() && j < record.len() ==> t.0->Array_0[i]->Object_0[j]
                                == (header[j], cell(record[j], coerce))
                    }
            }
        }),
{
    let s = without_bom(input);
    let rows = csv_rows(delimiter, s);
    lemma_records(rows, rows.len());
    if csv_header(delimiter, s) is Ok {
        let header = csv_header(delimiter, s)->Ok_0;
        lemma_repeats(header, header.len());
        assert(header.take(header.len() as int) =~= header);
        if repeated_name(header, header.len()) is Some {
            let name = repeated_name(header, header.len())->Some_0;
            let j = choose|j: int|
                0 <= j < header.len() && #[trigger] header[j] == name && header.take(j).contains(
                    name,
                ) && header.take(j).no_duplicates();
            let i = choose|i: int| 0 <= i < j && header.take(j)[i] == name;
            assert(header[i] == header[j]);
        }
    }
}

/// A table that does not read says why: the reader's message about the header,
/// the first column whose name an earlier one bears, or the reader's message
/// about the first record that does not read.
pub proof fn unreadable_tables_say_why(delimiter: u8, coerce: bool, input: Seq<char>)
    ensures
        ({
            let s = without_bom(input);
            let rows = csv_rows(delimiter, s);
            table(delimiter, coerce, input) matches Err(e) ==> match csv_header(delimiter, s) {
                Err(m) => e == Fault::CsvError(m),
                Ok(header) => match e {
                    Fault::DuplicateHeader { header: name } => exists|j: int|
                        0 <= j < header.len() && #[trigger] header[j] == name && header.take(
                            j,
                        ).contains(name) && header.take(j).no_duplicates(),
                    Fault::CsvError(m) => header.no_duplicates() && exists|i: int|
                        0 <= i < rows.len() && #[trigger] rows[i] == Err::<Seq<Seq<char>>, Seq<char>>(
                            m,
                        ) && forall|j: int| 0 <= j < i ==> (#[trigger] rows[j]) is Ok,
                    _ => false,
                },
            }
        }),
{
    let s = without_bom(input);
    let rows = csv_rows(delimiter, s);
    lemma_records(rows, rows.len());
    if csv_header(delimiter, s) is Ok {
        let header = csv_header(delimiter, s)->Ok_0;
        lemma_repeats(header, header.len());
        assert(header.take(header.len() as int) =~= header);
    }
}

// ---------------------------------------------------------------------------
// Flags
// ---------------------------------------------------------------------------

/// Whether a finite binary64 number is an integer: its significand is a multiple
/// of the power of two that its exponent divides it by.
pub open spec fn is_whole_number(bits: u64) -> bool {
    let biased = (bits as int / 0x10_0000_0000_0000) % 0x800;
    let fraction = bits as int % 0x10_0000_0000_0000;
    let digits = if biased == 0 {
        fraction
    } else {
        fraction + 0x10_0000_0000_0000
    };
    let shift = if biased == 0 {
        1074
    } else {
        1075 - biased
    };
    shift <= 0 || digits % (pow2(shift as nat) as int) == 0
}

/// A text behind its minus sign, if it has one.
pub open spec fn past_minus(s: Seq<char>) -> Seq<char> {
    if s.len() > 0 && s[0] == '-' {
        s.skip(1)
    } else {
        s
    }
}

/// Whether the part of `s` before its first point, or all of it, is `n` long.
pub open spec fn ends_integer_part(s: Seq<char>, n: int) -> bool {
    &&& 0 <= n <= s.len()
    &&& forall|i: int| 0 <= i < n ==> #[trigger] s[i] != '.'
    &&& n < s.len() ==> s[n] == '.'
}

/// Whether a number's spelling says more than its value: a plus sign, an
/// exponent, a leading zero, more than 15 digits without a point, or a point in a
/// whole number.
pub open spec fn says_more_than_its_value(field: Seq<char>) -> bool {
    let t = trimmed(field);
    let unsigned = past_minus(t);
    ||| t.len() > 0 && t[0] == '+'
    ||| exists|i: int| 0 <= i < t.len() && (#[trigger] t[i] == 'e' || t[i] == 'E')
    ||| exists|n: int| #[trigger]
        ends_integer_part(unsigned, n) && (byte_len(unsigned.take(n)) > 1 && unsigned[0] == '0' || n
            == unsigned.len() && byte_len(unsigned.take(n)) > 15)
    ||| (exists|i: int| 0 <= i < t.len() && #[trigger] t[i] == '.') && (float_reading(
        field,
    ) matches Some(Some(number)) && is_whole_number(number.1))
}

proof fn lemma_spelling(field: Seq<char>)
    ensures
        may_be_lossy(field) <==> says_more_than_its_value(field),
{
    let t = trimmed(field);
    let unsigned = without_minus(t);
    if t.len() > 0 {
        assert(t.drop_first() =~= t.skip(1));
    }
    lemma_position(unsigned, '.');
    let n = position(unsigned, '.');
    let whole = unsigned.take(n);
    assert(t.contains('e') || t.contains('E') <==> exists|i: int|
        0 <= i < t.len() && (#[trigger] t[i] == 'e' || t[i] == 'E')) by {
        if t.contains('e') {
            let i = choose|i: int| 0 <= i < t.len() && t[i] == 'e';
            assert(t[i] == 'e');
        }
        if t.contains('E') {
            let i = choose|i: int| 0 <= i < t.len() && t[i] == 'E';
            assert(t[i] == 'E');
        }
    }
    assert(t.contains('.') <==> exists|i: int| 0 <= i < t.len() && #[trigger] t[i] == '.') by {
        if t.contains('.') {
            let i = choose|i: int| 0 <= i < t.len() && t[i] == '.';
            assert(t[i] == '.');
        }
    }
    assert(past_minus(t) == unsigned);
    assert(ends_integer_part(unsigned, n));
    if whole.len() > 0 {
        assert(whole[0] == unsigned[0]);
    } else {
        assert(whole =~= Seq::empty());
        assert(byte_len(whole) == 0);
    }
    assert forall|m: int| #[trigger] ends_integer_part(unsigned, m) implies m == n by {
        if m < n {
            assert(unsigned[m] != '.');
        }
        if n < m {
            assert(unsigned[n] != '.');
        }
    }
    assert(unsigned.take(n) == whole);
    assert(n == unsigned.len() <==> !unsigned.contains('.'));
    if float_reading(field) is Some && float_reading(field)->Some_0 is Some {
        let bits = float_reading(field)->Some_0->Some_0.1;
        assert(is_whole(bits) <==> is_whole_number(bits));
    }
}

/// The flags tell what coercion did: numbers were made exactly where some cell
/// became one, and something may be lost exactly where a number's spelling says
/// more than its value, or an integer was too large to become a number.
pub proof fn flags_tell_what_coercion_did(delimiter: u8, coerce: bool, input: Seq<char>)
    requires
        table(delimiter, coerce, input) is Ok,
    ensures
        ({
            let rows = csv_rows(delimiter, without_bom(input));
            let flags = table(delimiter, coerce, input)->Ok_0.1;
            &&& flags.numeric_coercion_used <==> coerce && exists|i: int, j: int|
                #![trigger rows[i]->Ok_0[j]]
                0 <= i < rows.len() && 0 <= j < rows[i]->Ok_0.len() && cell(
                    rows[i]->Ok_0[j],
                    true,
                ) is Number
            &&& flags.lossy_coercion_possible <==> coerce && exists|i: int, j: int|
                #![trigger rows[i]->Ok_0[j]]
                0 <= i < rows.len() && 0 <= j < rows[i]->Ok_0.len() && {
                    let field = rows[i]->Ok_0[j];
                    ||| cell(field, true) is Number && says_more_than_its_value(field)
                    ||| cell(field, true) is String && is_integer_text(field)
                }
        }),
{
    let rows = csv_rows(delimiter, without_bom(input));
    lemma_records(rows, rows.len());
    let all = records(rows, rows.len())->Ok_0;
    let flags = coercion_flags(all, coerce);
    assert forall|field: Seq<char>| #[trigger] is_lossy_field(field) <==> (cell(field, true)
        is Number && says_more_than_its_value(field) || cell(field, true) is String
        && is_integer_text(field)) by {
        lemma_spelling(field);
        lemma_integer_text(field);
    }
    assert forall|i: int| 0 <= i < rows.len() implies (#[trigger] rows[i])->Ok_0 == all[i] by {}
    if exists|i: int| 0 <= i < all.len() && has_number(#[trigger] all[i]) {
        let i = choose|i: int| 0 <= i < all.len() && has_number(#[trigger] all[i]);
        let j = choose|j: int| 0 <= j < all[i].len() && coercion(#[trigger] all[i][j]) is Number;
        assert(cell(rows[i]->Ok_0[j], true) is Number);
    }
    if exists|i: int| 0 <= i < all.len() && has_lossy(#[trigger] all[i]) {
        let i = choose|i: int| 0 <= i < all.len() && has_lossy(#[trigger] all[i]);
        let j = choose|j: int| 0 <= j < all[i].len() && is_lossy_field(#[trigger] all[i][j]);
        assert(is_lossy_field(rows[i]->Ok_0[j]));
    }
    assert forall|i: int, j: int|
        #![trigger rows[i]->Ok_0[j]]
        0 <= i < rows.len() && 0 <= j < rows[i]->Ok_0.len() && cell(
            rows[i]->Ok_0[j],
            true,
        ) is Number implies has_number(all[i]) by {
        assert(coercion(all[i][j]) is Number);
    }
    assert forall|i: int, j: int|
        #![trigger rows[i]->Ok_0[j]]
        0 <= i < rows.len() && 0 <= j < rows[i]->Ok_0.len() && (cell(
            rows[i]->Ok_0[j],
            true,
        ) is Number && says_more_than_its_value(rows[i]->Ok_0[j]) || cell(
            rows[i]->Ok_0[j],
            true,
        ) is String && is_integer_text(rows[i]->Ok_0[j])) implies has_lossy(all[i]) by {
        assert(is_lossy_field(all[i][j]));
    }
}

/// An inspection reads a table without looking at the names of its columns, and
/// where the table reads it reports the same flags. Without coercion only the
/// header has to read.
pub proof fn inspections_report_the_same_flags(delimiter: u8, coerce: bool, input: Seq<char>)
    ensures
        ({
            let s = without_bom(input);
            let rows = csv_rows(delimiter, s);
            &&& inspection(delimiter, coerce, input) is Ok <==> csv_header(delimiter, s) is Ok && (
            coerce ==> forall|i: int| 0 <= i < rows.len() ==> (#[trigger] rows[i]) is Ok)
            &&& table(delimiter, coerce, input) is Ok ==> inspection(delimiter, coerce, input)
                == Ok::<CsvCoercionMetadata, Fault>(table(delimiter, coerce, input)->Ok_0.1)
            &&& !coerce && inspection(delimiter, coerce, input) is Ok ==> !inspection(
                delimiter,
                coerce,
                input,
            )->Ok_0.numeric_coercion_used && !inspection(
                delimiter,
                coerce,
                input,
            )->Ok_0.lossy_coercion_possible
        }),
{
    let rows = csv_rows(delimiter, without_bom(input));
    lemma_records(rows, rows.len());
}

} // verus!
