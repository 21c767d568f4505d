//! CSV and TSV with numeric coercion.

use vstd::prelude::*;
use crate::bindings::{
    all_fields, csv_header, csv_rows, fields, float_reading, read_csv_header, read_csv_rows, read_float,
};
use crate::error::{CoreError, Fault};
use crate::number::{
    decimal, is_digit, is_whole, lemma_decimal_reads_back, parse_i64, read_digits, signed_decimal,
    signed_value, whole, DigitRun,
};
use crate::parser::{strip_bom, without_bom, Parser};
use crate::text::{
    byte_len, bytes_in, chars_of, contains_char, joined_by, lemma_position_at, position, same_text,
    text_between, texts, trim, trimmed,
};
use crate::value::{
    integer_number, lemma_container_model, member_models, models, Json, JsonValue, Num, Number,
};

verus! {

/// Metadata describing numeric coercion over a CSV or TSV input.
#[derive(Debug, Clone, Copy, PartialEq, Eq, Structural)]
pub struct CsvCoercionMetadata {
    /// Whether at least one field was coerced into a number.
    pub numeric_coercion_used: bool,
    /// Whether at least one number-like field has a spelling that a JSON number
    /// may not preserve.
    pub lossy_coercion_possible: bool,
}

/// Largest integer magnitude exactly representable in binary64 (2^53). Integer
/// literals beyond it stay text, so the exact digits survive consumers that
/// read JSON numbers as binary64.
pub const MAX_SAFE_INTEGER: u64 = 9_007_199_254_740_992;

/// The comma as a byte.
pub const COMMA: u8 = 0x2c;

/// The horizontal tab as a byte.
pub const TAB: u8 = 0x09;

/// What coercion makes of a field.
pub enum Coercion {
    /// The field becomes this number.
    Number(Num),
    /// The field is an integer literal too large to coerce; it stays text.
    PreservedInteger,
    /// The field is not numeric; it stays text.
    Text,
}

/// Whether `s` holds a decimal point or an exponent mark.
pub open spec fn has_float_mark(s: Seq<char>) -> bool {
    s.contains('.') || s.contains('e') || s.contains('E')
}

/// What coercion makes of a field: an integer literal within
/// [`MAX_SAFE_INTEGER`] first, then a binary64 number where the field carries a
/// decimal point or an exponent.
pub open spec fn coercion(field: Seq<char>) -> Coercion {
    match signed_value(field) {
        Some(i) if -MAX_SAFE_INTEGER <= i <= MAX_SAFE_INTEGER => Coercion::Number(
            integer_number(i),
        ),
        Some(_) => Coercion::PreservedInteger,
        None => if has_float_mark(trimmed(field)) {
            match float_reading(field) {
                Some(Some((text, _))) => Coercion::Number(Num::Float(text)),
                _ => Coercion::Text,
            }
        } else {
            Coercion::Text
        },
    }
}

/// `s` without a leading minus sign.
pub open spec fn without_minus(s: Seq<char>) -> Seq<char> {
    if s.len() > 0 && s[0] == '-' {
        s.drop_first()
    } else {
        s
    }
}

/// Whether a number may lose how its field was written: an explicit plus sign,
/// an exponent, leading zeros, more than 15 integer digits without a point, or
/// a decimal spelling of a whole number.
pub open spec fn may_be_lossy(field: Seq<char>) -> bool {
    let t = trimmed(field);
    let unsigned = without_minus(t);
    let integer_part = unsigned.take(position(unsigned, '.'));
    ||| t.len() > 0 && t[0] == '+'
    ||| t.contains('e')
    ||| t.contains('E')
    ||| byte_len(integer_part) > 1 && integer_part[0] == '0'
    ||| !unsigned.contains('.') && byte_len(integer_part) > 15
    ||| t.contains('.') && (float_reading(field) matches Some(Some((_, bits))) && is_whole(bits))
}

/// Executable form of a [`Coercion`].
enum FieldCoercion {
    Number(Number),
    PreservedInteger,
    Text,
}

impl View for FieldCoercion {
    type V = Coercion;

    closed spec fn view(&self) -> Coercion {
        match self {
            FieldCoercion::Number(n) => Coercion::Number(n@),
            FieldCoercion::PreservedInteger => Coercion::PreservedInteger,
            FieldCoercion::Text => Coercion::Text,
        }
    }
}

/// Whether `field` is an optionally signed run of ASCII digits.
pub fn is_integer_literal(field: &str) -> (r: bool)
    ensures
        r == (signed_value(field@) is Some),
{
    let chars = chars_of(field);
    let from: usize = if chars.len() > 0 && (chars[0] == '-' || chars[0] == '+') {
        1
    } else {
        0
    };
    proof {
        assert(field@.skip(0) =~= field@);
        if from == 1 {
            assert(field@.skip(1) =~= field@.drop_first());
        }
    }
    match read_digits(&chars, from) {
        DigitRun::Invalid => false,
        _ => true,
    }
}

/// Attempts numeric coercion of one field.
fn coerce_numeric_field(field: &str) -> (r: FieldCoercion)
    ensures
        r@ == coercion(field@),
{
    match parse_i64(field) {
        Some(i) => {
            if -(MAX_SAFE_INTEGER as i64) <= i && i <= MAX_SAFE_INTEGER as i64 {
                return FieldCoercion::Number(Number::from_i64(i));
            }
            return FieldCoercion::PreservedInteger;
        },
        None => {},
    }
    if is_integer_literal(field) {
        return FieldCoercion::PreservedInteger;
    }
    let t = chars_of(trim(field).as_str());
    assert(t@.subrange(0, t@.len() as int) =~= t@);
    if contains_char(&t, 0, t.len(), '.') || contains_char(&t, 0, t.len(), 'e') || contains_char(
        &t,
        0,
        t.len(),
        'E',
    ) {
        match read_float(field) {
            Some(Some((text, _))) => FieldCoercion::Number(Number::Float(text)),
            _ => FieldCoercion::Text,
        }
    } else {
        FieldCoercion::Text
    }
}

/// Whether coercing `field` may lose how it was written.
pub fn numeric_text_may_be_lossy(field: &str) -> (r: bool)
    ensures
        r == may_be_lossy(field@),
{
    let t = chars_of(trim(field).as_str());
    let n = t.len();
    assert(t@.subrange(0, n as int) =~= t@);
    if n > 0 && t[0] == '+' || contains_char(&t, 0, n, 'e') || contains_char(&t, 0, n, 'E') {
        return true;
    }
    let from: usize = if n > 0 && t[0] == '-' {
        1
    } else {
        0
    };
    let ghost unsigned = without_minus(t@);
    assert(t@.subrange(from as int, n as int) =~= unsigned);
    let pointed = contains_char(&t, from, n, '.');
    let mut end: usize = from;
    while end < n && t[end] != '.'
        invariant
            from <= end <= n,
            n == t@.len(),
            unsigned == t@.subrange(from as int, n as int),
            forall|j: int| 0 <= j < end - from ==> unsigned[j] != '.',
        decreases n - end,
    {
        assert(unsigned[end - from] == t@[end as int]);
        end = end + 1;
    }
    proof {
        lemma_position_at(unsigned, '.', end - from);
        assert(t@.subrange(from as int, end as int) =~= unsigned.take(end - from));
    }
    let integer_part = text_between(&t, from, end);
    let digits = bytes_in(integer_part.as_str());
    if digits > 1 && from < end && t[from] == '0' {
        return true;
    }
    proof {
        if from == end {
            assert(integer_part@ =~= Seq::empty());
            assert(byte_len(integer_part@) == 0);
        } else {
            assert(integer_part@[0] == t@[from as int]);
        }
    }
    if !pointed && digits > 15 {
        return true;
    }
    if contains_char(&t, 0, n, '.') {
        match read_float(field) {
            Some(Some((_, bits))) => whole(bits),
            _ => false,
        }
    } else {
        false
    }
}

/// The value of one cell.
pub open spec fn cell(field: Seq<char>, coerce: bool) -> Json {
    match coercion(field) {
        Coercion::Number(n) if coerce => Json::Number(n),
        _ => Json::String(field),
    }
}

/// The number of columns of a record under a header.
pub open spec fn columns(header: Seq<Seq<char>>, record: Seq<Seq<char>>) -> nat {
    if header.len() <= record.len() {
        header.len()
    } else {
        record.len()
    }
}

/// The object of one record: each header name with its cell.
pub open spec fn row(header: Seq<Seq<char>>, record: Seq<Seq<char>>, coerce: bool) -> Json {
    Json::Object(
        Seq::new(columns(header, record), |i: int| (header[i], cell(record[i], coerce))),
    )
}

/// Whether a value is an array of objects of scalars that all have the header's
/// names in the header's order.
pub open spec fn is_uniform(v: Json, header: Seq<Seq<char>>) -> bool {
    v matches Json::Array(items) && forall|i: int|
        0 <= i < items.len() ==> follows(#[trigger] items[i], header)
}

/// Whether a value is an object of scalars with the header's names in order.
pub open spec fn follows(v: Json, header: Seq<Seq<char>>) -> bool {
    v matches Json::Object(members) && members.len() == header.len() && forall|j: int|
        0 <= j < members.len() ==> (#[trigger] members[j]).0 == header[j] && !(members[j].1
            is Array) && !(members[j].1 is Object)
}

/// Whether some field of `record` is coerced into a number.
pub open spec fn has_number(record: Seq<Seq<char>>) -> bool {
    exists|i: int| 0 <= i < record.len() && coercion(#[trigger] record[i]) is Number
}

/// Whether coercing `field` raises the lossy flag.
pub open spec fn is_lossy_field(field: Seq<char>) -> bool {
    match coercion(field) {
        Coercion::Number(_) => may_be_lossy(field),
        Coercion::PreservedInteger => true,
        Coercion::Text => false,
    }
}

/// Whether some field of `record` raises the lossy flag.
pub open spec fn has_lossy(record: Seq<Seq<char>>) -> bool {
    exists|i: int| 0 <= i < record.len() && is_lossy_field(#[trigger] record[i])
}

/// The records of a read, up to the first that failed.
pub open spec fn records(rows: Seq<Result<Seq<Seq<char>>, Seq<char>>>, n: nat) -> Result<
    Seq<Seq<Seq<char>>>,
    Fault,
>
    decreases n,
{
    if n == 0 {
        Ok(Seq::empty())
    } else {
        match records(rows, (n - 1) as nat) {
            Err(e) => Err(e),
            Ok(done) => match rows[n - 1] {
                Ok(record) => Ok(done.push(record)),
                Err(m) => Err(Fault::CsvError(m)),
            },
        }
    }
}

/// The coercion metadata over a run of records.
pub open spec fn coercion_flags(all: Seq<Seq<Seq<char>>>, coerce: bool) -> CsvCoercionMetadata {
    CsvCoercionMetadata {
        numeric_coercion_used: coerce && exists|i: int|
            0 <= i < all.len() && has_number(#[trigger] all[i]),
        lossy_coercion_possible: coerce && exists|i: int|
            0 <= i < all.len() && has_lossy(#[trigger] all[i]),
    }
}

/// The first name, among the first `n`, that an earlier one equals.
pub open spec fn repeated_name(names: Seq<Seq<char>>, n: nat) -> Option<Seq<char>>
    decreases n,
{
    if n == 0 {
        None
    } else {
        match repeated_name(names, (n - 1) as nat) {
            Some(name) => Some(name),
            None => if names.take(n - 1).contains(names[n - 1]) {
                Some(names[n - 1])
            } else {
                None
            },
        }
    }
}

/// What a table parse returns: the rows as objects with the coercion metadata.
pub open spec fn table(delimiter: u8, coerce: bool, input: Seq<char>) -> Result<
    (Json, CsvCoercionMetadata),
    Fault,
> {
    let s = without_bom(input);
    let rows = csv_rows(delimiter, s);
    match csv_header(delimiter, s) {
        Err(m) => Err(Fault::CsvError(m)),
        Ok(header) => match repeated_name(header, header.len()) {
            Some(name) => Err(Fault::DuplicateHeader { header: name }),
            None => match records(rows, rows.len()) {
                Err(e) => Err(e),
                Ok(all) => Ok(
                    (
                        Json::Array(Seq::new(all.len(), |i: int| row(header, all[i], coerce))),
                        coercion_flags(all, coerce),
                    ),
                ),
            },
        },
    }
}

/// What an inspection for coercion returns. Without coercion only the header is
/// read.
pub open spec fn inspection(delimiter: u8, coerce: bool, input: Seq<char>) -> Result<
    CsvCoercionMetadata,
    Fault,
> {
    let s = without_bom(input);
    let rows = csv_rows(delimiter, s);
    match csv_header(delimiter, s) {
        Err(m) => Err(Fault::CsvError(m)),
        Ok(_) => if !coerce {
            Ok(coercion_flags(Seq::empty(), false))
        } else {
            match records(rows, rows.len()) {
                Err(e) => Err(e),
                Ok(all) => Ok(coercion_flags(all, true)),
            }
        },
    }
}

// ---------------------------------------------------------------------------
// Plain tables
// ---------------------------------------------------------------------------

/// The delimiter of CSV and TSV as a character.
pub open spec fn delimiter_char(delimiter: u8) -> char {
    if delimiter == TAB {
        '\t'
    } else {
        ','
    }
}

/// Whether a field stands in a table as it is: not empty, and without a
/// character that the format gives a meaning.
pub open spec fn is_plain_field(field: Seq<char>, delimiter: u8) -> bool {
    &&& field.len() > 0
    &&& forall|i: int|
        0 <= i < field.len() ==> #[trigger] field[i] != delimiter_char(delimiter) && field[i] != '"'
            && field[i] != '\r' && field[i] != '\n' && field[i] != '\u{feff}'
}

/// Whether the records, the header first, form a table of plain fields: CSV or
/// TSV, at least one column, all records of one length.
pub open spec fn is_plain_table(all: Seq<Seq<Seq<char>>>, delimiter: u8) -> bool {
    &&& delimiter == COMMA || delimiter == TAB
    &&& all.len() > 0
    &&& all[0].len() > 0
    &&& forall|i: int|
        #![trigger all[i]]
        0 <= i < all.len() ==> all[i].len() == all[0].len() && forall|j: int|
            0 <= j < all[i].len() ==> is_plain_field(#[trigger] all[i][j], delimiter)
}

/// The text of a table of plain fields: fields joined by the delimiter, records
/// by line feeds.
pub open spec fn table_text(all: Seq<Seq<Seq<char>>>, delimiter: u8) -> Seq<char> {
    joined_by(
        all.map_values(|record: Seq<Seq<char>>| joined_by(record, delimiter_char(delimiter))),
        '\n',
    )
}

/// The data records of a table, each read without a fault.
pub open spec fn data_records(all: Seq<Seq<Seq<char>>>) -> Seq<
    Result<Seq<Seq<char>>, Seq<char>>,
> {
    Seq::new((all.len() - 1) as nat, |i: int| Ok(all[i + 1]))
}

/// The value of a table of plain fields: one object per data record.
pub open spec fn table_value(all: Seq<Seq<Seq<char>>>, coerce: bool) -> Json {
    Json::Array(Seq::new((all.len() - 1) as nat, |i: int| row(all[0], all[i + 1], coerce)))
}

/// Whether the parse of `input` gives back the table that it is the text of,
/// should its fields be plain and its columns distinct.
pub open spec fn keeps_plain_tables(delimiter: u8, coerce: bool, input: Seq<char>) -> bool {
    forall|all: Seq<Seq<Seq<char>>>| #[trigger]
        is_plain_table(all, delimiter) && all[0].no_duplicates() && without_bom(input)
            == table_text(all, delimiter) ==> (table(delimiter, coerce, input) matches Ok(t) && t.0
            == table_value(all, coerce))
}

/// The records of a table of integers under a header.
pub open spec fn integer_records(header: Seq<Seq<char>>, rows: Seq<Seq<int>>) -> Seq<
    Seq<Seq<char>>,
> {
    seq![header] + rows.map_values(
        |cells: Seq<int>| cells.map_values(|i: int| signed_decimal(i)),
    )
}

/// Whether these are the columns and rows of a table of integers that numbers
/// keep exactly: distinct plain names, and a cell of at most
/// [`MAX_SAFE_INTEGER`] in magnitude for each.
pub open spec fn is_integer_table(
    header: Seq<Seq<char>>,
    rows: Seq<Seq<int>>,
    delimiter: u8,
) -> bool {
    &&& delimiter == COMMA || delimiter == TAB
    &&& header.len() > 0
    &&& header.no_duplicates()
    &&& forall|j: int| 0 <= j < header.len() ==> is_plain_field(#[trigger] header[j], delimiter)
    &&& forall|i: int|
        #![trigger rows[i]]
        0 <= i < rows.len() ==> rows[i].len() == header.len() && forall|j: int|
            0 <= j < rows[i].len() ==> -MAX_SAFE_INTEGER <= #[trigger] rows[i][j]
                <= MAX_SAFE_INTEGER
}

/// The value of a table of integers: one object per row, each cell the number
/// that was written.
pub open spec fn integer_table_value(header: Seq<Seq<char>>, rows: Seq<Seq<int>>) -> Json {
    Json::Array(
        Seq::new(
            rows.len(),
            |i: int|
                Json::Object(
                    Seq::new(
                        header.len(),
                        |j: int| (header[j], Json::Number(integer_number(rows[i][j]))),
                    ),
                ),
        ),
    )
}

/// An integer cell keeps its value: written in decimal, an integer up to 2^53 in
/// magnitude becomes exactly that number, and a larger one keeps its digits.
pub proof fn integer_cells_keep_their_value(i: int)
    ensures
        -MAX_SAFE_INTEGER <= i <= MAX_SAFE_INTEGER ==> cell(signed_decimal(i), true)
            == Json::Number(integer_number(i)),
        !(-MAX_SAFE_INTEGER <= i <= MAX_SAFE_INTEGER) ==> cell(signed_decimal(i), true)
            == Json::String(signed_decimal(i)),
{
    let magnitude = if i < 0 {
        (-i) as nat
    } else {
        i as nat
    };
    lemma_decimal_reads_back(magnitude);
    let digits = decimal(magnitude);
    let text = signed_decimal(i);
    assert(is_digit(digits[0]));
    if i < 0 {
        assert(text.drop_first() =~= digits);
        assert(text[0] == '-');
    }
    assert(signed_value(text) == Some(i));
}

/// Reading data records without faults gives them all.
proof fn lemma_data_records(all: Seq<Seq<Seq<char>>>, n: nat)
    requires
        n < all.len(),
    ensures
        records(data_records(all), n) == Ok::<Seq<Seq<Seq<char>>>, Fault>(
            all.subrange(1, n as int + 1),
        ),
    decreases n,
{
    if n == 0 {
        assert(all.subrange(1, 1) =~= Seq::empty());
    } else {
        lemma_data_records(all, (n - 1) as nat);
        assert(all.subrange(1, n as int).push(all[n as int]) =~= all.subrange(1, n as int + 1));
    }
}

/// Of distinct names none is repeated.
proof fn lemma_no_repeat(names: Seq<Seq<char>>, n: nat)
    requires
        names.no_duplicates(),
        n <= names.len(),
    ensures
        repeated_name(names, n) is None,
    decreases n,
{
    if n > 0 {
        lemma_no_repeat(names, (n - 1) as nat);
        let earlier = names.take(n - 1);
        if earlier.contains(names[n - 1]) {
            let i = choose|i: int| 0 <= i < earlier.len() && earlier[i] == names[n - 1];
            assert(names[i] == names[n - 1]);
        }
    }
}

/// What a table parse makes of a plain table, given what the reader finds in it.
proof fn lemma_plain_table(
    delimiter: u8,
    coerce: bool,
    input: Seq<char>,
    all: Seq<Seq<Seq<char>>>,
)
    requires
        all.len() > 0,
        all[0].no_duplicates(),
        csv_header(delimiter, without_bom(input)) == Ok::<Seq<Seq<char>>, Seq<char>>(all[0]),
        csv_rows(delimiter, without_bom(input)) == data_records(all),
    ensures
        table(delimiter, coerce, input) matches Ok(t) && t.0 == table_value(all, coerce),
{
    lemma_no_repeat(all[0], all[0].len());
    lemma_data_records(all, (all.len() - 1) as nat);
    let found = table(delimiter, coerce, input)->Ok_0.0;
    assert(found->Array_0 =~= table_value(all, coerce)->Array_0);
}

proof fn lemma_integer_field(i: int, delimiter: u8)
    requires
        delimiter == COMMA || delimiter == TAB,
    ensures
        is_plain_field(signed_decimal(i), delimiter),
{
    let magnitude = if i < 0 {
        (-i) as nat
    } else {
        i as nat
    };
    lemma_decimal_reads_back(magnitude);
    let digits = decimal(magnitude);
    let text = signed_decimal(i);
    assert forall|k: int| 0 <= k < text.len() implies (is_digit(#[trigger] text[k]) || text[k]
        == '-') by {
        if i < 0 {
            if k > 0 {
                assert(text[k] == digits[k - 1]);
            }
        }
    }
}

/// A table of integers is a plain table, and its value is that of the numbers.
proof fn lemma_integer_table(header: Seq<Seq<char>>, rows: Seq<Seq<int>>, delimiter: u8)
    requires
        is_integer_table(header, rows, delimiter),
    ensures
        is_plain_table(integer_records(header, rows), delimiter),
        integer_records(header, rows)[0] == header,
        table_value(integer_records(header, rows), true) == integer_table_value(header, rows),
{
    let all = integer_records(header, rows);
    assert(all[0] == header);
    assert forall|i: int| #![trigger all[i]] 0 <= i < all.len() implies all[i].len()
        == all[0].len() && forall|j: int|
        0 <= j < all[i].len() ==> is_plain_field(#[trigger] all[i][j], delimiter) by {
        if i > 0 {
            let cells = rows[i - 1];
            assert forall|j: int| 0 <= j < all[i].len() implies is_plain_field(
                #[trigger] all[i][j],
                delimiter,
            ) by {
                assert(all[i][j] == signed_decimal(cells[j]));
                lemma_integer_field(cells[j], delimiter);
            }
        }
    }
    let left = table_value(all, true)->Array_0;
    let right = integer_table_value(header, rows)->Array_0;
    assert forall|i: int| 0 <= i < left.len() implies left[i] == right[i] by {
        let cells = rows[i];
        let (a, b) = (left[i]->Object_0, right[i]->Object_0);
        assert(all[i + 1].len() == header.len());
        assert forall|j: int| 0 <= j < a.len() implies a[j] == b[j] by {
            assert(all[i + 1][j] == signed_decimal(cells[j]));
            assert(-MAX_SAFE_INTEGER <= rows[i][j] <= MAX_SAFE_INTEGER);
            integer_cells_keep_their_value(cells[j]);
        }
        assert(a =~= b);
    }
    assert(left =~= right);
}

/// A failure on an early record is the failure of the whole read.
pub proof fn lemma_record_failure_stays(
    rows: Seq<Result<Seq<Seq<char>>, Seq<char>>>,
    n: nat,
    m: nat,
)
    requires
        n <= m,
        records(rows, n) is Err,
    ensures
        records(rows, m) == records(rows, n),
    decreases m,
{
    if n < m {
        lemma_record_failure_stays(rows, n, (m - 1) as nat);
    }
}

/// A repeated name stays the first repeated one.
proof fn lemma_repeat_stays(names: Seq<Seq<char>>, n: nat, m: nat)
    requires
        n <= m,
        repeated_name(names, n) is Some,
    ensures
        repeated_name(names, m) == repeated_name(names, n),
    decreases m,
{
    if n < m {
        lemma_repeat_stays(names, n, (m - 1) as nat);
    }
}

/// Finds [`repeated_name`].
fn find_repeated(names: &Vec<String>) -> (r: Option<String>)
    ensures
        match r {
            Some(name) => repeated_name(texts(names@), names@.len()) == Some(name@),
            None => repeated_name(texts(names@), names@.len()) is None,
        },
{
    let ghost all = texts(names@);
    let mut n: usize = 0;
    while n < names.len()
        invariant
            0 <= n <= names@.len(),
            all == texts(names@),
            repeated_name(all, n as nat) is None,
        decreases names@.len() - n,
    {
        let mut i: usize = 0;
        while i < n
            invariant
                0 <= i <= n < names@.len(),
                all == texts(names@),
                repeated_name(all, n as nat) is None,
                forall|j: int| 0 <= j < i ==> all[j] != all[n as int],
            decreases n - i,
        {
            assert(all[i as int] == names@[i as int]@);
            assert(all[n as int] == names@[n as int]@);
            if same_text(names[i].as_str(), names[n].as_str()) {
                proof {
                    assert(all.take(n as int)[i as int] == all[n as int]);
                    lemma_repeat_stays(all, (n + 1) as nat, all.len());
                }
                return Some(names[n].clone());
            }
            i = i + 1;
        }
        assert(!all.take(n as int).contains(all[n as int])) by {
            assert forall|j: int| 0 <= j < n implies all.take(n as int)[j] != all[n as int] by {
                assert(all.take(n as int)[j] == all[j]);
            }
        }
        n = n + 1;
    }
    None
}

/// Parses CSV or TSV input into an array of objects.
///
/// The first record is the header. Each later record becomes an object whose
/// keys are the header names. Fields that read as integers become integer
/// numbers, and fields with a decimal point or an exponent become binary64
/// numbers; integer literals beyond [`MAX_SAFE_INTEGER`] stay text.
pub struct CsvParser {
    /// The field delimiter byte (`b','` for CSV, `b'\t'` for TSV).
    delimiter: u8,
    /// Whether numeric-looking fields become numbers. When `false`, every field
    /// stays text.
    numeric_coercion: bool,
}

impl CsvParser {
    /// The field delimiter.
    pub closed spec fn delimiter_byte(&self) -> u8 {
        self.delimiter
    }

    /// Whether numeric-looking fields become numbers.
    pub closed spec fn coerces(&self) -> bool {
        self.numeric_coercion
    }

    /// Create a parser with the given field delimiter and coercion enabled.
    pub fn new(delimiter: u8) -> (r: Self)
        ensures
            r.delimiter_byte() == delimiter,
            r.coerces(),
    {
        Self { delimiter, numeric_coercion: true }
    }

    /// Create a CSV parser (comma delimiter).
    pub fn csv() -> (r: Self)
        ensures
            r.delimiter_byte() == COMMA,
            r.coerces(),
    {
        Self::new(COMMA)
    }

    /// Create a TSV parser (tab delimiter).
    pub fn tsv() -> (r: Self)
        ensures
            r.delimiter_byte() == TAB,
            r.coerces(),
    {
        Self::new(TAB)
    }

    /// Toggle numeric coercion.
    pub fn with_numeric_coercion(self, enabled: bool) -> (r: Self)
        ensures
            r.delimiter_byte() == self.delimiter_byte(),
            r.coerces() == enabled,
    {
        Self { delimiter: self.delimiter, numeric_coercion: enabled }
    }

    /// Inspect `input` for numeric coercion without producing values.
    pub fn coercion_metadata(&self, input: &str) -> (r: Result<CsvCoercionMetadata, CoreError>)
        ensures
            match r {
                Ok(m) => inspection(self.delimiter_byte(), self.coerces(), input@) == Ok::<
                    CsvCoercionMetadata,
                    Fault,
                >(m),
                Err(e) => inspection(self.delimiter_byte(), self.coerces(), input@) == Err::<
                    CsvCoercionMetadata,
                    Fault,
                >(e@),
            },
    {
        let body = strip_bom(input);
        match read_csv_header(self.delimiter, body) {
            Ok(_) => {},
            Err(m) => {
                return Err(CoreError::CsvError(m));
            },
        }
        if !self.numeric_coercion {
            return Ok(
                CsvCoercionMetadata {
                    numeric_coercion_used: false,
                    lossy_coercion_possible: false,
                },
            );
        }
        let rows = read_csv_rows(self.delimiter, body, None);
        let ghost named = csv_rows(self.delimiter, body@);
        let mut used: bool = false;
        let mut lossy: bool = false;
        let ghost mut done: Seq<Seq<Seq<char>>> = Seq::empty();
        let mut i: usize = 0;
        while i < rows.len()
            invariant
                0 <= i <= rows@.len(),
                all_fields(rows@) == named,
                records(named, i as nat) == Ok::<Seq<Seq<Seq<char>>>, Fault>(done),
                used == coercion_flags(done, true).numeric_coercion_used,
                lossy == coercion_flags(done, true).lossy_coercion_possible,
                named == csv_rows(self.delimiter, without_bom(input@)),
                csv_header(self.delimiter, without_bom(input@)) is Ok,
                self.numeric_coercion,
            decreases rows@.len() - i,
        {
            assert(named[i as int] == fields(rows@[i as int]));
            match &rows[i] {
                Err(m) => {
                    proof {
                        lemma_record_failure_stays(named, (i + 1) as nat, named.len());
                    }
                    return Err(CoreError::CsvError(m.clone()));
                },
                Ok(record) => {
                    let flags = record_flags(record);
                    proof {
                        lemma_flags_push(done, texts(record@), true);
                        done = done.push(texts(record@));
                    }
                    used = used || flags.0;
                    lossy = lossy || flags.1;
                },
            }
            i = i + 1;
        }
        Ok(CsvCoercionMetadata { numeric_coercion_used: used, lossy_coercion_possible: lossy })
    }

    /// Parse `input` and collect the coercion metadata in the same pass.
    pub fn parse_with_coercion_metadata(&self, input: &str) -> (r: Result<
        (JsonValue, CsvCoercionMetadata),
        CoreError,
    >)
        ensures
            match r {
                Ok(t) => {
                    &&& table(self.delimiter_byte(), self.coerces(), input@) == Ok::<
                        (Json, CsvCoercionMetadata),
                        Fault,
                    >((t.0@, t.1))
                    &&& is_uniform(
                        t.0@,
                        csv_header(self.delimiter_byte(), without_bom(input@))->Ok_0,
                    )
                },
                Err(e) => {
                    &&& table(self.delimiter_byte(), self.coerces(), input@) == Err::<
                        (Json, CsvCoercionMetadata),
                        Fault,
                    >(e@)
                    &&& e is CsvError || e is DuplicateHeader
                },
            },
            keeps_plain_tables(self.delimiter_byte(), self.coerces(), input@),
    {
        let body = strip_bom(input);
        let header = match read_csv_header(self.delimiter, body) {
            Ok(header) => header,
            Err(m) => {
                return Err(CoreError::CsvError(m));
            },
        };
        match find_repeated(&header) {
            Some(name) => {
                proof {
                    assert forall|all: Seq<Seq<Seq<char>>>| #[trigger]
                        is_plain_table(all, self.delimiter) && without_bom(input@) == table_text(
                            all,
                            self.delimiter,
                        ) implies !all[0].no_duplicates() by {
                        if all[0].no_duplicates() {
                            lemma_no_repeat(all[0], all[0].len());
                        }
                    }
                }
                return Err(CoreError::DuplicateHeader { header: name });
            },
            None => {},
        }
        let rows = read_csv_rows(self.delimiter, body, None);
        let ghost named = csv_rows(self.delimiter, body@);
        proof {
            assert forall|all: Seq<Seq<Seq<char>>>| #[trigger]
                is_plain_table(all, self.delimiter) && all[0].no_duplicates() && without_bom(input@)
                    == table_text(all, self.delimiter) implies (table(
                self.delimiter,
                self.numeric_coercion,
                input@,
            ) matches Ok(t) && t.0 == table_value(all, self.numeric_coercion)) by {
                lemma_plain_table(self.delimiter, self.numeric_coercion, input@, all);
            }
        }
        let mut values: Vec<JsonValue> = Vec::new();
        let mut used: bool = false;
        let mut lossy: bool = false;
        let ghost mut done: Seq<Seq<Seq<char>>> = Seq::empty();
        let mut i: usize = 0;
        while i < rows.len()
            invariant
                0 <= i <= rows@.len(),
                all_fields(rows@) == named,
                named == csv_rows(self.delimiter, without_bom(input@)),
                csv_header(self.delimiter, without_bom(input@)) == Ok::<
                    Seq<Seq<char>>,
                    Seq<char>,
                >(texts(header@)),
                repeated_name(texts(header@), header@.len()) is None,
                forall|j: int|
                    0 <= j < rows@.len() && (#[trigger] rows@[j]) is Ok ==> rows@[j]->Ok_0@.len()
                        == header@.len(),
                records(named, i as nat) == Ok::<Seq<Seq<Seq<char>>>, Fault>(done),
                done.len() == i,
                models(values@) == Seq::new(
                    done.len(),
                    |k: int| row(texts(header@), done[k], self.numeric_coercion),
                ),
                forall|k: int|
                    0 <= k < models(values@).len() ==> follows(
                        #[trigger] models(values@)[k],
                        texts(header@),
                    ),
                used == coercion_flags(done, self.numeric_coercion).numeric_coercion_used,
                lossy == coercion_flags(done, self.numeric_coercion).lossy_coercion_possible,
                keeps_plain_tables(self.delimiter, self.numeric_coercion, input@),
            decreases rows@.len() - i,
        {
            assert(named[i as int] == fields(rows@[i as int]));
            match &rows[i] {
                Err(m) => {
                    proof {
                        lemma_record_failure_stays(named, (i + 1) as nat, named.len());
                    }
                    return Err(CoreError::CsvError(m.clone()));
                },
                Ok(record) => {
                    let value = read_row(&header, record, self.numeric_coercion);
                    let flags = if self.numeric_coercion {
                        record_flags(record)
                    } else {
                        (false, false)
                    };
                    let ghost before = models(values@);
                    let ghost earlier = done;
                    proof {
                        lemma_flags_push(done, texts(record@), self.numeric_coercion);
                        done = done.push(texts(record@));
                    }
                    used = used || flags.0;
                    lossy = lossy || flags.1;
                    values.push(value);
                    proof {
                        assert(models(values@) =~= before.push(value@));
                        assert(texts(record@).len() == texts(header@).len());
                        assert(follows(value@, texts(header@)));
                        assert(models(values@) =~= Seq::new(
                            done.len(),
                            |k: int| row(texts(header@), done[k], self.numeric_coercion),
                        ));
                    }
                },
            }
            i = i + 1;
        }
        let tree = JsonValue::Array(values);
        proof {
            lemma_container_model(tree);
        }
        Ok(
            (
                tree,
                CsvCoercionMetadata { numeric_coercion_used: used, lossy_coercion_possible: lossy },
            ),
        )
    }
}

impl Parser for CsvParser {
    open spec fn reads(&self, input: Seq<char>) -> Result<Json, Fault> {
        match table(self.delimiter_byte(), self.coerces(), input) {
            Ok(t) => Ok(t.0),
            Err(e) => Err(e),
        }
    }

    fn parse(&self, input: &str) -> (r: Result<JsonValue, CoreError>)
        ensures
            r matches Err(e) ==> e is CsvError || e is DuplicateHeader,
            forall|header: Seq<Seq<char>>, rows: Seq<Seq<int>>| #[trigger]
                is_integer_table(header, rows, self.delimiter_byte()) && self.coerces()
                    && without_bom(input@) == table_text(
                    integer_records(header, rows),
                    self.delimiter_byte(),
                ) ==> (r matches Ok(v) && v@ == integer_table_value(header, rows)),
    {
        proof {
            assert forall|header: Seq<Seq<char>>, rows: Seq<Seq<int>>| #[trigger]
                is_integer_table(header, rows, self.delimiter_byte()) implies is_plain_table(
                integer_records(header, rows),
                self.delimiter_byte(),
            ) && integer_records(header, rows)[0] == header && table_value(
                integer_records(header, rows),
                true,
            ) == integer_table_value(header, rows) by {
                lemma_integer_table(header, rows, self.delimiter_byte());
            }
        }
        match self.parse_with_coercion_metadata(input) {
            Ok(t) => Ok(t.0),
            Err(e) => Err(e),
        }
    }
}

/// Whether the fields of a record raise the two flags.
fn record_flags(record: &Vec<String>) -> (r: (bool, bool))
    ensures
        r.0 == has_number(texts(record@)),
        r.1 == has_lossy(texts(record@)),
{
    let ghost all = texts(record@);
    let mut used: bool = false;
    let mut lossy: bool = false;
    let mut i: usize = 0;
    while i < record.len()
        invariant
            0 <= i <= record@.len(),
            all == texts(record@),
            used == exists|j: int| 0 <= j < i && coercion(#[trigger] all[j]) is Number,
            lossy == exists|j: int| 0 <= j < i && is_lossy_field(#[trigger] all[j]),
        decreases record@.len() - i,
    {
        let field = record[i].as_str();
        let ghost k = i as int;
        assert(all[k] == field@);
        match coerce_numeric_field(field) {
            FieldCoercion::Number(_) => {
                assert(coercion(all[k]) is Number);
                used = true;
                if numeric_text_may_be_lossy(field) {
                    assert(is_lossy_field(all[k]));
                    lossy = true;
                }
            },
            FieldCoercion::PreservedInteger => {
                assert(is_lossy_field(all[k]));
                lossy = true;
            },
            FieldCoercion::Text => {},
        }
        i = i + 1;
    }
    (used, lossy)
}

/// Builds the object of one record.
fn read_row(header: &Vec<String>, record: &Vec<String>, coerce: bool) -> (r: JsonValue)
    requires
        header@.len() == record@.len(),
    ensures
        r@ == row(texts(header@), texts(record@), coerce),
{
    let ghost want = row(texts(header@), texts(record@), coerce)->Object_0;
    let mut members: Vec<(String, JsonValue)> = Vec::new();
    let mut i: usize = 0;
    while i < header.len()
        invariant
            0 <= i <= header@.len(),
            header@.len() == record@.len(),
            want == row(texts(header@), texts(record@), coerce)->Object_0,
            member_models(members@) =~= want.take(i as int),
        decreases header@.len() - i,
    {
        let field = record[i].as_str();
        let value = if coerce {
            match coerce_numeric_field(field) {
                FieldCoercion::Number(n) => JsonValue::Number(n),
                _ => JsonValue::String(field.to_owned()),
            }
        } else {
            JsonValue::String(field.to_owned())
        };
        let ghost before = member_models(members@);
        let key = header[i].clone();
        assert(value@ == cell(texts(record@)[i as int], coerce));
        members.push((key, value));
        assert(member_models(members@) =~= before.push((texts(header@)[i as int], value@)));
        i = i + 1;
    }
    let tree = JsonValue::Object(members);
    proof {
        lemma_container_model(tree);
        assert(member_models(members@) =~= want);
    }
    tree
}

/// One more record raises a flag exactly where it raises the flag itself.
proof fn lemma_flags_push(all: Seq<Seq<Seq<char>>>, record: Seq<Seq<char>>, coerce: bool)
    ensures
        coercion_flags(all.push(record), coerce).numeric_coercion_used == (coercion_flags(
            all,
            coerce,
        ).numeric_coercion_used || coerce && has_number(record)),
        coercion_flags(all.push(record), coerce).lossy_coercion_possible == (coercion_flags(
            all,
            coerce,
        ).lossy_coercion_possible || coerce && has_lossy(record)),
{
    let more = all.push(record);
    assert(more[all.len() as int] == record);
    assert forall|i: int| 0 <= i < all.len() implies #[trigger] more[i] == all[i] by {}
    if exists|i: int| 0 <= i < all.len() && has_number(#[trigger] all[i]) {
        let i = choose|i: int| 0 <= i < all.len() && has_number(#[trigger] all[i]);
        assert(has_number(more[i]));
    }
    if exists|i: int| 0 <= i < all.len() && has_lossy(#[trigger] all[i]) {
        let i = choose|i: int| 0 <= i < all.len() && has_lossy(#[trigger] all[i]);
        assert(has_lossy(more[i]));
    }
}

} // verus!
