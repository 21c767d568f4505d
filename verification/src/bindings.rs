//! The calls into the JSON, CSV, TOON, calendar and hash crates.
//!
//! Every function here makes one outside call and converts its arguments and
//! result; the TOON decoder, which can panic, runs on a thread of tokio's
//! blocking pool. What an outside function returns is named by a spec function, so
//! that callers can state their own results over it.

use vstd::prelude::*;
use crate::compressor::Delimiter;
use crate::detector::opens_container;
use crate::logging::calendar::{day_of, epoch_day, in_calendar, is_date};
use crate::parser::compact::{compact, denotes, is_plain_tree, reads_compact};
use crate::parser::csv::{data_records, is_plain_table, table_text};
use crate::text::{optional, texts};
use crate::value::{Json, Number, JsonValue};

verus! {

/// A result whose failure is described by a message.
pub open spec fn outcome<T: View>(r: Result<T, String>) -> Result<T::V, Seq<char>> {
    match r {
        Ok(v) => Ok(v@),
        Err(e) => Err(e@),
    }
}

/// The JSON tree type of `serde_json`, opaque to the proofs.
#[verifier::external_type_specification]
#[verifier::external_body]
pub struct ExJsonValue(serde_json::Value);

/// Rebuilds a [`JsonValue`] from a `serde_json` tree, variant by variant. A number
/// is read through `as_u64` and `as_i64`, and a float through its `Display`
/// text, which `serde_json` prints as the shortest decimal that reads back as
/// the same number. Nothing is claimed of the result here: the readers below
/// name what they return.
#[verifier::external_body]
fn value_of(tree: serde_json::Value) -> JsonValue {
    match tree {
        serde_json::Value::Null => JsonValue::Null,
        serde_json::Value::Bool(b) => JsonValue::Bool(b),
        serde_json::Value::Number(n) => JsonValue::Number(
            match (n.as_u64(), n.as_i64()) {
                (Some(u), _) => Number::PosInt(u),
                (None, Some(i)) => Number::NegInt(i),
                (None, None) => Number::Float(n.to_string()),
            },
        ),
        serde_json::Value::String(s) => JsonValue::String(s),
        serde_json::Value::Array(a) => JsonValue::Array(a.into_iter().map(value_of).collect()),
        serde_json::Value::Object(m) => JsonValue::Object(m.into_iter().map(|(k, v)| (k, value_of(v))).collect()),
    }
}

/// Rebuilds a `serde_json` tree from a [`JsonValue`], variant by variant. A float
/// is read back from its decimal text.
#[verifier::external_body]
fn tree_of(value: &JsonValue) -> serde_json::Value {
    match value {
        JsonValue::Null => serde_json::Value::Null,
        JsonValue::Bool(b) => serde_json::Value::Bool(*b),
        JsonValue::Number(Number::PosInt(u)) => serde_json::Value::from(*u),
        JsonValue::Number(Number::NegInt(i)) => serde_json::Value::from(*i),
        JsonValue::Number(Number::Float(t)) => t.parse().ok().and_then(serde_json::Number::from_f64).into(),
        JsonValue::String(s) => serde_json::Value::String(s.clone()),
        JsonValue::Array(a) => a.iter().map(tree_of).collect(),
        JsonValue::Object(m) => m.iter().map(|(k, v)| (k.clone(), tree_of(v))).collect(),
    }
}

/// Whether `serde_json` finds `text` to be one JSON document when it skips
/// over its contents.
pub uninterp spec fn json_accepts(text: Seq<char>) -> bool;

/// `serde_json::from_str` into `serde::de::IgnoredAny`: succeeds exactly on
/// the texts named by [`json_accepts`].
#[verifier::external_body]
pub(crate) fn json_is_valid(text: &str) -> (r: bool)
    ensures
        r == json_accepts(text@),
{
    serde_json::from_str::<serde::de::IgnoredAny>(text).is_ok()
}

/// The tree that `serde_json` reads from `text`, or its error message. An
/// object keeps the last of several members with one name.
pub uninterp spec fn json_reading(text: Seq<char>) -> Result<Json, Seq<char>>;

/// `serde_json::from_str` into `serde_json::Value`: the tree, or the error's
/// `Display` text, as named by [`json_reading`]. A document that opens with a
/// bracket or a brace is read as an array or an object. The compact text of a
/// tree of integers, nested less than 128 deep and with distinct names, is read
/// as that tree.
#[verifier::external_body]
pub(crate) fn read_json(text: &str) -> (r: Result<JsonValue, String>)
    ensures
        outcome(r) == json_reading(text@),
        r matches Ok(v) ==> opens_container(text@) ==> v@ is Array || v@ is Object,
        reads_compact(outcome(r), text@),
{
    serde_json::from_str::<serde_json::Value>(text).map(value_of).map_err(|e| e.to_string())
}

/// The string that the JSON string literal `text` denotes.
pub uninterp spec fn json_string(text: Seq<char>) -> Option<Seq<char>>;

/// `serde_json::from_str` into `String`: the denoted string as named by
/// [`json_string`], or nothing where `text` is no JSON string. A literal with
/// the escapes of compact JSON denotes the text that was escaped.
#[verifier::external_body]
pub(crate) fn read_json_string(text: &str) -> (r: Option<String>)
    ensures
        optional(r) == json_string(text@),
        denotes(optional(r), text@),
{
    serde_json::from_str::<String>(text).ok()
}

/// The compact JSON text that `serde_json` prints for a tree.
pub uninterp spec fn json_text(value: Json) -> Seq<char>;

/// `Display` of `serde_json::Value`: compact JSON, as named by [`json_text`],
/// and spelled out for trees of integers.
#[verifier::external_body]
pub(crate) fn write_json(value: &JsonValue) -> (r: String)
    ensures
        r@ == json_text(value@),
        is_plain_tree(value@) ==> r@ == compact(value@),
{
    tree_of(value).to_string()
}

/// What the standard library's binary64 parser makes of `text`: nothing where
/// the text is no number, `Some(None)` for an infinity or NaN, and otherwise
/// the shortest decimal text of the number together with its IEEE 754 bits.
pub uninterp spec fn float_reading(text: Seq<char>) -> Option<Option<(Seq<char>, u64)>>;

/// `str::parse` into a binary64 number, rendered by `serde_json::Number`, which
/// exists for finite numbers only. The result is named by [`float_reading`].
#[verifier::external_body]
pub(crate) fn read_float(text: &str) -> (r: Option<Option<(String, u64)>>)
    ensures
        match r {
            None => float_reading(text@) is None,
            Some(None) => float_reading(text@) == Some(None::<(Seq<char>, u64)>),
            Some(Some(f)) => float_reading(text@) == Some(Some((f.0@, f.1))),
        },
{
    let number = text.parse().ok().map(serde_json::Number::from_f64)?;
    Some(number.and_then(|n| n.as_f64().map(|x| (n.to_string(), x.to_bits()))))
}

/// The header fields that the `csv` reader finds in `text`, or its error
/// message.
pub uninterp spec fn csv_header(delimiter: u8, text: Seq<char>) -> Result<
    Seq<Seq<char>>,
    Seq<char>,
>;

/// The models of a run of fields, or the message of a failed read.
pub open spec fn fields(r: Result<Vec<String>, String>) -> Result<Seq<Seq<char>>, Seq<char>> {
    match r {
        Ok(v) => Ok(texts(v@)),
        Err(e) => Err(e@),
    }
}

/// The models of a run of records.
pub open spec fn all_fields(rows: Seq<Result<Vec<String>, String>>) -> Seq<
    Result<Seq<Seq<char>>, Seq<char>>,
> {
    rows.map_values(|row: Result<Vec<String>, String>| fields(row))
}

/// Whether `header` is the first record of `text`, should it be the text of a
/// plain table.
pub open spec fn heads_plain_tables(
    header: Result<Seq<Seq<char>>, Seq<char>>,
    delimiter: u8,
    text: Seq<char>,
) -> bool {
    forall|all: Seq<Seq<Seq<char>>>| #[trigger]
        is_plain_table(all, delimiter) && text == table_text(all, delimiter) ==> header == Ok::<
            Seq<Seq<char>>,
            Seq<char>,
        >(all[0])
}

/// Whether `rows` are the later records of `text`, should it be the text of a
/// plain table.
pub open spec fn fills_plain_tables(
    rows: Seq<Result<Seq<Seq<char>>, Seq<char>>>,
    delimiter: u8,
    text: Seq<char>,
) -> bool {
    forall|all: Seq<Seq<Seq<char>>>| #[trigger]
        is_plain_table(all, delimiter) && text == table_text(all, delimiter) ==> rows
            == data_records(all)
}

/// `csv::Reader::headers` on a reader with this delimiter and otherwise default
/// settings: the first record's fields, as named by [`csv_header`]. In a table
/// of plain fields, where no character is special but the delimiters, they are
/// the fields that the first line joins.
#[verifier::external_body]
pub(crate) fn read_csv_header(delimiter: u8, text: &str) -> (r: Result<Vec<String>, String>)
    ensures
        fields(r) == csv_header(delimiter, text@),
        heads_plain_tables(fields(r), delimiter, text@),
{
    let mut reader = csv::ReaderBuilder::new().delimiter(delimiter).from_reader(text.as_bytes());
    match reader.headers() {
        Ok(record) => Ok(record.iter().map(str::to_owned).collect()),
        Err(e) => Err(e.to_string()),
    }
}

/// The data records that the `csv` reader finds in `text` after the header,
/// each with its fields or its error message.
pub uninterp spec fn csv_rows(delimiter: u8, text: Seq<char>) -> Seq<
    Result<Seq<Seq<char>>, Seq<char>>,
>;

/// `csv::Reader::records` on a reader with this delimiter and otherwise default
/// settings: the records after the header, at most `limit` of them where a
/// limit is given, as named by [`csv_rows`]. Records of uneven length are
/// errors by default, so a record that was read has as many fields as the
/// header. In a table of plain fields the records are what the later lines join.
#[verifier::external_body]
pub(crate) fn read_csv_rows(delimiter: u8, text: &str, limit: Option<usize>) -> (r: Vec<
    Result<Vec<String>, String>,
>)
    ensures
        all_fields(r@) == (match limit {
            Some(n) if n < csv_rows(delimiter, text@).len() => csv_rows(delimiter, text@).take(
                n as int,
            ),
            _ => csv_rows(delimiter, text@),
        }),
        forall|i: int|
            0 <= i < r@.len() && (#[trigger] r@[i]) is Ok && csv_header(delimiter, text@) is Ok
                ==> r@[i]->Ok_0@.len() == csv_header(delimiter, text@)->Ok_0.len(),
        limit is None ==> fills_plain_tables(all_fields(r@), delimiter, text@),
{
    let mut reader = csv::ReaderBuilder::new().delimiter(delimiter).from_reader(text.as_bytes());
    reader
        .records()
        .take(limit.unwrap_or(usize::MAX))
        .map(|row| row.map(|r| r.iter().map(str::to_owned).collect()).map_err(|e| e.to_string()))
        .collect()
}

/// The TOON text that `toon_format` writes for a tree with these options, or
/// its error message.
pub uninterp spec fn toon_encoding(
    value: Json,
    delimiter: Delimiter,
    key_folding: bool,
) -> Result<Seq<char>, Seq<char>>;

/// `toon_format::encode` with the given delimiter, safe key folding or none,
/// and default indentation, as named by [`toon_encoding`].
#[verifier::external_body]
pub(crate) fn encode_toon(value: &JsonValue, delimiter: Delimiter, key_folding: bool) -> (r: Result<
    String,
    String,
>)
    ensures
        outcome(r) == toon_encoding(value@, delimiter, key_folding),
{
    let array_delimiter = match delimiter {
        Delimiter::Comma => toon_format::Delimiter::Comma,
        Delimiter::Tab => toon_format::Delimiter::Tab,
        Delimiter::Pipe => toon_format::Delimiter::Pipe,
    };
    let folding = match key_folding {
        true => toon_format::types::KeyFoldingMode::Safe,
        false => toon_format::types::KeyFoldingMode::Off,
    };
    let options = toon_format::EncodeOptions::new();
    let options = options.with_delimiter(array_delimiter).with_key_folding(folding);
    toon_format::encode(&tree_of(value), &options).map_err(|e| e.to_string())
}

/// The tree that `toon_format` decodes from `text` with safe path expansion, or
/// a message: its error, or that it gave no answer where it panics. It does so
/// on a fault beyond column 65,536, which it cannot format a message for.
pub uninterp spec fn toon_decoding(text: Seq<char>) -> Result<Json, Seq<char>>;

/// `toon_format::decode` in strict mode with safe path expansion, as named by
/// [`toon_decoding`]. The call is made on a thread of tokio's blocking pool
/// (`Runtime::spawn_blocking`), which outlives a panic of the decoder: the
/// sender of its answer is gone then, and a message stands in for the answer.
/// The thread is taken for granted, as memory is.
#[verifier::external_body]
pub(crate) fn decode_toon(text: &str) -> (r: Result<JsonValue, String>)
    ensures
        outcome(r) == toon_decoding(text@),
{
    let mode = toon_format::types::PathExpansionMode::Safe;
    let options = toon_format::DecodeOptions::default().with_expand_paths(mode);
    let input = text.to_owned();
    let (answer, answered) = std::sync::mpsc::channel();
    let mut pool = tokio::runtime::Builder::new_current_thread();
    let pool = pool.thread_stack_size(8_388_608).build().map_err(|e| e.to_string())?;
    pool.spawn_blocking(move || answer.send(toon_format::decode(&input, &options)));
    let decoded = answered.recv();
    pool.shutdown_background();
    let tree = decoded.map_err(|_| "no answer from the decoder".to_owned())?;
    tree.map(value_of).map_err(|e| e.to_string())
}

/// The calendar date of a day counted from 1970-01-01, as `jiff` writes it.
pub uninterp spec fn utc_date(day: int) -> Seq<char>;

/// `jiff::Timestamp::from_microsecond` and `strftime` with `%Y-%m-%d`: nothing
/// outside the range of `jiff::Timestamp`, otherwise the UTC date of the day
/// that the instant lies in, as named by [`utc_date`]. From year 0 on that is
/// the proleptic Gregorian date in ISO 8601 form; earlier years, which carry a
/// sign, are named only.
#[verifier::external_body]
pub(crate) fn read_utc_date(ts_us: i64) -> (r: Option<String>)
    ensures
        r is Some <==> in_calendar(ts_us),
        r matches Some(text) ==> text@ == utc_date(day_of(ts_us as int)) && (day_of(ts_us as int)
            >= epoch_day(0, 1, 1) ==> is_date(text@, day_of(ts_us as int))),
{
    let instant = jiff::Timestamp::from_microsecond(ts_us).ok()?;
    Some(instant.strftime("%Y-%m-%d").to_string())
}

/// The 64-bit XXH3 hash of a run of bytes, with the default secret and no seed.
pub uninterp spec fn xxh3(bytes: Seq<u8>) -> u64;

/// `xxhash_rust::xxh3::xxh3_64`, as named by [`xxh3`].
#[verifier::external_body]
pub(crate) fn hash_xxh3(bytes: &Vec<u8>) -> (r: u64)
    ensures
        r == xxh3(bytes@),
{
    xxhash_rust::xxh3::xxh3_64(bytes)
}

/// The lowercase form of a text under the Unicode case mapping.
pub uninterp spec fn lowercase(text: Seq<char>) -> Seq<char>;

/// `str::to_lowercase`, as named by [`lowercase`].
#[verifier::external_body]
pub(crate) fn to_lowercase(text: &str) -> (r: String)
    ensures
        r@ == lowercase(text@),
{
    text.to_lowercase()
}

/// The uppercase form of a text under the Unicode case mapping.
pub uninterp spec fn uppercase(text: Seq<char>) -> Seq<char>;

/// `str::to_uppercase`, as named by [`uppercase`].
#[verifier::external_body]
pub(crate) fn to_uppercase(text: &str) -> (r: String)
    ensures
        r@ == uppercase(text@),
{
    text.to_uppercase()
}

} // verus!
