//! What JSON and JSONL documents are read as.

use vstd::prelude::*;
use crate::bindings::json_reading;
use crate::detector::InputFormat;
use crate::error::Fault;
use crate::parser::json::json_document;
use crate::parser::jsonl::{jsonl_reading, jsonl_values};
use crate::parser::without_bom;
use crate::sequence::{lemma_filter_empty, lemma_filter_push};
use crate::text::{is_blank, lines, trimmed};
use crate::value::Json;

verus! {

/// A JSON document is read as a whole: the tree is the reader's tree of the
/// text behind the byte-order mark, and a reading error is the reader's error.
/// Nothing that the reader refuses becomes a tree.
pub proof fn json_is_read_whole(input: Seq<char>)
    ensures
        json_document(input) matches Ok(v) ==> json_reading(without_bom(input)) == Ok::<
            Json,
            Seq<char>,
        >(v),
        json_document(input) matches Err(e) ==> (e is DuplicateKey || e is JsonError),
        json_document(input) matches Err(Fault::JsonError(m)) ==> json_reading(without_bom(input))
            == Err::<Json, Seq<char>>(m),
{
}

/// A JSONL text is read line by line: the values are those of its non-blank
/// lines, each trimmed, in order and one per line. Where it is refused, the error
/// names the first line that does not read, counted from one with blank lines
/// included, and carries the reader's message about it.
pub proof fn jsonl_is_read_by_lines(input: Seq<char>)
    ensures
        jsonl_reading(input) matches Ok(v) ==> {
            let live = lines(without_bom(input)).filter(|line: Seq<char>| !is_blank(line));
            &&& v matches Json::Array(values)
            &&& v->Array_0.len() == live.len()
            &&& forall|k: int|
                0 <= k < live.len() ==> json_reading(trimmed(#[trigger] live[k])) == Ok::<
                    Json,
                    Seq<char>,
                >(v->Array_0[k])
        },
        jsonl_reading(input) matches Err(e) ==> {
            let all = lines(without_bom(input));
            &&& e matches Fault::ParseFailed { format, line, detail }
            &&& e->ParseFailed_format == InputFormat::Jsonl
            &&& 1 <= e->line <= all.len()
            &&& !is_blank(all[e->line - 1])
            &&& json_reading(trimmed(all[e->line - 1])) == Err::<Json, Seq<char>>(
                e->ParseFailed_detail,
            )
            &&& forall|m: int|
                0 <= m < e->line - 1 ==> is_blank(#[trigger] all[m]) || json_reading(
                    trimmed(all[m]),
                ) is Ok
        },
{
    let all = lines(without_bom(input));
    lemma_lines_read(all, all.len());
    assert(all.take(all.len() as int) =~= all);
}

proof fn lemma_lines_read(all: Seq<Seq<char>>, n: nat)
    requires
        n <= all.len(),
    ensures
        jsonl_values(all, n) matches Ok(values) ==> {
            let live = all.take(n as int).filter(|line: Seq<char>| !is_blank(line));
            &&& values.len() == live.len()
            &&& forall|k: int|
                0 <= k < live.len() ==> json_reading(trimmed(#[trigger] live[k])) == Ok::<
                    Json,
                    Seq<char>,
                >(values[k])
            &&& forall|m: int|
                0 <= m < n ==> is_blank(#[trigger] all[m]) || json_reading(trimmed(all[m])) is Ok
        },
        jsonl_values(all, n) matches Err(e) ==> {
            &&& e matches Fault::ParseFailed { format, line, detail }
            &&& e->ParseFailed_format == InputFormat::Jsonl
            &&& 1 <= e->line <= n
            &&& !is_blank(all[e->line - 1])
            &&& json_reading(trimmed(all[e->line - 1])) == Err::<Json, Seq<char>>(
                e->ParseFailed_detail,
            )
            &&& forall|m: int|
                0 <= m < e->line - 1 ==> is_blank(#[trigger] all[m]) || json_reading(
                    trimmed(all[m]),
                ) is Ok
        },
    decreases n,
{
    let p = |line: Seq<char>| !is_blank(line);
    if n == 0 {
        assert(all.take(0) =~= Seq::empty());
        lemma_filter_empty(p);
    } else {
        lemma_lines_read(all, (n - 1) as nat);
        assert(all.take(n as int) =~= all.take(n - 1).push(all[n - 1]));
        lemma_filter_push(all.take(n - 1), all[n - 1], p);
    }
}

} // verus!
