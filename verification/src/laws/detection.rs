//! Which formats an input is recognised as.

use vstd::prelude::*;
use crate::bindings::{csv_header, csv_rows, json_accepts, json_reading};
use crate::detector::{
    candidates, detected, detection, header_width, is_ascii_space, jsonl_probe, opens_container,
    parse_as, probed_value, table_probe, DetectionConfidence, InputFormat,
};
use crate::laws::compression::read_by_its_parser;
use crate::parser::csv::{COMMA, TAB};
use crate::text::{is_blank, lines};
use crate::value::Json;

verus! {

/// Whether only ASCII white space stands before index `k`, where an object or an
/// array opens.
pub open spec fn container_opens_at(input: Seq<char>, k: int) -> bool {
    &&& 0 <= k < input.len()
    &&& input[k] == '{' || input[k] == '['
    &&& forall|j: int|
        0 <= j < k ==> (#[trigger] input[j] == ' ' || input[j] == '\t' || input[j] == '\n'
            || input[j] == '\u{c}' || input[j] == '\r')
}

/// Whether the input reads as a table with this delimiter: a header of two or
/// more fields, and a first record of as many.
pub open spec fn starts_a_table(input: Seq<char>, delimiter: u8) -> bool {
    &&& csv_header(delimiter, input) is Ok
    &&& csv_header(delimiter, input)->Ok_0.len() >= 2
    &&& csv_rows(delimiter, input).len() > 0
    &&& csv_rows(delimiter, input)[0] is Ok
    &&& csv_rows(delimiter, input)[0]->Ok_0.len() == csv_header(delimiter, input)->Ok_0.len()
}

/// Whether the first two non-blank lines of the input are JSON documents.
pub open spec fn starts_a_stream(input: Seq<char>) -> bool {
    let live = lines(input).filter(|line: Seq<char>| !is_blank(line));
    live.len() >= 2 && json_accepts(live[0]) && json_accepts(live[1])
}

proof fn lemma_opens(input: Seq<char>, k: int)
    requires
        container_opens_at(input, k),
    ensures
        opens_container(input),
    decreases k,
{
    if k > 0 {
        assert(is_ascii_space(input[0]));
        let rest = input.drop_first();
        assert forall|j: int| 0 <= j < k - 1 implies (#[trigger] rest[j] == ' ' || rest[j] == '\t'
            || rest[j] == '\n' || rest[j] == '\u{c}' || rest[j] == '\r') by {
            assert(rest[j] == input[j + 1]);
        }
        lemma_opens(rest, k - 1);
    }
}

proof fn lemma_opened(input: Seq<char>) -> (k: int)
    requires
        opens_container(input),
    ensures
        container_opens_at(input, k),
    decreases input.len(),
{
    if is_ascii_space(input[0]) {
        let rest = input.drop_first();
        let k = lemma_opened(rest) + 1;
        assert forall|j: int| 0 <= j < k implies (#[trigger] input[j] == ' ' || input[j] == '\t'
            || input[j] == '\n' || input[j] == '\u{c}' || input[j] == '\r') by {
            if j > 0 {
                assert(input[j] == rest[j - 1]);
            }
        }
        assert(input[k] == rest[k - 1]);
        k
    } else {
        0
    }
}

/// A JSON document whose first character outside ASCII white space opens an
/// object or an array is recognised as JSON with certainty, whatever white space
/// it holds and whatever else it could be.
pub proof fn json_documents_are_recognised(input: Seq<char>, k: int)
    requires
        json_accepts(input),
        container_opens_at(input, k),
    ensures
        detected(input).format == InputFormat::Json,
        detected(input).confidence == DetectionConfidence::Certain,
        detected(input).candidates.len() > 0,
        detected(input).candidates[0] == InputFormat::Json,
{
    lemma_opens(input, k);
    let found = candidates(input, true);
    assert(found[0] == InputFormat::Json);
}

/// An input is a candidate for each format that it has the marks of, and for no
/// other: JSON where it is a document with a container root, JSONL where its
/// first two non-blank lines are documents, CSV and TSV where the header and the
/// first record agree on two or more columns.
pub proof fn candidates_have_the_marks(input: Seq<char>)
    ensures
        detected(input).candidates.contains(InputFormat::Json) <==> json_accepts(input) && exists|
            k: int,
        | #[trigger] container_opens_at(input, k),
        detected(input).candidates.contains(InputFormat::Jsonl) <==> starts_a_stream(input),
        detected(input).candidates.contains(InputFormat::Csv) <==> starts_a_table(input, 0x2c),
        detected(input).candidates.contains(InputFormat::Tsv) <==> starts_a_table(input, 0x09),
        !detected(input).candidates.contains(InputFormat::Unknown),
{
    lemma_candidates(input);
}

/// What detection of any input makes of its candidates.
proof fn lemma_candidates(input: Seq<char>)
    ensures
        ({
            let d = detected(input);
            let json = json_accepts(input) && exists|k: int| #[trigger]
                container_opens_at(input, k);
            &&& d.candidates.contains(InputFormat::Json) <==> json
            &&& d.candidates.contains(InputFormat::Jsonl) <==> starts_a_stream(input)
            &&& d.candidates.contains(InputFormat::Csv) <==> starts_a_table(input, 0x2c)
            &&& d.candidates.contains(InputFormat::Tsv) <==> starts_a_table(input, 0x09)
            &&& !d.candidates.contains(InputFormat::Unknown)
        }),
{
    if opens_container(input) {
        let k = lemma_opened(input);
        assert(container_opens_at(input, k));
    }
    if exists|k: int| #[trigger] container_opens_at(input, k) {
        let k = choose|k: int| #[trigger] container_opens_at(input, k);
        lemma_opens(input, k);
    }
    let json = opens_container(input) && json_accepts(input);
    assert(jsonl_probe(input) is Some <==> starts_a_stream(input));
    assert(table_probe(input, COMMA) <==> starts_a_table(input, 0x2c));
    assert(table_probe(input, TAB) <==> starts_a_table(input, 0x09));
    let a = if json {
        seq![InputFormat::Json]
    } else {
        Seq::empty()
    };
    let b = if starts_a_stream(input) {
        seq![InputFormat::Jsonl]
    } else {
        Seq::empty()
    };
    let c = if starts_a_table(input, 0x2c) {
        seq![InputFormat::Csv]
    } else {
        Seq::empty()
    };
    let d = if starts_a_table(input, 0x09) {
        seq![InputFormat::Tsv]
    } else {
        Seq::empty()
    };
    let found = detected(input).candidates;
    assert(found =~= a + b + c + d);
    if json {
        assert(found[0] == InputFormat::Json);
    }
    if starts_a_stream(input) {
        assert(found[a.len() as int] == InputFormat::Jsonl);
    }
    if starts_a_table(input, 0x2c) {
        assert(found[(a.len() + b.len()) as int] == InputFormat::Csv);
    }
    if starts_a_table(input, 0x09) {
        assert(found[(a.len() + b.len() + c.len()) as int] == InputFormat::Tsv);
    }
}

/// The selected format is the first that the input has the marks of, in the
/// order JSON, JSONL, CSV, TSV, and unknown where it has the marks of none.
/// Detection is certain for JSON and for inputs without a format, and heuristic
/// otherwise; it is ambiguous where several formats fit; and a JSONL input has
/// its non-blank lines counted.
pub proof fn the_first_fitting_format_is_selected(input: Seq<char>)
    ensures
        ({
            let d = detected(input);
            let json = json_accepts(input) && exists|k: int| #[trigger]
                container_opens_at(input, k);
            let jsonl = starts_a_stream(input);
            let csv = starts_a_table(input, 0x2c);
            let tsv = starts_a_table(input, 0x09);
            &&& d.format == InputFormat::Json <==> json
            &&& d.format == InputFormat::Jsonl <==> !json && jsonl
            &&& d.format == InputFormat::Csv <==> !json && !jsonl && csv
            &&& d.format == InputFormat::Tsv <==> !json && !jsonl && !csv && tsv
            &&& d.format == InputFormat::Unknown <==> !json && !jsonl && !csv && !tsv
            &&& d.confidence == DetectionConfidence::Heuristic <==> d.format == InputFormat::Jsonl
                || d.format == InputFormat::Csv || d.format == InputFormat::Tsv
            &&& d.ambiguous <==> (json && jsonl || json && csv || json && tsv || jsonl && csv
                || jsonl && tsv || csv && tsv)
            &&& d.line_count == if !json && jsonl {
                Some(lines(input).filter(|line: Seq<char>| !is_blank(line)).len())
            } else {
                None
            }
        }),
{
    lemma_candidates(input);
    if opens_container(input) {
        let k = lemma_opened(input);
        assert(container_opens_at(input, k));
    }
    if exists|k: int| #[trigger] container_opens_at(input, k) {
        let k = choose|k: int| #[trigger] container_opens_at(input, k);
        lemma_opens(input, k);
    }
    assert(jsonl_probe(input) is Some <==> starts_a_stream(input));
    assert(table_probe(input, COMMA) <==> starts_a_table(input, 0x2c));
    assert(table_probe(input, TAB) <==> starts_a_table(input, 0x09));
}

/// Detection that reads along hands back the tree exactly where a container opens
/// and the reader accepts the text, and recognises JSON exactly there.
pub proof fn reading_along_gives_the_tree(input: Seq<char>)
    ensures
        probed_value(input) matches Some(v) <==> (exists|k: int| #[trigger]
            container_opens_at(input, k)) && json_reading(input) is Ok,
        probed_value(input) matches Some(v) ==> json_reading(input) == Ok::<Json, Seq<char>>(v),
        detection(input, probed_value(input) is Some).format == InputFormat::Json
            <==> probed_value(input) is Some,
{
    if opens_container(input) {
        let k = lemma_opened(input);
        assert(container_opens_at(input, k));
    }
    if exists|k: int| #[trigger] container_opens_at(input, k) {
        let k = choose|k: int| #[trigger] container_opens_at(input, k);
        lemma_opens(input, k);
    }
    let found = candidates(input, probed_value(input) is Some);
    if probed_value(input) is Some {
        assert(found[0] == InputFormat::Json);
    }
}

/// Parsing a detected input is left to the parser of its format, with coercion
/// for tables.
pub proof fn detected_inputs_go_to_their_parser(input: Seq<char>)
    ensures
        detected(input).format != InputFormat::Unknown ==> parse_as(detected(input).format, input)
            == read_by_its_parser(detected(input).format, true, input),
        detected(input).format == InputFormat::Unknown ==> parse_as(
            detected(input).format,
            input,
        ) is Err,
{
}

/// The width of a table is that of its header.
pub proof fn width_is_that_of_the_header(delimiter: u8, input: Seq<char>)
    requires
        csv_header(delimiter, input) is Ok ==> csv_header(delimiter, input)->Ok_0.len()
            <= usize::MAX,
    ensures
        csv_header(delimiter, input) matches Ok(header) ==> header_width(delimiter, input) matches Some(
            n,
        ) && n == header.len(),
        csv_header(delimiter, input) is Err ==> header_width(delimiter, input) is None,
{
}

} // verus!
