//! How corpora are generated and what is measured on them.

use vstd::prelude::*;
use crate::bindings::{toon_decoding, toon_encoding};
use crate::classifier::{shape_name, shape_of, ClassifyConfig, ShapeClass};
use crate::compressor::{reason_name, Decision, Delimiter};
use crate::detector::{format_name, InputFormat};
use crate::error::fault_message;
use crate::evals::comprehension::{item_material, records_in};
use crate::evals::generate::{
    all_combinations, clipped, combinations_of, first_opening, last_closing, replied, shapes_for,
    sizes_for, unfenced, usable, Combination, GenConfig, Progress,
};
use crate::evals::pipeline::{reports_decision, reports_fidelity, reports_value, PipelineResult};
use crate::evals::toonkit::payload_value;
use crate::fidelity::equivalent;
use crate::laws::compression::read_by_its_parser;
use crate::text::{
    byte_len, find_from, lemma_find_from, lemma_find_nothing, lemma_position_at, occurs_at, trimmed,
};
use crate::value::{Json, Num};

verus! {

/// Whether three backticks stand at a place of a text.
pub open spec fn fence_at(s: Seq<char>, at: int) -> bool {
    0 <= at && at + 3 <= s.len() && s[at] == '`' && s[at + 1] == '`' && s[at + 2] == '`'
}

proof fn lemma_fence(s: Seq<char>, at: int)
    ensures
        occurs_at(s, "```"@, at) <==> fence_at(s, at),
{
    reveal_strlit("```");
    let fence = "```"@;
    if fence_at(s, at) {
        assert(s.subrange(at, at + 3) =~= fence);
    }
    if occurs_at(s, fence, at) {
        let part = s.subrange(at, at + 3);
        assert(part[0] == s[at] && part[1] == s[at + 1] && part[2] == s[at + 2]);
    }
}

proof fn lemma_first_fence(s: Seq<char>, at: int)
    requires
        fence_at(s, at),
        forall|j: int| 0 <= j < at ==> !fence_at(s, j),
    ensures
        find_from(s, "```"@, 0) == Some(at),
{
    lemma_fence(s, at);
    assert forall|j: int| 0 <= j < at implies !occurs_at(s, "```"@, j) by {
        lemma_fence(s, j);
    }
    lemma_find_from(s, "```"@, 0, at);
}

proof fn lemma_no_fence(s: Seq<char>)
    requires
        forall|j: int| !fence_at(s, j),
    ensures
        find_from(s, "```"@, 0) is None,
{
    assert forall|j: int| !occurs_at(s, "```"@, j) by {
        lemma_fence(s, j);
    }
    lemma_find_nothing(s, "```"@, 0);
}

/// A reply without fences is taken whole.
pub proof fn replies_without_fences_are_taken_whole(s: Seq<char>)
    requires
        forall|j: int| !fence_at(s, j),
    ensures
        unfenced(s) == s,
{
    lemma_no_fence(s);
}

/// Of a reply with fences, the first fenced block is taken: what stands between
/// the end of the line that the first fence is on and the next fence, without
/// white space around it. What comes before, the language tag, and what follows
/// the block are dropped. A block that is not closed goes to the end of the reply.
pub proof fn the_first_fenced_block_is_taken(
    before: Seq<char>,
    tag: Seq<char>,
    body: Seq<char>,
    after: Seq<char>,
)
    requires
        forall|j: int| 0 <= j < before.len() ==> !fence_at(before + seq!['`', '`'], j),
        forall|i: int| 0 <= i < tag.len() ==> #[trigger] tag[i] != '\n',
        forall|j: int| 0 <= j < body.len() ==> !fence_at(body + seq!['`', '`'], j),
    ensures
        unfenced(before + seq!['`', '`', '`'] + tag + seq!['\n'] + body + seq!['`', '`', '`'] + after)
            == trimmed(body),
        unfenced(before + seq!['`', '`', '`'] + tag + seq!['\n'] + body) == trimmed(body),
{
    let closing = body + seq!['`', '`', '`'] + after;
    lemma_opened(before, tag, closing);
    lemma_opened(before, tag, body);
    let whole = before + seq!['`', '`', '`'] + tag + seq!['\n'] + body + seq!['`', '`', '`'] + after;
    assert(whole =~= before + seq!['`', '`', '`'] + tag + seq!['\n'] + closing);
    assert forall|j: int| 0 <= j < body.len() implies !fence_at(closing, j) by {
        let short = body + seq!['`', '`'];
        assert(!fence_at(short, j));
        assert(j + 2 < short.len());
        assert(closing[j] == short[j] && closing[j + 1] == short[j + 1] && closing[j + 2]
            == short[j + 2]);
    }
    let at = body.len() as int;
    assert(closing[at] == '`' && closing[at + 1] == '`' && closing[at + 2] == '`');
    lemma_first_fence(closing, at);
    assert(closing.take(at) =~= body);
    assert forall|j: int| !fence_at(body, j) by {
        if fence_at(body, j) {
            let short = body + seq!['`', '`'];
            assert(short[j] == body[j] && short[j + 1] == body[j + 1] && short[j + 2] == body[j
                + 2]);
            assert(fence_at(short, j));
        }
    }
    lemma_no_fence(body);
}

proof fn lemma_opened(before: Seq<char>, tag: Seq<char>, rest: Seq<char>)
    requires
        forall|j: int| 0 <= j < before.len() ==> !fence_at(before + seq!['`', '`'], j),
        forall|i: int| 0 <= i < tag.len() ==> #[trigger] tag[i] != '\n',
    ensures
        unfenced(before + seq!['`', '`', '`'] + tag + seq!['\n'] + rest) == (match find_from(
            rest,
            "```"@,
            0,
        ) {
            Some(end) => trimmed(rest.take(end)),
            None => trimmed(rest),
        }),
{
    let s = before + seq!['`', '`', '`'] + tag + seq!['\n'] + rest;
    let at = before.len() as int;
    assert(s[at] == '`' && s[at + 1] == '`' && s[at + 2] == '`');
    assert forall|j: int| 0 <= j < at implies !fence_at(s, j) by {
        let short = before + seq!['`', '`'];
        assert(!fence_at(short, j));
        assert(j + 2 < short.len());
        assert(s[j] == short[j] && s[j + 1] == short[j + 1] && s[j + 2] == short[j + 2]);
    }
    lemma_first_fence(s, at);
    let behind = s.skip(at + 3);
    assert(behind =~= tag + seq!['\n'] + rest);
    let end = tag.len() as int;
    assert(behind[end] == '\n');
    assert forall|j: int| 0 <= j < end implies behind[j] != '\n' by {
        assert(behind[j] == tag[j]);
    }
    lemma_position_at(behind, '\n', end);
    assert(behind.skip(end + 1) =~= rest);
}

/// A JSON reply is clipped to what stands from its first opening bracket to its
/// last closing one; where these do not enclose anything it is taken whole.
pub proof fn json_replies_are_clipped_to_their_brackets(s: Seq<char>)
    ensures
        ({
            ||| clipped(s) == s && forall|i: int, j: int|
                0 <= i < j < s.len() && (#[trigger] s[i] == '{' || s[i] == '[') ==> #[trigger] s[j]
                    != '}' && s[j] != ']'
            ||| exists|lo: int, hi: int|
                {
                    &&& 0 <= lo < hi <= s.len()
                    &&& clipped(s) == #[trigger] s.subrange(lo, hi)
                    &&& s[lo] == '{' || s[lo] == '['
                    &&& s[hi - 1] == '}' || s[hi - 1] == ']'
                    &&& forall|i: int| 0 <= i < lo ==> #[trigger] s[i] != '{' && s[i] != '['
                    &&& forall|i: int| hi <= i < s.len() ==> #[trigger] s[i] != '}' && s[i] != ']'
                }
        }),
{
    lemma_first_opening(s);
    lemma_last_closing(s);
    let lo = first_opening(s);
    let hi = last_closing(s);
    if lo < hi {
        assert(clipped(s) == s.subrange(lo, hi));
    } else {
        assert forall|i: int, j: int|
            0 <= i < j < s.len() && (#[trigger] s[i] == '{' || s[i]
                == '[') implies #[trigger] s[j] != '}' && s[j] != ']' by {
            assert(lo <= i);
        }
    }
}

proof fn lemma_first_opening(s: Seq<char>)
    ensures
        0 <= first_opening(s) <= s.len(),
        first_opening(s) < s.len() ==> s[first_opening(s)] == '{' || s[first_opening(s)] == '[',
        forall|i: int| 0 <= i < first_opening(s) ==> #[trigger] s[i] != '{' && s[i] != '[',
    decreases s.len(),
{
    if s.len() > 0 && s[0] != '{' && s[0] != '[' {
        let rest = s.drop_first();
        lemma_first_opening(rest);
        assert forall|i: int| 0 <= i < first_opening(s) implies #[trigger] s[i] != '{' && s[i]
            != '[' by {
            if i > 0 {
                assert(s[i] == rest[i - 1]);
            }
        }
        if first_opening(s) < s.len() {
            assert(s[first_opening(s)] == rest[first_opening(rest)]);
        }
    }
}

proof fn lemma_last_closing(s: Seq<char>)
    ensures
        0 <= last_closing(s) <= s.len(),
        last_closing(s) > 0 ==> s[last_closing(s) - 1] == '}' || s[last_closing(s) - 1] == ']',
        forall|i: int| last_closing(s) <= i < s.len() ==> #[trigger] s[i] != '}' && s[i] != ']',
    decreases s.len(),
{
    if s.len() > 0 && s.last() != '}' && s.last() != ']' {
        let rest = s.drop_last();
        lemma_last_closing(rest);
        assert forall|i: int| last_closing(s) <= i < s.len() implies #[trigger] s[i] != '}' && s[i]
            != ']' by {
            if i < s.len() - 1 {
                assert(s[i] == rest[i]);
            }
        }
        if last_closing(s) > 0 {
            assert(s[last_closing(s) - 1] == rest[last_closing(rest) - 1]);
        }
    }
}

/// A reply is kept only as a payload that the parser for its format reads, and
/// is not empty; brackets are looked for in JSON alone, and white space around
/// the reply counts for nothing.
pub proof fn kept_replies_can_be_read(raw: Seq<char>, format: InputFormat)
    requires
        format != InputFormat::Unknown,
    ensures
        usable(None, format_name(format)) is None,
        ({
            let payload = if format == InputFormat::Json {
                clipped(unfenced(trimmed(raw)))
            } else {
                unfenced(trimmed(raw))
            };
            usable(Some(raw), format_name(format)) == (if payload.len() > 0 && read_by_its_parser(
                format,
                true,
                payload,
            ) is Ok {
                Some(payload)
            } else {
                None
            })
        }),
{
    lemma_names();
    let body = unfenced(trimmed(raw));
    payloads_are_read_by_their_parser(format, true, body);
    payloads_are_read_by_their_parser(format, true, clipped(body));
}

proof fn lemma_names()
    ensures
        "json"@ != "jsonl"@,
        "json"@ != "csv"@,
        "json"@ != "tsv"@,
        "jsonl"@ != "csv"@,
        "jsonl"@ != "tsv"@,
        "csv"@ != "tsv"@,
        "json"@ != "unknown"@,
        "jsonl"@ != "unknown"@,
        "csv"@ != "unknown"@,
        "tsv"@ != "unknown"@,
{
    reveal_strlit("json");
    reveal_strlit("jsonl");
    reveal_strlit("csv");
    reveal_strlit("tsv");
    reveal_strlit("unknown");
    assert("json"@.len() == 4 && "jsonl"@.len() == 5 && "unknown"@.len() == 7);
    assert("csv"@[0] != "tsv"@[0]);
}

/// A payload is read by the parser for the format that it names; a failure
/// carries the parser's message.
pub proof fn payloads_are_read_by_their_parser(
    format: InputFormat,
    coerce: bool,
    payload: Seq<char>,
)
    requires
        format != InputFormat::Unknown,
    ensures
        payload_value(format_name(format), payload, coerce) == (match read_by_its_parser(
            format,
            coerce,
            payload,
        ) {
            Ok(v) => Ok(v),
            Err(e) => Err("parse failed: "@ + fault_message(e)),
        }),
{
    lemma_names();
}

/// The place of the payload that is asked for, among all of them in order.
pub open spec fn place(p: Progress, config: GenConfig) -> int {
    p.combination * config.per_cell + p.cell
}

/// Payloads are asked for one after the other. A usable reply, and one that is
/// not after the retries are spent, moves on by one place, one domain and one
/// number; any other reply leaves all three and spends a retry. Every reply
/// counts as an attempt and every usable one as accepted.
pub proof fn payloads_are_asked_for_in_turn(p: Progress, config: GenConfig, good: bool)
    requires
        p.cell < config.per_cell,
        p.combination < usize::MAX,
        p.domain < 12,
        p.seq < u64::MAX,
        p.accepted < u64::MAX,
        p.attempted < u64::MAX,
    ensures
        ({
            let next = replied(p, config, good);
            let moves = good || p.attempt >= config.max_retries;
            &&& next.attempted == p.attempted + 1
            &&& next.accepted == p.accepted + (if good {
                1int
            } else {
                0
            })
            &&& moves ==> place(next, config) == place(p, config) + 1
            &&& moves ==> next.seq == p.seq + 1
            &&& moves ==> next.attempt == 0
            &&& moves ==> next.domain < 12 && (next.domain == p.domain + 1 || p.domain == 11
                && next.domain == 0)
            &&& !moves ==> place(next, config) == place(p, config) && next.cell == p.cell
            &&& !moves ==> next.seq == p.seq && next.domain == p.domain
            &&& !moves ==> next.attempt == p.attempt + 1
            &&& next.cell < config.per_cell
        }),
{
    let c = p.combination as int;
    let n = config.per_cell as int;
    assert((c + 1) * n == c * n + n) by (nonlinear_arith);
}

/// Whether payloads of a shape and a size are wanted in a format.
pub open spec fn is_wanted(c: Combination) -> bool {
    match c.format {
        InputFormat::Json => c.records == 12 || c.records == 40 || c.records == 120,
        InputFormat::Jsonl => (c.shape == ShapeClass::Tabular || c.shape == ShapeClass::Mixed) && (
        c.records == 15 || c.records == 60 || c.records == 150),
        InputFormat::Csv => c.shape == ShapeClass::Tabular && (c.records == 20 || c.records == 80
            || c.records == 200),
        InputFormat::Tsv => c.shape == ShapeClass::Tabular && (c.records == 20 || c.records == 80),
        InputFormat::Unknown => false,
    }
}

/// Exactly the wanted combinations are generated.
pub proof fn every_wanted_combination_is_generated(c: Combination)
    ensures
        all_combinations().contains(c) <==> is_wanted(c),
{
    let a = combinations_of(InputFormat::Json);
    let b = combinations_of(InputFormat::Jsonl);
    let d = combinations_of(InputFormat::Csv);
    let e = combinations_of(InputFormat::Tsv);
    let all = all_combinations();
    lemma_wanted(c, InputFormat::Json);
    lemma_wanted(c, InputFormat::Jsonl);
    lemma_wanted(c, InputFormat::Csv);
    lemma_wanted(c, InputFormat::Tsv);
    if all.contains(c) {
        let i = choose|i: int| 0 <= i < all.len() && all[i] == c;
        if i < a.len() {
            assert(a[i] == c);
        } else if i < a.len() + b.len() {
            assert(b[i - a.len()] == c);
        } else if i < a.len() + b.len() + d.len() {
            assert(d[i - a.len() - b.len()] == c);
        } else {
            assert(e[i - a.len() - b.len() - d.len()] == c);
        }
    }
    if a.contains(c) {
        let i = choose|i: int| 0 <= i < a.len() && a[i] == c;
        assert(all[i] == c);
    }
    if b.contains(c) {
        let i = choose|i: int| 0 <= i < b.len() && b[i] == c;
        assert(all[a.len() + i] == c);
    }
    if d.contains(c) {
        let i = choose|i: int| 0 <= i < d.len() && d[i] == c;
        assert(all[a.len() + b.len() + i] == c);
    }
    if e.contains(c) {
        let i = choose|i: int| 0 <= i < e.len() && e[i] == c;
        assert(all[a.len() + b.len() + d.len() + i] == c);
    }
}

proof fn lemma_wanted(c: Combination, format: InputFormat)
    ensures
        combinations_of(format).contains(c) <==> c.format == format && is_wanted(c),
{
    let some = combinations_of(format);
    if some.contains(c) {
        let i = choose|i: int| 0 <= i < some.len() && some[i] == c;
        let width = sizes_for(format).len() as int;
        let height = shapes_for(format).len() as int;
        assert(0 <= i / width < height && 0 <= i % width < width) by (nonlinear_arith)
            requires
                0 <= i < height * width,
                0 <= width,
                0 <= height,
        ;
        assert(some[i] == c);
        assert(c.shape == shapes_for(format)[i / width]);
        assert(c.records == sizes_for(format)[i % width]);
    }
    if c.format == format && is_wanted(c) {
        let row: int = match (format, c.shape) {
            (_, ShapeClass::Tabular) => 0,
            (InputFormat::Jsonl, _) => 1,
            (_, ShapeClass::FoldChain) => 1,
            (_, ShapeClass::PrimitiveArray) => 2,
            (_, ShapeClass::Mixed) => 3,
            (_, ShapeClass::PassThrough) => 4,
        };
        let column: int = if c.records <= 20 {
            0
        } else if c.records <= 80 {
            1
        } else {
            2
        };
        let shapes = shapes_for(format);
        let sizes = sizes_for(format);
        assert(0 <= row < shapes.len() && shapes[row] == c.shape);
        assert(0 <= column < sizes.len() && sizes[column] == c.records);
        let width = sizes.len() as int;
        let at = row * width + column;
        assert(at / width == row && at % width == column && at < shapes.len() * width)
            by (nonlinear_arith)
            requires
                at == row * width + column,
                0 <= column < width,
                0 <= row < shapes.len(),
        ;
        assert(0 <= at) by (nonlinear_arith)
            requires
                at == row * width + column,
                0 <= column,
                0 <= row,
                0 <= width,
        ;
        assert(some[at] == c);
    }
}

/// The default limits of shape classification.
pub open spec fn usual_limits() -> ClassifyConfig {
    ClassifyConfig { tabular_min_rows: 3, primitive_array_min: 5, fold_min_depth: 3 }
}

/// The measurements tell what the server decides about a payload: whether it
/// compresses it, to how many bytes, and if not why; and what the payload's value
/// is, whatever the server decides: its shape, whether that is the intended one,
/// and the length of its text.
pub proof fn measurements_tell_what_was_done(
    r: PipelineResult,
    toon: Option<String>,
    parse: Result<Json, Seq<char>>,
    d: Decision,
    intended: Seq<char>,
)
    requires
        reports_decision(r, d),
        reports_value(r, toon, parse, d, intended),
    ensures
        r.compressed <==> d is Compressed,
        r.pass_reason is Some <==> d is PassedThrough,
        r.pipeline_toon_bytes is Some <==> d is Compressed,
        d matches Decision::Compressed { toon, .. } ==> byte_len(toon) <= usize::MAX
            ==> r.pipeline_toon_bytes == Some(byte_len(toon) as usize),
        d matches Decision::PassedThrough { reason, .. } ==> r.pass_reason->0@ == reason_name(
            reason,
        ),
        r.shape_correct is Some <==> parse is Ok,
        r.shape_correct == Some(true) ==> r.actual_shape is Some && r.actual_shape->0@ == intended,
        r.shape_correct == Some(false) ==> r.actual_shape is Some && r.actual_shape->0@
            != intended,
        parse matches Ok(v) ==> r.actual_shape is Some && r.actual_shape->0@ == shape_name(
            shape_of(v, usual_limits()),
        ),
        parse is Err ==> r.error is Some && r.error->0@ == parse->Err_0,
        r.error is None <==> parse is Ok && toon_encoding(parse->Ok_0, Delimiter::Comma, true)
            is Ok,
        r.toon_bytes is Some <==> r.error is None,
        toon is Some <==> r.error is None,
        toon matches Some(t) ==> toon_encoding(parse->Ok_0, Delimiter::Comma, true) == Ok::<
            Seq<char>,
            Seq<char>,
        >(t@) && (byte_len(t@) <= usize::MAX ==> r.toon_bytes->0 == byte_len(t@)),
{
}

/// Fidelity is measured on what the text decodes to: it holds exactly where the
/// decoded tree is equivalent to the encoded one, and a detail is given exactly
/// where it does not.
pub proof fn fidelity_is_measured_on_the_decoded_tree(
    r: PipelineResult,
    v: Json,
    close: spec_fn(Num, Num) -> bool,
)
    requires
        reports_fidelity(r, Ok(v), close),
    ensures
        toon_encoding(v, Delimiter::Comma, true) is Err ==> r.roundtrip_ok is None,
        toon_encoding(v, Delimiter::Comma, true) matches Ok(text) ==> {
            &&& r.roundtrip_ok is Some
            &&& r.roundtrip_ok == Some(true) <==> toon_decoding(text) is Ok && equivalent(
                v,
                toon_decoding(text)->Ok_0,
                close,
            )
            &&& r.roundtrip_detail is Some <==> r.roundtrip_ok == Some(false)
        },
{
}

/// An item is asked about exactly where it is short enough, its value can be read
/// and encoded, and records stand in it.
pub proof fn items_are_asked_about_where_possible(
    payload: Seq<char>,
    format: InputFormat,
    limit: nat,
)
    requires
        format != InputFormat::Unknown,
    ensures
        ({
            let value = read_by_its_parser(format, true, payload);
            let material = item_material(payload, format_name(format), limit);
            &&& material is Some <==> byte_len(payload) <= limit && value is Ok && records_in(
                value->Ok_0,
            ) is Some && toon_encoding(value->Ok_0, Delimiter::Comma, true) is Ok
            &&& material matches Some((records, toon)) ==> records_in(value->Ok_0) == Some(records)
                && toon_encoding(value->Ok_0, Delimiter::Comma, true) == Ok::<
                Seq<char>,
                Seq<char>,
            >(toon)
        }),
{
    payloads_are_read_by_their_parser(format, true, payload);
}

} // verus!
