//! Properties that hold across functions of the library, stated over the same
//! specifications as the functions' own contracts.

use vstd::prelude::*;
use crate::bindings::{csv_header, json_reading};
use crate::classifier::{
    chain_length, chain_nesting, conforms, is_primitive, is_table, shape_of, ClassifyConfig,
    ShapeClass, FOLD_CHAIN_MAX_DEPTH,
};
use crate::compressor::{decision, saves_enough, size_reason, CompressConfig, Decision, Reason};
use crate::detector::{
    candidates, detected, detection, json_probe, live_lines, DetectionConfidence, InputFormat,
};
use crate::error::Fault;
use crate::evals::report::{grouped, has_group, indices_of, ints, Group};
use crate::logging::calendar::partition_key;
use crate::logging::error::LogError;
use crate::logging::event::LogEvent;
use crate::logging::jsonl_sink::{
    first_error, has_day, lemma_no_day, on_day, room_for, spreads, step_for, unwritten, Partition,
    PartitionOutcome, WriterEvent,
};
use crate::logging::sink::RecordOutcome;
use crate::parser::csv::{
    cell, follows, inspection, is_uniform, repeated_name, table, CsvCoercionMetadata,
};
use crate::parser::document::{
    doc_text, first_repeat, has_repeat, is_document, lemma_first_repeat, lemma_repeat_of_document,
    Doc,
};
use crate::parser::json::json_document;
use crate::parser::jsonl::{jsonl_reading, jsonl_values};
use crate::parser::without_bom;
use crate::ratio::{pow10, within, Ratio};
use crate::sequence::lemma_filter_empty;
use crate::server::config::{
    all_warnings, compress_config_of, describes, first_refusal, is_default, setting, settled,
    Config, Reading,
};
use crate::server::error::Rejection;
use crate::server::handler::{
    answers_compression, answers_stats, output_of, processed, tells, CompressOutcome,
    CompressResult, StatsResult,
};
use crate::server::metrics::{
    after_failure, after_log, after_success, after_timeout, consistent, has_room, no_greater,
    no_metrics, FailureKind, Metrics,
};
use crate::text::{
    byte_len, is_blank, joined_by, lemma_not_before_itself, lemma_position, lemma_position_at,
    lines, optional, precedes, texts, trimmed, without_cr,
};
use crate::value::{has_key, Json};

pub mod compression;
pub mod corpora;
pub mod detection;
pub mod documents;
pub mod harness;
pub mod repeats;
pub mod reports;
pub mod requests;
pub mod settings;
pub mod shapes;
pub mod sinks;
pub mod tables;
pub mod texts;

verus! {

// ---------------------------------------------------------------------------
// Compression
// ---------------------------------------------------------------------------

/// What is not compressed is returned verbatim with a reason; what is compressed
/// is returned as TOON, strictly shorter than the input and within the
/// configured ratio, without a reason.
pub proof fn output_is_verbatim_or_shorter(config: CompressConfig, input: Seq<char>)
    ensures
        ({
            let d = decision(config, input).0;
            let output = output_of(d, input);
            let done = processed(d, input);
            if done.compressed {
                &&& byte_len(output) < byte_len(input)
                &&& within(config.max_output_ratio, byte_len(output), byte_len(input))
                &&& done.pass_reason is None
            } else {
                &&& output == input
                &&& done.pass_reason is Some
                &&& done.output_bytes == done.input_bytes
            }
        }),
{
}

/// The size gates: above the limit an input is passed through as too long, below
/// the minimum as too short, and in between its length alone decides nothing.
pub proof fn size_gates_are_inclusive(config: CompressConfig, input: Seq<char>)
    ensures
        byte_len(input) > config.max_input_bytes <==> (decision(config, input).0
            matches Decision::PassedThrough { reason: Reason::InputExceedsLimit { .. }, .. }),
        config.min_bytes <= byte_len(input) <= config.max_input_bytes ==> size_reason(
            config,
            byte_len(input),
        ) is None,
        byte_len(input) < config.min_bytes && byte_len(input) <= config.max_input_bytes
            <==> decision(config, input).0 == (Decision::PassedThrough {
            reason: Reason::BelowMinBytes,
            input_format: None,
        }),
{
}

/// A larger accepted ratio never turns a compressed outcome into a
/// pass-through.
pub proof fn larger_ratio_accepts_more(
    toon_bytes: nat,
    original_bytes: nat,
    small: Ratio,
    large: Ratio,
)
    requires
        saves_enough(toon_bytes, original_bytes, small),
        small.digits * pow10(large.places as nat) <= large.digits * pow10(small.places as nat),
    ensures
        saves_enough(toon_bytes, original_bytes, large),
{
    let s = pow10(small.places as nat) as int;
    let l = pow10(large.places as nat) as int;
    let t = toon_bytes as int;
    let o = original_bytes as int;
    crate::ratio::lemma_pow10(small.places as nat, small.places as nat);
    assert(t * l <= large.digits * o) by (nonlinear_arith)
        requires
            t * s <= small.digits * o,
            small.digits * l <= large.digits * s,
            s >= 1,
            l >= 0,
            t >= 0,
            o >= 0,
    {
        assert((t * s) * l <= (small.digits * o) * l);
        assert((small.digits * l) * o <= (large.digits * s) * o);
        assert((t * l) * s <= (large.digits * o) * s);
    }
}

// ---------------------------------------------------------------------------
// Detection
// ---------------------------------------------------------------------------

/// The place of a format in the order of precedence.
pub open spec fn rank(f: InputFormat) -> int {
    match f {
        InputFormat::Json => 0,
        InputFormat::Jsonl => 1,
        InputFormat::Csv => 2,
        InputFormat::Tsv => 3,
        InputFormat::Unknown => 4,
    }
}

/// Detection metadata is consistent: the format is the first candidate or
/// unknown, candidates come in strict order of precedence, ambiguity means more
/// than one, only JSON and unknown are certain, and only JSONL has a line
/// count, of at least two.
pub proof fn detection_is_consistent(input: Seq<char>, json: bool)
    ensures
        ({
            let d = detection(input, json);
            &&& d.format == (if d.candidates.len() > 0 {
                d.candidates[0]
            } else {
                InputFormat::Unknown
            })
            &&& d.ambiguous <==> d.candidates.len() > 1
            &&& d.confidence == DetectionConfidence::Certain <==> d.format == InputFormat::Json
                || d.format == InputFormat::Unknown
            &&& d.line_count is Some <==> d.format == InputFormat::Jsonl
            &&& d.line_count matches Some(n) ==> n >= 2
            &&& forall|i: int, j: int|
                0 <= i < j < d.candidates.len() ==> rank(#[trigger] d.candidates[i]) < rank(
                    #[trigger] d.candidates[j],
                )
            &&& !d.candidates.contains(InputFormat::Unknown)
        }),
{
}

/// JSON wins: an input that is a JSON document with a container root is detected
/// as JSON whatever else it matches, and only such an input is.
pub proof fn json_takes_precedence(input: Seq<char>)
    ensures
        detected(input).format == InputFormat::Json <==> json_probe(input),
{
    let found = candidates(input, json_probe(input));
    if json_probe(input) {
        assert(found[0] == InputFormat::Json);
    } else {
        assert(forall|i: int| 0 <= i < found.len() ==> found[i] != InputFormat::Json);
    }
}

// ---------------------------------------------------------------------------
// Byte-order marks
// ---------------------------------------------------------------------------

/// A leading byte-order mark changes nothing for any parser.
pub proof fn bom_is_ignored(s: Seq<char>, delimiter: u8, coerce: bool)
    requires
        without_bom(s) == s,
    ensures
        json_document(seq!['\u{feff}'] + s) == json_document(s),
        jsonl_reading(seq!['\u{feff}'] + s) == jsonl_reading(s),
        table(delimiter, coerce, seq!['\u{feff}'] + s) == table(delimiter, coerce, s),
        inspection(delimiter, coerce, seq!['\u{feff}'] + s) == inspection(delimiter, coerce, s),
{
    assert((seq!['\u{feff}'] + s).drop_first() =~= s);
}

// ---------------------------------------------------------------------------
// Repeated names
// ---------------------------------------------------------------------------

/// A document that the JSON reader accepts parses exactly where none of its
/// objects, at any depth, holds two members with one name. Names are compared
/// as the strings they denote, and the error carries the first repeated one.
/// Any other document parses as the reader reads it.
pub proof fn repeated_names_are_rejected(doc: Doc, input: Seq<char>)
    requires
        is_document(doc),
        without_bom(input) == doc_text(doc),
    ensures
        json_document(input) is Ok <==> json_reading(doc_text(doc)) is Ok && !has_repeat(doc),
        has_repeat(doc) && json_reading(doc_text(doc)) is Ok ==> json_document(input) == Err::<
            Json,
            Fault,
        >(Fault::DuplicateKey { key: first_repeat(doc)->Some_0 }),
        !has_repeat(doc) ==> json_document(input) == match json_reading(doc_text(doc)) {
            Ok(v) => Ok(v),
            Err(m) => Err(Fault::JsonError(m)),
        },
{
    lemma_repeat_of_document(doc);
    lemma_first_repeat(doc);
}

// ---------------------------------------------------------------------------
// Tables
// ---------------------------------------------------------------------------

/// Parsing a table with coercion metadata reports the same metadata as an
/// inspection of the input.
pub proof fn parse_and_inspection_agree(delimiter: u8, coerce: bool, input: Seq<char>)
    requires
        table(delimiter, coerce, input) is Ok,
    ensures
        inspection(delimiter, coerce, input) == Ok::<CsvCoercionMetadata, Fault>(
            table(delimiter, coerce, input)->Ok_0.1,
        ),
{
}

/// Without coercion every cell keeps its text and no flag is raised.
pub proof fn no_coercion_keeps_text(delimiter: u8, input: Seq<char>, field: Seq<char>)
    ensures
        cell(field, false) == Json::String(field),
        table(delimiter, false, input) matches Ok(t) ==> !t.1.numeric_coercion_used
            && !t.1.lossy_coercion_possible,
{
}

/// Tables are tabular: an array of objects that all follow one header, as CSV
/// and TSV input parses to, has the tabular shape where it has enough rows.
pub proof fn tables_are_tabular(v: Json, header: Seq<Seq<char>>, config: ClassifyConfig)
    requires
        is_uniform(v, header),
        v->Array_0.len() >= config.tabular_min_rows,
        v->Array_0.len() > 0,
    ensures
        shape_of(v, config) == ShapeClass::Tabular,
{
    let items = v->Array_0;
    assert(follows(items[0], header));
    let first = items[0]->Object_0;
    assert forall|i: int| 0 <= i < items.len() implies ((#[trigger] items[i]) matches Json::Object(
        members,
    ) && conforms(members, first)) by {
        assert(follows(items[i], header));
        let members = items[i]->Object_0;
        assert forall|j: int| 0 <= j < first.len() implies has_key(
            members,
            (#[trigger] first[j]).0,
        ) by {
            assert(members[j].0 == header[j]);
        }
        assert forall|j: int| 0 <= j < members.len() implies is_primitive(
            (#[trigger] members[j]).1,
        ) by {}
    }
    assert(is_table(items));
}

/// A table that parses names no column twice.
pub proof fn parsed_columns_are_distinct(delimiter: u8, coerce: bool, input: Seq<char>)
    requires
        table(delimiter, coerce, input) is Ok,
    ensures
        csv_header(delimiter, without_bom(input)) is Ok,
        csv_header(delimiter, without_bom(input))->Ok_0.no_duplicates(),
{
    let header = csv_header(delimiter, without_bom(input))->Ok_0;
    lemma_no_repeat(header, header.len());
    assert forall|i: int, j: int| 0 <= i < header.len() && 0 <= j < header.len() && i
        != j implies header[i] != header[j] by {
        if i < j {
            assert(header.take(j)[i] == header[i]);
        } else {
            assert(header.take(i)[j] == header[j]);
        }
    }
}

/// Without a repeated name, no name occurs among the ones before it.
proof fn lemma_no_repeat(names: Seq<Seq<char>>, n: nat)
    requires
        n <= names.len(),
        repeated_name(names, n) is None,
    ensures
        forall|k: int| 0 <= k < n ==> !(#[trigger] names.take(k)).contains(names[k]),
    decreases n,
{
    if n > 0 {
        lemma_no_repeat(names, (n - 1) as nat);
    }
}

// ---------------------------------------------------------------------------
// Newline-delimited JSON
// ---------------------------------------------------------------------------

/// Texts joined by line feeds.
pub open spec fn joined(rows: Seq<Seq<char>>) -> Seq<char> {
    joined_by(rows, '\n')
}

/// Whether a text is one line: without a line feed, not empty, and without a
/// final carriage return.
pub open spec fn is_line(s: Seq<char>) -> bool {
    !s.contains('\n') && s.len() > 0 && s.last() != '\r'
}

/// Lines joined by line feeds split into the same lines.
pub proof fn joined_lines_split_back(rows: Seq<Seq<char>>)
    requires
        forall|i: int| 0 <= i < rows.len() ==> is_line(#[trigger] rows[i]),
    ensures
        lines(joined(rows)) == rows,
    decreases rows.len(),
{
    let text = joined(rows);
    if rows.len() == 0 {
        assert(lines(text) =~= rows);
    } else if rows.len() == 1 {
        lemma_position(text, '\n');
        assert(lines(text) =~= rows);
    } else {
        let rest = rows.drop_first();
        assert forall|i: int| 0 <= i < rest.len() implies is_line(#[trigger] rest[i]) by {
            assert(rest[i] == rows[i + 1]);
        }
        joined_lines_split_back(rest);
        let first = rows[0];
        let end = first.len() as int;
        assert(text[end] == '\n');
        assert forall|j: int| 0 <= j < end implies text[j] != '\n' by {
            assert(text[j] == first[j]);
        }
        lemma_position_at(text, '\n', end);
        assert(text.take(end) =~= first);
        assert(text.skip(end + 1) =~= joined(rest));
        assert(without_cr(first) == first);
        assert(lines(text) =~= seq![first] + rest);
        assert(seq![first] + rest =~= rows);
    }
}

/// A stream of JSON documents, one per line, parses into the array of their
/// values in order.
pub proof fn jsonl_reads_line_by_line(rows: Seq<Seq<char>>, values: Seq<Json>)
    requires
        rows.len() == values.len(),
        forall|i: int|
            0 <= i < rows.len() ==> is_line(#[trigger] rows[i]) && trimmed(rows[i]) == rows[i]
                && json_reading(rows[i]) == Ok::<Json, Seq<char>>(values[i]),
        without_bom(joined(rows)) == joined(rows),
    ensures
        jsonl_reading(joined(rows)) == Ok::<Json, Fault>(Json::Array(values)),
{
    joined_lines_split_back(rows);
    lemma_values_in_order(rows, values, rows.len());
    assert(values.take(values.len() as int) =~= values);
}

/// The first lines give the first values.
proof fn lemma_values_in_order(rows: Seq<Seq<char>>, values: Seq<Json>, n: nat)
    requires
        n <= rows.len(),
        rows.len() == values.len(),
        forall|i: int|
            0 <= i < rows.len() ==> is_line(#[trigger] rows[i]) && trimmed(rows[i]) == rows[i]
                && json_reading(rows[i]) == Ok::<Json, Seq<char>>(values[i]),
    ensures
        jsonl_values(rows, n) == Ok::<Seq<Json>, Fault>(values.take(n as int)),
    decreases n,
{
    if n == 0 {
        assert(values.take(0) =~= Seq::empty());
    } else {
        lemma_values_in_order(rows, values, (n - 1) as nat);
        assert(is_line(rows[n - 1]));
        assert(values.take(n as int) =~= values.take(n - 1).push(values[n - 1]));
    }
}

/// A JSONL input that parses has one value per non-blank line.
pub proof fn jsonl_has_one_value_per_live_line(input: Seq<char>)
    requires
        jsonl_reading(input) is Ok,
    ensures
        jsonl_reading(input)->Ok_0 is Array,
        jsonl_reading(input)->Ok_0->Array_0.len() == live_lines(without_bom(input)).len(),
{
    let all = lines(without_bom(input));
    lemma_value_count(all, all.len());
    assert(all.take(all.len() as int) =~= all);
}

/// As many values as non-blank lines, among the first `n`.
proof fn lemma_value_count(all: Seq<Seq<char>>, n: nat)
    requires
        n <= all.len(),
        jsonl_values(all, n) is Ok,
    ensures
        jsonl_values(all, n)->Ok_0.len() == all.take(n as int).filter(
            |line: Seq<char>| !is_blank(line),
        ).len(),
    decreases n,
{
    let p = |line: Seq<char>| !is_blank(line);
    if n == 0 {
        assert(all.take(0) =~= Seq::empty());
        crate::sequence::lemma_filter_empty(p);
    } else {
        lemma_value_count(all, (n - 1) as nat);
        assert(all.take(n as int) =~= all.take(n - 1).push(all[n - 1]));
        crate::sequence::lemma_filter_push(all.take(n - 1), all[n - 1], p);
    }
}

// ---------------------------------------------------------------------------
// Shapes
// ---------------------------------------------------------------------------

/// Scalar roots pass through.
pub proof fn scalars_pass_through(v: Json, config: ClassifyConfig)
    requires
        is_primitive(v),
    ensures
        shape_of(v, config) == ShapeClass::PassThrough,
{
}

/// `leaf` below a chain of single-key objects.
pub open spec fn chain(keys: Seq<Seq<char>>, leaf: Json) -> Json
    decreases keys.len(),
{
    if keys.len() == 0 {
        leaf
    } else {
        Json::Object(seq![(keys[0], chain(keys.drop_first(), leaf))])
    }
}

/// A chain of single-key objects over a leaf that is no object is a fold chain
/// exactly where it is long enough and within the nesting bound.
pub proof fn single_key_chains_fold(keys: Seq<Seq<char>>, leaf: Json, config: ClassifyConfig)
    requires
        keys.len() > 0,
        !(leaf is Object),
    ensures
        shape_of(chain(keys, leaf), config) == ShapeClass::FoldChain <==> config.fold_min_depth
            <= keys.len() <= FOLD_CHAIN_MAX_DEPTH,
{
    lemma_chain(keys, leaf);
}

/// The length and nesting of a chain.
proof fn lemma_chain(keys: Seq<Seq<char>>, leaf: Json)
    requires
        keys.len() > 0,
        !(leaf is Object),
    ensures
        chain(keys, leaf) is Object,
        chain_length(chain(keys, leaf)) == keys.len(),
        chain_nesting(chain(keys, leaf)) == keys.len() - 1,
    decreases keys.len(),
{
    let rest = keys.drop_first();
    let members = chain(keys, leaf)->Object_0;
    assert(members[0].1 == chain(rest, leaf));
    if rest.len() > 0 {
        lemma_chain(rest, leaf);
    } else {
        assert(chain(rest, leaf) == leaf);
    }
}

/// The set of a run of members' names.
pub open spec fn key_set(members: Seq<(Seq<char>, Json)>) -> Set<Seq<char>> {
    members.map_values(|m: (Seq<char>, Json)| m.0).to_set()
}

/// Whether members have distinct names and scalar values.
pub open spec fn is_flat_record(members: Seq<(Seq<char>, Json)>) -> bool {
    &&& members.map_values(|m: (Seq<char>, Json)| m.0).no_duplicates()
    &&& forall|i: int| 0 <= i < members.len() ==> is_primitive((#[trigger] members[i]).1)
}

/// Arrays of flat objects that share their key set are tabular, whatever the
/// order of the keys.
pub proof fn uniform_objects_are_tabular(
    rows: Seq<Seq<(Seq<char>, Json)>>,
    config: ClassifyConfig,
)
    requires
        rows.len() > 0,
        rows.len() >= config.tabular_min_rows,
        forall|i: int|
            0 <= i < rows.len() ==> is_flat_record(#[trigger] rows[i]) && key_set(rows[i])
                == key_set(rows[0]),
    ensures
        shape_of(Json::Array(Seq::new(rows.len(), |i: int| Json::Object(rows[i]))), config)
            == ShapeClass::Tabular,
{
    let items = Seq::new(rows.len(), |i: int| Json::Object(rows[i]));
    let first = rows[0];
    let first_names = first.map_values(|m: (Seq<char>, Json)| m.0);
    assert(is_flat_record(first));
    assert forall|i: int| 0 <= i < items.len() implies ((#[trigger] items[i]) matches Json::Object(
        members,
    ) && conforms(members, items[0]->Object_0)) by {
        let members = rows[i];
        let names = members.map_values(|m: (Seq<char>, Json)| m.0);
        assert(is_flat_record(members));
        names.unique_seq_to_set();
        first_names.unique_seq_to_set();
        assert forall|j: int| 0 <= j < first.len() implies has_key(
            members,
            (#[trigger] first[j]).0,
        ) by {
            assert(first_names[j] == first[j].0);
            assert(first_names.to_set().contains(first_names[j]));
            assert(names.to_set().contains(first[j].0));
            let k = choose|k: int| 0 <= k < names.len() && names[k] == first[j].0;
            assert(members[k].0 == first[j].0);
        }
    }
    assert(is_table(items));
}

// ---------------------------------------------------------------------------
// Requests
// ---------------------------------------------------------------------------

/// The preview agrees with the compression: for one input and configuration,
/// `compression_stats` predicts what `compress_content` does.
pub proof fn stats_predict_compression(
    input: Seq<char>,
    config: Config,
    compressing: CompressOutcome,
    previewing: CompressOutcome,
    output: String,
    duration_us: u64,
    result: CompressResult,
    stats: StatsResult,
)
    requires
        tells(compressing, input, compress_config_of(config)),
        tells(previewing, input, compress_config_of(config)),
        answers_compression(result, output, compressing, duration_us),
        answers_stats(stats, previewing, config),
    ensures
        stats.would_compress == result.compressed,
        stats.estimated_output_bytes == result.output_bytes,
        stats.input_bytes == result.input_bytes,
        stats.format@ == result.format@,
        stats.shape_class@ == result.shape_class@,
        optional(stats.pass_reason) == optional(result.pass_reason),
        stats.detection_confidence@ == result.detection_confidence@,
        stats.detection_ambiguous == result.detection_ambiguous,
        texts(stats.detection_candidates@) == texts(result.detection_candidates@),
        stats.numeric_coercion_used == result.numeric_coercion_used,
        stats.lossy_coercion_possible == result.lossy_coercion_possible,
{
}

// ---------------------------------------------------------------------------
// Configuration
// ---------------------------------------------------------------------------

/// An empty environment loads, without warnings, into the defaults with logging
/// enabled.
pub proof fn empty_environment_gives_defaults(c: Config)
    requires
        describes(Seq::empty(), c),
    ensures
        first_refusal(Seq::empty()) is None,
        all_warnings(Seq::empty()) == Seq::<Rejection>::empty(),
        c.logging_enabled,
        is_default(Config { logging_enabled: false, ..c }),
{
    assert(all_warnings(Seq::empty()) =~= Seq::<Rejection>::empty());
}

/// Strictness decides only about text that does not parse: lenient loading
/// replaces it by the default with a warning, strict loading refuses it, and
/// either way a usable value is taken and a violated constraint is refused.
pub proof fn strictness_decides_about_unparseable_text<T>(
    vars: Seq<(String, String)>,
    key: Seq<char>,
    read: spec_fn(Seq<char>) -> Reading<T>,
    default: T,
    messages: (Seq<char>, Seq<char>, Seq<char>),
)
    ensures
        ({
            let text = setting(vars, key);
            let lenient = settled(vars, key, read, default, false, messages);
            let strict = settled(vars, key, read, default, true, messages);
            match text {
                None => lenient == strict && lenient.value == Some(default)
                    && lenient.warnings.len() == 0,
                Some(t) => match read(t) {
                    Reading::Value(v) => lenient == strict && lenient.value == Some(v)
                        && lenient.warnings.len() == 0,
                    Reading::OutOfRange => lenient == strict && lenient.refusal is Some,
                    Reading::Unparseable => lenient.value == Some(default)
                        && lenient.warnings.len() == 1 && strict.refusal is Some
                        && strict.value is None,
                },
            }
        }),
{
}

// ---------------------------------------------------------------------------
// Groups
// ---------------------------------------------------------------------------

/// How many of the first `n` keys are `key`.
pub open spec fn occurrences(keys: Seq<Seq<char>>, key: Seq<char>, n: nat) -> nat
    decreases n,
{
    if n == 0 {
        0
    } else {
        occurrences(keys, key, (n - 1) as nat) + (if keys[n - 1] == key {
            1nat
        } else {
            0
        })
    }
}

/// The occurrences of several keys together.
pub open spec fn total_occurrences(keys: Seq<Seq<char>>, distinct: Seq<Seq<char>>, n: nat) -> nat
    decreases distinct.len(),
{
    if distinct.len() == 0 {
        0
    } else {
        total_occurrences(keys, distinct.drop_last(), n) + occurrences(keys, distinct.last(), n)
    }
}

/// Keys without occurrences add nothing.
proof fn lemma_no_occurrences(keys: Seq<Seq<char>>, distinct: Seq<Seq<char>>)
    ensures
        total_occurrences(keys, distinct, 0) == 0,
    decreases distinct.len(),
{
    if distinct.len() > 0 {
        lemma_no_occurrences(keys, distinct.drop_last());
    }
}

/// One more key adds one to the total where it is listed, and nothing otherwise.
proof fn lemma_one_more(keys: Seq<Seq<char>>, distinct: Seq<Seq<char>>, n: nat)
    requires
        n < keys.len(),
        distinct.no_duplicates(),
    ensures
        total_occurrences(keys, distinct, n + 1) == total_occurrences(keys, distinct, n) + (
        if distinct.contains(keys[n as int]) {
            1nat
        } else {
            0
        }),
    decreases distinct.len(),
{
    if distinct.len() > 0 {
        let front = distinct.drop_last();
        let last = distinct.last();
        lemma_one_more(keys, front, n);
        let x = keys[n as int];
        if last == x {
            if front.contains(x) {
                let i = choose|i: int| 0 <= i < front.len() && front[i] == x;
                assert(distinct[i] == distinct[distinct.len() - 1]);
            }
            assert(distinct[distinct.len() - 1] == x);
        } else if distinct.contains(x) {
            let i = choose|i: int| 0 <= i < distinct.len() && distinct[i] == x;
            assert(front[i] == x);
        } else if front.contains(x) {
            let i = choose|i: int| 0 <= i < front.len() && front[i] == x;
            assert(distinct[i] == x);
        }
    }
}

/// Distinct keys that list every key account for all of them.
proof fn lemma_listed_keys_cover(keys: Seq<Seq<char>>, distinct: Seq<Seq<char>>, n: nat)
    requires
        n <= keys.len(),
        distinct.no_duplicates(),
        forall|k: int| 0 <= k < n ==> distinct.contains(#[trigger] keys[k]),
    ensures
        total_occurrences(keys, distinct, n) == n,
    decreases n,
{
    if n == 0 {
        lemma_no_occurrences(keys, distinct);
    } else {
        lemma_listed_keys_cover(keys, distinct, (n - 1) as nat);
        lemma_one_more(keys, distinct, (n - 1) as nat);
        assert(distinct.contains(keys[n - 1]));
    }
}

/// The sizes of the first `n` groups together.
pub open spec fn group_total(groups: Seq<Group>, n: nat) -> nat
    decreases n,
{
    if n == 0 {
        0
    } else {
        group_total(groups, (n - 1) as nat) + groups[n - 1].members@.len()
    }
}

/// The indices of a key are its occurrences.
proof fn lemma_indices_count(keys: Seq<Seq<char>>, key: Seq<char>, n: nat)
    ensures
        indices_of(keys, key, n).len() == occurrences(keys, key, n),
    decreases n,
{
    if n > 0 {
        lemma_indices_count(keys, key, (n - 1) as nat);
    }
}

/// The sizes of groups are the occurrences of their keys.
proof fn lemma_group_sizes(
    groups: Seq<Group>,
    keys: Seq<Seq<char>>,
    distinct: Seq<Seq<char>>,
    m: nat,
)
    requires
        m <= groups.len(),
        grouped(groups, keys, keys.len()),
        distinct == Seq::new(m, |i: int| groups[i].key@),
    ensures
        group_total(groups, m) == total_occurrences(keys, distinct, keys.len()),
    decreases m,
{
    if m > 0 {
        let front = Seq::new((m - 1) as nat, |i: int| groups[i].key@);
        assert(distinct.drop_last() =~= front);
        lemma_group_sizes(groups, keys, front, (m - 1) as nat);
        lemma_indices_count(keys, groups[m - 1].key@, keys.len());
        assert(ints(groups[m - 1].members@).len() == groups[m - 1].members@.len());
        assert(distinct.last() == groups[m - 1].key@);
    }
}

/// Grouping loses and repeats nothing: the groups' sizes add up to the number of
/// items.
pub proof fn groups_account_for_every_item(groups: Seq<Group>, keys: Seq<Seq<char>>)
    requires
        grouped(groups, keys, keys.len()),
    ensures
        group_total(groups, groups.len()) == keys.len(),
{
    let distinct = Seq::new(groups.len(), |i: int| groups[i].key@);
    lemma_group_sizes(groups, keys, distinct, groups.len());
    assert forall|i: int, j: int| 0 <= i < distinct.len() && 0 <= j < distinct.len() && i
        != j implies distinct[i] != distinct[j] by {
        if i < j {
            assert(precedes(groups[i].key@, groups[j].key@));
        } else {
            assert(precedes(groups[j].key@, groups[i].key@));
        }
        lemma_not_before_itself(distinct[i]);
    }
    assert forall|k: int| 0 <= k < keys.len() implies distinct.contains(#[trigger] keys[k]) by {
        assert(has_group(groups, keys[k]));
        let w = choose|w: int| 0 <= w < groups.len() && (#[trigger] groups[w]).key@ == keys[k];
        assert(distinct[w] == keys[k]);
    }
    lemma_listed_keys_cover(keys, distinct, keys.len());
}

// ---------------------------------------------------------------------------
// The event log
// ---------------------------------------------------------------------------

/// The partition keys of events.
pub open spec fn event_keys(events: Seq<LogEvent>) -> Seq<Seq<char>> {
    events.map_values(|e: LogEvent| partition_key(e.ts_us))
}

/// The events of a day are the occurrences of its key.
proof fn lemma_day_count(events: Seq<LogEvent>, day: Seq<char>)
    ensures
        events.filter(on_day(day)).len() == occurrences(event_keys(events), day, events.len()),
    decreases events.len(),
{
    if events.len() == 0 {
        assert(events =~= Seq::empty());
        crate::sequence::lemma_filter_empty(on_day(day));
    } else {
        let front = events.drop_last();
        lemma_day_count(front, day);
        assert(front.push(events.last()) =~= events);
        crate::sequence::lemma_filter_push(front, events.last(), on_day(day));
        lemma_same_prefix(event_keys(front), event_keys(events), day, front.len());
        assert(event_keys(events)[events.len() - 1] == partition_key(events.last().ts_us));
    }
}

/// Occurrences depend on the counted prefix only.
proof fn lemma_same_prefix(a: Seq<Seq<char>>, b: Seq<Seq<char>>, key: Seq<char>, n: nat)
    requires
        n <= a.len(),
        n <= b.len(),
        forall|i: int| 0 <= i < n ==> a[i] == b[i],
    ensures
        occurrences(a, key, n) == occurrences(b, key, n),
    decreases n,
{
    if n > 0 {
        lemma_same_prefix(a, b, key, (n - 1) as nat);
    }
}

/// The sizes of the first `n` partitions together.
pub open spec fn partition_total(partitions: Seq<Partition>, n: nat) -> nat
    decreases n,
{
    if n == 0 {
        0
    } else {
        partition_total(partitions, (n - 1) as nat) + partitions[n - 1].events@.len()
    }
}

/// The sizes of partitions are the occurrences of their days.
proof fn lemma_partition_sizes(
    partitions: Seq<Partition>,
    events: Seq<LogEvent>,
    distinct: Seq<Seq<char>>,
    m: nat,
)
    requires
        m <= partitions.len(),
        spreads(partitions, events),
        distinct == Seq::new(m, |i: int| partitions[i].day@),
    ensures
        partition_total(partitions, m) == total_occurrences(
            event_keys(events),
            distinct,
            events.len(),
        ),
    decreases m,
{
    if m > 0 {
        let front = Seq::new((m - 1) as nat, |i: int| partitions[i].day@);
        assert(distinct.drop_last() =~= front);
        lemma_partition_sizes(partitions, events, front, (m - 1) as nat);
        lemma_day_count(events, partitions[m - 1].day@);
        assert(distinct.last() == partitions[m - 1].day@);
    }
}

/// Spreading events over partitions loses and repeats none: the partitions'
/// sizes add up to the number of events.
pub proof fn partitions_account_for_every_event(
    partitions: Seq<Partition>,
    events: Seq<LogEvent>,
)
    requires
        spreads(partitions, events),
    ensures
        partition_total(partitions, partitions.len()) == events.len(),
{
    let keys = event_keys(events);
    let distinct = Seq::new(partitions.len(), |i: int| partitions[i].day@);
    lemma_partition_sizes(partitions, events, distinct, partitions.len());
    assert forall|i: int, j: int| 0 <= i < distinct.len() && 0 <= j < distinct.len() && i
        != j implies distinct[i] != distinct[j] by {
        if i < j {
            assert(partitions[i].day@ != partitions[j].day@);
        } else {
            assert(partitions[j].day@ != partitions[i].day@);
        }
    }
    assert forall|k: int| 0 <= k < keys.len() implies distinct.contains(#[trigger] keys[k]) by {
        assert(keys[k] == partition_key(events[k].ts_us));
        assert(has_day(partitions, partition_key(events[k].ts_us)));
        let w = choose|w: int|
            0 <= w < partitions.len() && (#[trigger] partitions[w]).day@ == keys[k];
        assert(distinct[w] == keys[k]);
    }
    lemma_listed_keys_cover(keys, distinct, events.len());
}

/// The events of the first `n` outcomes that were written.
pub open spec fn written(outcomes: Seq<PartitionOutcome>, n: nat) -> nat
    decreases n,
{
    if n == 0 {
        0
    } else {
        written(outcomes, (n - 1) as nat) + (if outcomes[n - 1].error is None {
            outcomes[n - 1].events@.len()
        } else {
            0
        })
    }
}

/// A flush accounts for every event: each one was written, or is kept for a
/// retry, or is counted as dropped.
pub proof fn flush_accounts_for_every_event(
    partitions: Seq<Partition>,
    events: Seq<LogEvent>,
    outcomes: Seq<PartitionOutcome>,
    buffer_size: nat,
)
    requires
        spreads(partitions, events),
        outcomes.len() == partitions.len(),
        forall|i: int|
            0 <= i < outcomes.len() ==> (#[trigger] outcomes[i]).events@ == partitions[i].events@,
    ensures
        ({
            let waiting = unwritten(outcomes).len();
            let kept = room_for(waiting, 0, buffer_size);
            &&& kept <= waiting
            &&& kept <= buffer_size
            &&& events.len() == written(outcomes, outcomes.len()) + kept + (waiting - kept)
        }),
{
    partitions_account_for_every_event(partitions, events);
    lemma_outcome_total(partitions, outcomes, outcomes.len());
    assert(outcomes.take(outcomes.len() as int) =~= outcomes);
}

/// Written and unwritten events together are those of the partitions.
proof fn lemma_outcome_total(
    partitions: Seq<Partition>,
    outcomes: Seq<PartitionOutcome>,
    n: nat,
)
    requires
        n <= outcomes.len(),
        outcomes.len() == partitions.len(),
        forall|i: int|
            0 <= i < outcomes.len() ==> (#[trigger] outcomes[i]).events@ == partitions[i].events@,
    ensures
        partition_total(partitions, n) == written(outcomes, n) + unwritten(
            outcomes.take(n as int),
        ).len(),
    decreases n,
{
    if n > 0 {
        lemma_outcome_total(partitions, outcomes, (n - 1) as nat);
        assert(outcomes.take(n as int).drop_last() =~= outcomes.take(n - 1));
        assert(outcomes.take(n as int).last() == outcomes[n - 1]);
    } else {
        assert(outcomes.take(0) =~= Seq::empty());
    }
}

// ---------------------------------------------------------------------------
// A run of the writer
// ---------------------------------------------------------------------------

/// What a run of the writer leaves: the events still buffered, and the batches
/// that its flushes took, in order.
pub struct WriterRun {
    pub pending: Seq<LogEvent>,
    pub batches: Seq<Seq<LogEvent>>,
}

/// The run of a writer over these events, where no write fails: a flush empties
/// the buffer and nothing comes back.
pub open spec fn writer_run(capacity: nat, events: Seq<WriterEvent>) -> WriterRun
    decreases events.len(),
{
    if events.len() == 0 {
        WriterRun { pending: Seq::empty(), batches: Seq::empty() }
    } else {
        let before = writer_run(capacity, events.drop_last());
        let pending = match events.last() {
            WriterEvent::Record(e) => before.pending.push(e),
            _ => before.pending,
        };
        if step_for(events.last(), pending.len() >= capacity, pending.len() == 0).flush {
            WriterRun { pending: Seq::empty(), batches: before.batches.push(pending) }
        } else {
            WriterRun { pending, batches: before.batches }
        }
    }
}

/// The events that were handed over to be logged, in order.
pub open spec fn recorded(events: Seq<WriterEvent>) -> Seq<LogEvent>
    decreases events.len(),
{
    if events.len() == 0 {
        Seq::empty()
    } else {
        match events.last() {
            WriterEvent::Record(e) => recorded(events.drop_last()).push(e),
            _ => recorded(events.drop_last()),
        }
    }
}

/// What one flush appends to the file of a day.
pub open spec fn appended(partitions: Seq<Partition>, day: Seq<char>) -> Seq<LogEvent>
    decreases partitions.len(),
{
    if partitions.len() == 0 {
        Seq::empty()
    } else {
        appended(partitions.drop_last(), day) + if partitions.last().day@ == day {
            partitions.last().events@
        } else {
            Seq::empty()
        }
    }
}

/// What a run of flushes leaves in the file of a day.
pub open spec fn day_file(flushes: Seq<Seq<Partition>>, day: Seq<char>) -> Seq<LogEvent>
    decreases flushes.len(),
{
    if flushes.len() == 0 {
        Seq::empty()
    } else {
        day_file(flushes.drop_last(), day) + appended(flushes.last(), day)
    }
}

/// All batches in order.
spec fn all_batches(batches: Seq<Seq<LogEvent>>) -> Seq<LogEvent>
    decreases batches.len(),
{
    if batches.len() == 0 {
        Seq::empty()
    } else {
        all_batches(batches.drop_last()) + batches.last()
    }
}

/// A flush without failures gives nothing back and reports no error.
pub proof fn written_events_do_not_come_back(outcomes: Seq<PartitionOutcome>)
    requires
        forall|i: int| 0 <= i < outcomes.len() ==> (#[trigger] outcomes[i]).error is None,
    ensures
        unwritten(outcomes) == Seq::<LogEvent>::empty(),
        first_error(outcomes) is None,
    decreases outcomes.len(),
{
    if outcomes.len() > 0 {
        let front = outcomes.drop_last();
        assert forall|i: int| 0 <= i < front.len() implies (#[trigger] front[i]).error is None by {
            assert(front[i] == outcomes[i]);
        }
        written_events_do_not_come_back(front);
        assert(outcomes.last() == outcomes[outcomes.len() - 1]);
        assert(unwritten(outcomes) =~= Seq::empty());
    }
}

proof fn lemma_run_keeps_all(capacity: nat, events: Seq<WriterEvent>)
    ensures
        ({
            let run = writer_run(capacity, events);
            recorded(events) == all_batches(run.batches) + run.pending
        }),
    decreases events.len(),
{
    let run = writer_run(capacity, events);
    if events.len() == 0 {
        assert(all_batches(run.batches) + run.pending =~= recorded(events));
    } else {
        let before = writer_run(capacity, events.drop_last());
        lemma_run_keeps_all(capacity, events.drop_last());
        if run.batches.len() > before.batches.len() {
            assert(run.batches.drop_last() =~= before.batches);
        }
        assert(all_batches(run.batches) + run.pending =~= recorded(events));
    }
}

proof fn lemma_appended_once(partitions: Seq<Partition>, day: Seq<char>, at: int)
    requires
        forall|i: int, j: int|
            0 <= i < j < partitions.len() ==> (#[trigger] partitions[i]).day@ != (
            #[trigger] partitions[j]).day@,
        has_day(partitions, day) ==> 0 <= at < partitions.len() && partitions[at].day@ == day,
    ensures
        appended(partitions, day) == if has_day(partitions, day) {
            partitions[at].events@
        } else {
            Seq::<LogEvent>::empty()
        },
    decreases partitions.len(),
{
    if partitions.len() > 0 {
        let front = partitions.drop_last();
        let last = partitions.len() - 1;
        assert forall|i: int, j: int| 0 <= i < j < front.len() implies (#[trigger] front[i]).day@
            != (#[trigger] front[j]).day@ by {
            assert(front[i] == partitions[i] && front[j] == partitions[j]);
        }
        assert(partitions.last() == partitions[last]);
        if has_day(front, day) {
            let k = choose|k: int| 0 <= k < front.len() && (#[trigger] front[k]).day@ == day;
            assert(partitions[k].day@ == day);
            assert(has_day(partitions, day));
            assert(partitions[k].day@ != partitions[last].day@);
            assert(at < last);
            assert(front[at] == partitions[at]);
            lemma_appended_once(front, day, at);
        } else {
            lemma_appended_once(front, day, 0);
            if has_day(partitions, day) && at < last {
                assert(front[at].day@ == day);
            }
        }
        assert(appended(partitions, day) =~= if has_day(partitions, day) {
            partitions[at].events@
        } else {
            Seq::<LogEvent>::empty()
        });
    }
}

proof fn lemma_appended(partitions: Seq<Partition>, events: Seq<LogEvent>, day: Seq<char>)
    requires
        spreads(partitions, events),
    ensures
        appended(partitions, day) == events.filter(on_day(day)),
{
    if has_day(partitions, day) {
        let at = choose|i: int|
            0 <= i < partitions.len() && (#[trigger] partitions[i]).day@ == day;
        lemma_appended_once(partitions, day, at);
    } else {
        lemma_appended_once(partitions, day, 0);
        lemma_no_day(partitions, events, day);
    }
}

proof fn lemma_day_file(
    flushes: Seq<Seq<Partition>>,
    batches: Seq<Seq<LogEvent>>,
    day: Seq<char>,
)
    requires
        flushes.len() == batches.len(),
        forall|k: int| 0 <= k < flushes.len() ==> spreads(#[trigger] flushes[k], batches[k]),
    ensures
        day_file(flushes, day) == all_batches(batches).filter(on_day(day)),
    decreases flushes.len(),
{
    if flushes.len() == 0 {
        lemma_filter_empty(on_day(day));
    } else {
        let (front, earlier) = (flushes.drop_last(), batches.drop_last());
        assert forall|k: int| 0 <= k < front.len() implies spreads(
            #[trigger] front[k],
            earlier[k],
        ) by {
            assert(front[k] == flushes[k]);
        }
        lemma_day_file(front, earlier, day);
        assert(flushes.last() == flushes[flushes.len() - 1]);
        lemma_appended(flushes.last(), batches.last(), day);
        Seq::filter_distributes_over_add(all_batches(earlier), batches.last(), on_day(day));
    }
}

/// A run of the writer that ends in a shutdown and sees no failure writes every
/// event once: nothing stays buffered, and the file of each day holds exactly
/// the events of that day in the order in which they were recorded.
pub proof fn shutdown_leaves_every_event_written(
    capacity: nat,
    events: Seq<WriterEvent>,
    flushes: Seq<Seq<Partition>>,
    day: Seq<char>,
)
    requires
        events.len() > 0,
        events.last() is Shutdown,
        flushes.len() == writer_run(capacity, events).batches.len(),
        forall|k: int|
            0 <= k < flushes.len() ==> spreads(
                #[trigger] flushes[k],
                writer_run(capacity, events).batches[k],
            ),
    ensures
        writer_run(capacity, events).pending == Seq::<LogEvent>::empty(),
        day_file(flushes, day) == recorded(events).filter(on_day(day)),
{
    let run = writer_run(capacity, events);
    lemma_run_keeps_all(capacity, events);
    lemma_day_file(flushes, run.batches, day);
    assert(all_batches(run.batches) + run.pending =~= all_batches(run.batches));
}

// ---------------------------------------------------------------------------
// Metrics
// ---------------------------------------------------------------------------

/// The request counters start out consistent, stay so over whatever is counted,
/// and only grow, as long as none of them wraps.
pub proof fn metrics_grow_consistently(
    m: Metrics,
    duration_us: u64,
    kind: FailureKind,
    logged: Result<RecordOutcome, LogError>,
)
    requires
        consistent(m),
        has_room(m, duration_us),
    ensures
        consistent(no_metrics()),
        consistent(after_success(m, duration_us)),
        no_greater(m, after_success(m, duration_us)),
        consistent(after_failure(m, kind)),
        no_greater(m, after_failure(m, kind)),
        consistent(after_timeout(m)),
        no_greater(m, after_timeout(m)),
        consistent(after_log(m, logged)),
        no_greater(m, after_log(m, logged)),
{
}

} // verus!
