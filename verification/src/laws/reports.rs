//! What the evaluation's report counts.

use vstd::prelude::*;
use crate::evals::comprehension::ComprehensionResult;
use crate::evals::corpus::numbered_rows;
use crate::evals::pipeline::PipelineResult;
use crate::evals::report::{
    byte_pair, compressed_among, counts, everything, failures, firsts, formats_of, gradings,
    grouped, indices_of, ints, is_accuracy, kinds_of, pairs, pipeline_pair, reasons_of,
    reports_comprehension, reports_pipeline, right_json, right_toon, seconds, shapes_of, sums_up,
    tested, token_pair, Bucket, Group, Report,
};
use crate::ratio::Savings;
use crate::sequence::{lemma_filter_empty, lemma_filter_push};
use crate::text::{is_blank, precedes};

verus! {

/// Whether a bucket counts these measurements, and lists what each of them saves
/// in order: as the server would do it, by encoding alone, and in tokens where
/// the payload has any.
pub open spec fn counts_measurements(b: Bucket, results: Seq<PipelineResult>) -> bool {
    &&& b.n == results.len()
    &&& b.compressed == results.filter(|r: PipelineResult| r.compressed).len()
    &&& b.pipeline_savings@ == results.filter(
        |r: PipelineResult| r.pipeline_toon_bytes is Some,
    ).map_values(
        |r: PipelineResult|
            Savings { input_bytes: r.original_bytes, output_bytes: r.pipeline_toon_bytes->0 },
    )
    &&& b.byte_savings@ == results.filter(|r: PipelineResult| r.toon_bytes is Some).map_values(
        |r: PipelineResult|
            Savings { input_bytes: r.original_bytes, output_bytes: r.toon_bytes->0 },
    )
    &&& b.token_savings@ == results.filter(
        |r: PipelineResult|
            r.orig_tokens is Some && r.toon_tokens is Some && r.orig_tokens->0 > 0,
    ).map_values(
        |r: PipelineResult|
            Savings { input_bytes: r.orig_tokens->0, output_bytes: r.toon_tokens->0 },
    )
}

/// The measurements of a format.
pub open spec fn of_format(key: Seq<char>) -> spec_fn(PipelineResult) -> bool {
    |r: PipelineResult| r.format@ == key
}

/// The measurements of an intended shape.
pub open spec fn of_shape(key: Seq<char>) -> spec_fn(PipelineResult) -> bool {
    |r: PipelineResult| r.intended_shape@ == key
}

/// The measurements that were passed through for a reason.
pub open spec fn passed_for(key: Seq<char>) -> spec_fn(PipelineResult) -> bool {
    |r: PipelineResult| r.pass_reason is Some && r.pass_reason->0@ == key
}

/// The answers to a kind of question.
pub open spec fn of_kind(key: Seq<char>) -> spec_fn(ComprehensionResult) -> bool {
    |r: ComprehensionResult| r.qtype@ == key
}

/// The chosen measurements, in order.
spec fn picked(results: Seq<PipelineResult>, chosen: Seq<int>) -> Seq<PipelineResult> {
    Seq::new(chosen.len(), |i: int| results[chosen[i]])
}

proof fn lemma_pairs(
    results: Seq<PipelineResult>,
    chosen: Seq<int>,
    pair: spec_fn(PipelineResult) -> Option<Savings>,
    has: spec_fn(PipelineResult) -> bool,
    get: spec_fn(PipelineResult) -> Savings,
    n: nat,
)
    requires
        n <= chosen.len(),
        forall|r: PipelineResult| (#[trigger] pair(r)) == if has(r) {
            Some(get(r))
        } else {
            None
        },
    ensures
        pairs(results, chosen, pair, n) == picked(results, chosen).take(n as int).filter(
            has,
        ).map_values(get),
    decreases n,
{
    let all = picked(results, chosen);
    if n == 0 {
        assert(all.take(0) =~= Seq::empty());
        lemma_filter_empty(has);
        assert(pairs(results, chosen, pair, n) =~= all.take(0).filter(has).map_values(get));
    } else {
        lemma_pairs(results, chosen, pair, has, get, (n - 1) as nat);
        let last = all[n - 1];
        assert(all.take(n as int) =~= all.take(n - 1).push(last));
        lemma_filter_push(all.take(n - 1), last, has);
        let before = all.take(n - 1).filter(has);
        assert(pair(last) == if has(last) {
            Some(get(last))
        } else {
            None
        });
        assert(before.push(last).map_values(get) =~= before.map_values(get).push(get(last)));
    }
}

proof fn lemma_compressed(results: Seq<PipelineResult>, chosen: Seq<int>, n: nat)
    requires
        n <= chosen.len(),
    ensures
        compressed_among(results, chosen, n) == picked(results, chosen).take(n as int).filter(
            |r: PipelineResult| r.compressed,
        ).len(),
    decreases n,
{
    let p = |r: PipelineResult| r.compressed;
    let all = picked(results, chosen);
    if n == 0 {
        assert(all.take(0) =~= Seq::empty());
        lemma_filter_empty(p);
    } else {
        lemma_compressed(results, chosen, (n - 1) as nat);
        assert(all.take(n as int) =~= all.take(n - 1).push(all[n - 1]));
        lemma_filter_push(all.take(n - 1), all[n - 1], p);
    }
}

proof fn lemma_sums(b: Bucket, results: Seq<PipelineResult>, chosen: Seq<int>)
    requires
        sums_up(b, results, chosen),
    ensures
        counts_measurements(b, picked(results, chosen)),
{
    let n = chosen.len();
    let all = picked(results, chosen);
    assert(all.take(n as int) =~= all);
    lemma_compressed(results, chosen, n);
    lemma_pairs(
        results,
        chosen,
        |r: PipelineResult| pipeline_pair(r),
        |r: PipelineResult| r.pipeline_toon_bytes is Some,
        |r: PipelineResult|
            Savings { input_bytes: r.original_bytes, output_bytes: r.pipeline_toon_bytes->0 },
        n,
    );
    lemma_pairs(
        results,
        chosen,
        |r: PipelineResult| byte_pair(r),
        |r: PipelineResult| r.toon_bytes is Some,
        |r: PipelineResult| Savings { input_bytes: r.original_bytes, output_bytes: r.toon_bytes->0 },
        n,
    );
    lemma_pairs(
        results,
        chosen,
        |r: PipelineResult| token_pair(r),
        |r: PipelineResult|
            r.orig_tokens is Some && r.toon_tokens is Some && r.orig_tokens->0 > 0,
        |r: PipelineResult| Savings { input_bytes: r.orig_tokens->0, output_bytes: r.toon_tokens->0 },
        n,
    );
}

proof fn lemma_chosen_by_key(
    results: Seq<PipelineResult>,
    keys: Seq<Seq<char>>,
    key: Seq<char>,
    n: nat,
    p: spec_fn(PipelineResult) -> bool,
)
    requires
        n <= results.len(),
        keys.len() == results.len(),
        forall|i: int| 0 <= i < results.len() ==> (p(#[trigger] results[i]) <==> keys[i] == key),
    ensures
        picked(results, indices_of(keys, key, n)) == results.take(n as int).filter(p),
    decreases n,
{
    let chosen = indices_of(keys, key, n);
    if n == 0 {
        assert(results.take(0) =~= Seq::empty());
        lemma_filter_empty(p);
        assert(picked(results, chosen) =~= results.take(0).filter(p));
    } else {
        lemma_chosen_by_key(results, keys, key, (n - 1) as nat, p);
        assert(results.take(n as int) =~= results.take(n - 1).push(results[n - 1]));
        lemma_filter_push(results.take(n - 1), results[n - 1], p);
        let before = indices_of(keys, key, (n - 1) as nat);
        if keys[n - 1] == key {
            assert(picked(results, chosen) =~= picked(results, before).push(results[n - 1]));
        }
    }
}

/// The report's total counts all measurements.
pub proof fn the_total_counts_everything(report: Report, results: Seq<PipelineResult>)
    requires
        reports_pipeline(report, results),
    ensures
        counts_measurements(report.overall, results),
{
    lemma_sums(report.overall, results, everything(results.len()));
    assert(picked(results, everything(results.len())) =~= results);
}

/// Each row by format counts exactly the measurements of that format, the rows
/// come in strictly increasing order of their formats, and every format has one.
/// So it is by intended shape.
pub proof fn rows_count_their_own(report: Report, results: Seq<PipelineResult>)
    requires
        reports_pipeline(report, results),
    ensures
        forall|i: int|
            0 <= i < report.by_format@.len() ==> counts_measurements(
                (#[trigger] report.by_format@[i]).bucket,
                results.filter(of_format(report.by_format@[i].key@)),
            ),
        forall|i: int, j: int|
            0 <= i < j < report.by_format@.len() ==> precedes(
                (#[trigger] report.by_format@[i]).key@,
                (#[trigger] report.by_format@[j]).key@,
            ),
        forall|k: int|
            0 <= k < results.len() ==> exists|i: int|
                0 <= i < report.by_format@.len() && (#[trigger] report.by_format@[i]).key@
                    == (#[trigger] results[k]).format@,
        forall|i: int|
            0 <= i < report.by_shape@.len() ==> counts_measurements(
                (#[trigger] report.by_shape@[i]).bucket,
                results.filter(of_shape(report.by_shape@[i].key@)),
            ),
        forall|i: int, j: int|
            0 <= i < j < report.by_shape@.len() ==> precedes(
                (#[trigger] report.by_shape@[i]).key@,
                (#[trigger] report.by_shape@[j]).key@,
            ),
        forall|k: int|
            0 <= k < results.len() ==> exists|i: int|
                0 <= i < report.by_shape@.len() && (#[trigger] report.by_shape@[i]).key@
                    == (#[trigger] results[k]).intended_shape@,
{
    let n = results.len();
    assert(results.take(n as int) =~= results);
    let formats = formats_of(results);
    let rows = report.by_format@;
    let groups = choose|groups: Seq<Group>| #[trigger]
        grouped(groups, formats, formats.len()) && rows.len() == groups.len() && forall|i: int|
            0 <= i < rows.len() ==> (#[trigger] rows[i]).key@ == groups[i].key@ && sums_up(
                rows[i].bucket,
                results,
                ints(groups[i].members@),
            );
    assert forall|i: int| 0 <= i < rows.len() implies counts_measurements(
        (#[trigger] rows[i]).bucket,
        results.filter(of_format(rows[i].key@)),
    ) by {
        let key = rows[i].key@;
        let p = of_format(key);
        assert(groups[i].key@ == key);
        lemma_chosen_by_key(results, formats, key, n, p);
        lemma_sums(rows[i].bucket, results, ints(groups[i].members@));
    }
    assert forall|i: int, j: int| 0 <= i < j < rows.len() implies precedes(
        (#[trigger] rows[i]).key@,
        (#[trigger] rows[j]).key@,
    ) by {
        assert(precedes(groups[i].key@, groups[j].key@));
    }
    assert forall|k: int| 0 <= k < n implies exists|i: int|
        0 <= i < rows.len() && (#[trigger] rows[i]).key@ == (#[trigger] results[k]).format@ by {
        assert(formats[k] == results[k].format@);
        let i = choose|i: int| 0 <= i < groups.len() && (#[trigger] groups[i]).key@ == formats[k];
        assert(rows[i].key@ == results[k].format@);
    }
    let shapes = shapes_of(results);
    let lines = report.by_shape@;
    let sets = choose|groups: Seq<Group>| #[trigger]
        grouped(groups, shapes, shapes.len()) && lines.len() == groups.len() && forall|i: int|
            0 <= i < lines.len() ==> (#[trigger] lines[i]).key@ == groups[i].key@ && sums_up(
                lines[i].bucket,
                results,
                ints(groups[i].members@),
            );
    assert forall|i: int| 0 <= i < lines.len() implies counts_measurements(
        (#[trigger] lines[i]).bucket,
        results.filter(of_shape(lines[i].key@)),
    ) by {
        let key = lines[i].key@;
        let p = of_shape(key);
        assert(sets[i].key@ == key);
        lemma_chosen_by_key(results, shapes, key, n, p);
        lemma_sums(lines[i].bucket, results, ints(sets[i].members@));
    }
    assert forall|i: int, j: int| 0 <= i < j < lines.len() implies precedes(
        (#[trigger] lines[i]).key@,
        (#[trigger] lines[j]).key@,
    ) by {
        assert(precedes(sets[i].key@, sets[j].key@));
    }
    assert forall|k: int| 0 <= k < n implies exists|i: int|
        0 <= i < lines.len() && (#[trigger] lines[i]).key@ == (
        #[trigger] results[k]).intended_shape@ by {
        assert(shapes[k] == results[k].intended_shape@);
        let i = choose|i: int| 0 <= i < sets.len() && (#[trigger] sets[i]).key@ == shapes[k];
        assert(lines[i].key@ == results[k].intended_shape@);
    }
}

proof fn lemma_outcomes(results: Seq<PipelineResult>, n: nat)
    requires
        n <= results.len(),
    ensures
        ({
            let part = results.take(n as int);
            &&& tested(results, n) == part.filter(
                |r: PipelineResult| r.roundtrip_ok is Some,
            ).len()
            &&& gradings(results, n).0.len() == part.filter(
                |r: PipelineResult| r.shape_correct is Some,
            ).len()
            &&& gradings(results, n).1 == part.filter(
                |r: PipelineResult| r.shape_correct == Some(true),
            ).len()
            &&& failures(results, n).len() == part.filter(
                |r: PipelineResult| r.roundtrip_ok == Some(false),
            ).len()
            &&& forall|k: int|
                0 <= k < failures(results, n).len() ==> 0 <= #[trigger] failures(results, n)[k] < n
                    && results[failures(results, n)[k]].roundtrip_ok == Some(false)
            &&& forall|j: int, k: int|
                0 <= j < k < failures(results, n).len() ==> #[trigger] failures(results, n)[j]
                    < #[trigger] failures(results, n)[k]
            &&& forall|i: int|
                0 <= i < n && (#[trigger] results[i]).roundtrip_ok == Some(false) ==> failures(
                    results,
                    n,
                ).contains(i)
        }),
    decreases n,
{
    let has_trip = |r: PipelineResult| r.roundtrip_ok is Some;
    let has_shape = |r: PipelineResult| r.shape_correct is Some;
    let right = |r: PipelineResult| r.shape_correct == Some(true);
    let wrong = |r: PipelineResult| r.roundtrip_ok == Some(false);
    if n == 0 {
        assert(results.take(0) =~= Seq::empty());
        lemma_filter_empty(has_trip);
        lemma_filter_empty(has_shape);
        lemma_filter_empty(right);
        lemma_filter_empty(wrong);
    } else {
        lemma_outcomes(results, (n - 1) as nat);
        let front = results.take(n - 1);
        assert(results.take(n as int) =~= front.push(results[n - 1]));
        lemma_filter_push(front, results[n - 1], has_trip);
        lemma_filter_push(front, results[n - 1], has_shape);
        lemma_filter_push(front, results[n - 1], right);
        lemma_filter_push(front, results[n - 1], wrong);
        let before = failures(results, (n - 1) as nat);
        let after = failures(results, n);
        if results[n - 1].roundtrip_ok == Some(false) {
            assert(after[before.len() as int] == n - 1);
            assert forall|i: int|
                0 <= i < n && (#[trigger] results[i]).roundtrip_ok == Some(false) implies after.contains(
                i,
            ) by {
                if i < n - 1 {
                    let k = choose|k: int| 0 <= k < before.len() && before[k] == i;
                    assert(after[k] == i);
                }
            }
        }
    }
}

/// The report counts how many round trips were tested and lists exactly those
/// that failed, in order; and it counts how many shapes were graded and how many
/// of them were right.
pub proof fn outcomes_are_counted(report: Report, results: Seq<PipelineResult>)
    requires
        reports_pipeline(report, results),
    ensures
        report.roundtrip_tested == results.filter(
            |r: PipelineResult| r.roundtrip_ok is Some,
        ).len(),
        report.roundtrip_failures@.len() == results.filter(
            |r: PipelineResult| r.roundtrip_ok == Some(false),
        ).len(),
        forall|k: int|
            0 <= k < report.roundtrip_failures@.len() ==> (#[trigger] report.roundtrip_failures@[k])
                < results.len() && results[report.roundtrip_failures@[k] as int].roundtrip_ok
                == Some(false),
        forall|j: int, k: int|
            0 <= j < k < report.roundtrip_failures@.len() ==> #[trigger] report.roundtrip_failures@[j]
                < #[trigger] report.roundtrip_failures@[k],
        report.graded == results.filter(|r: PipelineResult| r.shape_correct is Some).len(),
        report.correct == results.filter(
            |r: PipelineResult| r.shape_correct == Some(true),
        ).len(),
{
    let n = results.len();
    lemma_outcomes(results, n);
    assert(results.take(n as int) =~= results);
    let listed = report.roundtrip_failures@;
    let found = failures(results, n);
    assert(ints(listed).len() == listed.len());
    assert forall|k: int| 0 <= k < listed.len() implies (#[trigger] listed[k]) < n
        && results[listed[k] as int].roundtrip_ok == Some(false) by {
        assert(found[k] == ints(listed)[k]);
    }
    assert forall|j: int, k: int| 0 <= j < k < listed.len() implies #[trigger] listed[j]
        < #[trigger] listed[k] by {
        assert(found[j] == ints(listed)[j] && found[k] == ints(listed)[k]);
    }
}

proof fn lemma_reasons(results: Seq<PipelineResult>, key: Seq<char>, n: nat)
    requires
        n <= results.len(),
    ensures
        ({
            let reasons = reasons_of(results, n);
            indices_of(reasons, key, reasons.len()).len() == results.take(n as int).filter(
                passed_for(key),
            ).len()
        }),
    decreases n,
{
    let p = passed_for(key);
    if n == 0 {
        assert(results.take(0) =~= Seq::empty());
        lemma_filter_empty(p);
    } else {
        lemma_reasons(results, key, (n - 1) as nat);
        let front = results.take(n - 1);
        assert(results.take(n as int) =~= front.push(results[n - 1]));
        lemma_filter_push(front, results[n - 1], p);
        let before = reasons_of(results, (n - 1) as nat);
        let after = reasons_of(results, n);
        if results[n - 1].pass_reason is Some {
            lemma_indices_prefix(before, after.last(), key, before.len());
            assert(after =~= before.push(after.last()));
        }
    }
}

proof fn lemma_indices_prefix(keys: Seq<Seq<char>>, more: Seq<char>, key: Seq<char>, n: nat)
    requires
        n <= keys.len(),
    ensures
        indices_of(keys.push(more), key, n) == indices_of(keys, key, n),
    decreases n,
{
    if n > 0 {
        lemma_indices_prefix(keys, more, key, (n - 1) as nat);
    }
}

/// Each pass-through reason is counted as often as it was given.
pub proof fn reasons_are_counted(report: Report, results: Seq<PipelineResult>, i: int)
    requires
        reports_pipeline(report, results),
        0 <= i < report.reasons@.len(),
    ensures
        report.reasons@[i].count == results.filter(
            passed_for(report.reasons@[i].key@),
        ).len(),
{
    let n = results.len();
    let rows = report.reasons@;
    let keys = reasons_of(results, n);
    let groups = choose|groups: Seq<Group>| #[trigger]
        grouped(groups, keys, keys.len()) && rows.len() == groups.len() && forall|i: int|
            0 <= i < rows.len() ==> (#[trigger] rows[i]).key@ == groups[i].key@ && rows[i].count
                == indices_of(keys, rows[i].key@, keys.len()).len();
    lemma_reasons(results, rows[i].key@, n);
    assert(results.take(n as int) =~= results);
}

spec fn answers(results: Seq<ComprehensionResult>, chosen: Seq<int>) -> Seq<ComprehensionResult> {
    Seq::new(chosen.len(), |i: int| results[chosen[i]])
}

proof fn lemma_right(results: Seq<ComprehensionResult>, chosen: Seq<int>, n: nat)
    requires
        n <= chosen.len(),
    ensures
        right_json(results, chosen, n) == answers(results, chosen).take(n as int).filter(
            |r: ComprehensionResult| r.correct_json,
        ).len(),
        right_toon(results, chosen, n) == answers(results, chosen).take(n as int).filter(
            |r: ComprehensionResult| r.correct_toon,
        ).len(),
    decreases n,
{
    let p = |r: ComprehensionResult| r.correct_json;
    let q = |r: ComprehensionResult| r.correct_toon;
    let all = answers(results, chosen);
    if n == 0 {
        assert(all.take(0) =~= Seq::empty());
        lemma_filter_empty(p);
        lemma_filter_empty(q);
    } else {
        lemma_right(results, chosen, (n - 1) as nat);
        assert(all.take(n as int) =~= all.take(n - 1).push(all[n - 1]));
        lemma_filter_push(all.take(n - 1), all[n - 1], p);
        lemma_filter_push(all.take(n - 1), all[n - 1], q);
    }
}

/// The accuracy counts all answers, and those that were right over either
/// representation.
pub proof fn answers_are_counted(report: Report, results: Seq<ComprehensionResult>)
    requires
        reports_comprehension(report, results),
    ensures
        report.comprehension.n == results.len(),
        report.comprehension.json == results.filter(
            |r: ComprehensionResult| r.correct_json,
        ).len(),
        report.comprehension.toon == results.filter(
            |r: ComprehensionResult| r.correct_toon,
        ).len(),
{
    let n = results.len();
    lemma_right(results, everything(n), n);
    let all = answers(results, everything(n));
    assert(all.take(n as int) =~= results);
}

proof fn lemma_answers_by_key(
    results: Seq<ComprehensionResult>,
    key: Seq<char>,
    n: nat,
    p: spec_fn(ComprehensionResult) -> bool,
)
    requires
        n <= results.len(),
        forall|r: ComprehensionResult| #[trigger] p(r) <==> r.qtype@ == key,
    ensures
        answers(results, indices_of(kinds_of(results), key, n)) == results.take(n as int).filter(p),
    decreases n,
{
    let keys = kinds_of(results);
    let chosen = indices_of(keys, key, n);
    if n == 0 {
        assert(results.take(0) =~= Seq::empty());
        lemma_filter_empty(p);
        assert(answers(results, chosen) =~= results.take(0).filter(p));
    } else {
        lemma_answers_by_key(results, key, (n - 1) as nat, p);
        assert(results.take(n as int) =~= results.take(n - 1).push(results[n - 1]));
        lemma_filter_push(results.take(n - 1), results[n - 1], p);
        let before = indices_of(keys, key, (n - 1) as nat);
        assert(p(results[n - 1]) <==> keys[n - 1] == key);
        if keys[n - 1] == key {
            assert(answers(results, chosen) =~= answers(results, before).push(results[n - 1]));
        }
    }
}

/// Each row of the accuracies counts exactly the answers to its kind of question.
pub proof fn accuracies_count_their_own(
    report: Report,
    results: Seq<ComprehensionResult>,
    i: int,
)
    requires
        reports_comprehension(report, results),
        0 <= i < report.by_question@.len(),
    ensures
        ({
            let row = report.by_question@[i];
            let own = results.filter(of_kind(row.key@));
            &&& row.accuracy.n == own.len()
            &&& row.accuracy.json == own.filter(|r: ComprehensionResult| r.correct_json).len()
            &&& row.accuracy.toon == own.filter(|r: ComprehensionResult| r.correct_toon).len()
        }),
{
    let rows = report.by_question@;
    let keys = kinds_of(results);
    let groups = choose|groups: Seq<Group>| #[trigger]
        grouped(groups, keys, keys.len()) && rows.len() == groups.len() && forall|i: int|
            0 <= i < rows.len() ==> (#[trigger] rows[i]).key@ == groups[i].key@ && is_accuracy(
                rows[i].accuracy,
                results,
                ints(groups[i].members@),
            );
    let key = rows[i].key@;
    let p = of_kind(key);
    assert(groups[i].key@ == key);
    let chosen = ints(groups[i].members@);
    lemma_answers_by_key(results, key, results.len(), p);
    assert(results.take(results.len() as int) =~= results);
    lemma_right(results, chosen, chosen.len());
    let own = answers(results, chosen);
    assert(own.take(chosen.len() as int) =~= own);
}

/// The rows of a JSONL file are its non-blank lines, each with its number counted
/// from one, in order.
pub proof fn file_rows_are_its_live_lines(all: Seq<Seq<char>>, n: nat)
    requires
        n <= all.len(),
    ensures
        ({
            let rows = numbered_rows(all, n);
            &&& rows.len() == all.take(n as int).filter(|line: Seq<char>| !is_blank(line)).len()
            &&& forall|k: int|
                0 <= k < rows.len() ==> 1 <= (#[trigger] rows[k]).0 <= n && rows[k].1 == all[rows[k].0
                    - 1] && !is_blank(rows[k].1)
            &&& forall|j: int, k: int|
                0 <= j < k < rows.len() ==> (#[trigger] rows[j]).0 < (#[trigger] rows[k]).0
        }),
    decreases n,
{
    let p = |line: Seq<char>| !is_blank(line);
    if n == 0 {
        assert(all.take(0) =~= Seq::empty());
        lemma_filter_empty(p);
    } else {
        file_rows_are_its_live_lines(all, (n - 1) as nat);
        assert(all.take(n as int) =~= all.take(n - 1).push(all[n - 1]));
        lemma_filter_push(all.take(n - 1), all[n - 1], p);
    }
}

/// The predicate that holds of graded measurements with this intended and this
/// actual shape; one without an actual shape counts as `?`.
pub open spec fn graded_as(intended: Seq<char>, actual: Seq<char>) -> spec_fn(
    PipelineResult,
) -> bool {
    |r: PipelineResult|
        r.shape_correct is Some && r.intended_shape@ == intended && (match r.actual_shape {
            Some(shape) => shape@,
            None => "?"@,
        }) == actual
}

spec fn times(all: Seq<(Seq<char>, Seq<char>)>, a: Seq<char>, b: Seq<char>, n: nat) -> nat
    decreases n,
{
    if n == 0 {
        0
    } else if all[n - 1].0 == a && all[n - 1].1 == b {
        times(all, a, b, (n - 1) as nat) + 1
    } else {
        times(all, a, b, (n - 1) as nat)
    }
}

proof fn lemma_times_prefix(
    all: Seq<(Seq<char>, Seq<char>)>,
    more: (Seq<char>, Seq<char>),
    a: Seq<char>,
    b: Seq<char>,
    n: nat,
)
    requires
        n <= all.len(),
    ensures
        times(all.push(more), a, b, n) == times(all, a, b, n),
    decreases n,
{
    if n > 0 {
        lemma_times_prefix(all, more, a, b, (n - 1) as nat);
    }
}

proof fn lemma_times(all: Seq<(Seq<char>, Seq<char>)>, a: Seq<char>, b: Seq<char>, n: nat)
    requires
        n <= all.len(),
    ensures
        ({
            let chosen = indices_of(firsts(all), a, n);
            indices_of(seconds(all, chosen), b, chosen.len()).len() == times(all, a, b, n)
        }),
    decreases n,
{
    if n > 0 {
        lemma_times(all, a, b, (n - 1) as nat);
        let front = indices_of(firsts(all), a, (n - 1) as nat);
        if all[n - 1].0 == a {
            let chosen = indices_of(firsts(all), a, n);
            assert(chosen == front.push(n - 1));
            assert(seconds(all, chosen) =~= seconds(all, front).push(all[n - 1].1));
            lemma_indices_prefix(seconds(all, front), all[n - 1].1, b, front.len());
        }
    }
}

proof fn lemma_graded(results: Seq<PipelineResult>, a: Seq<char>, b: Seq<char>, n: nat)
    requires
        n <= results.len(),
    ensures
        times(gradings(results, n).0, a, b, gradings(results, n).0.len()) == results.take(
            n as int,
        ).filter(graded_as(a, b)).len(),
    decreases n,
{
    let p = graded_as(a, b);
    if n == 0 {
        assert(results.take(0) =~= Seq::empty());
        lemma_filter_empty(p);
    } else {
        lemma_graded(results, a, b, (n - 1) as nat);
        let front = results.take(n - 1);
        let r = results[n - 1];
        assert(results.take(n as int) =~= front.push(r));
        lemma_filter_push(front, r, p);
        let before = gradings(results, (n - 1) as nat).0;
        if r.shape_correct is Some {
            let after = gradings(results, n).0;
            assert(after == before.push(after.last()));
            lemma_times_prefix(before, after.last(), a, b, before.len());
        }
    }
}

/// The table of shapes counts how often an intended shape came out as an actual
/// one.
pub proof fn confusions_are_counted(
    report: Report,
    results: Seq<PipelineResult>,
    i: int,
    j: int,
)
    requires
        reports_pipeline(report, results),
        0 <= i < report.confusion@.len(),
        0 <= j < report.confusion@[i].actual@.len(),
    ensures
        report.confusion@[i].actual@[j].count == results.filter(
            graded_as(report.confusion@[i].intended@, report.confusion@[i].actual@[j].key@),
        ).len(),
{
    let n = results.len();
    let all = gradings(results, n).0;
    let rows = report.confusion@;
    let groups = choose|groups: Seq<Group>| #[trigger]
        grouped(groups, firsts(all), all.len()) && rows.len() == groups.len() && forall|i: int|
            0 <= i < rows.len() ==> (#[trigger] rows[i]).intended@ == groups[i].key@ && counts(
                rows[i].actual@,
                seconds(all, ints(groups[i].members@)),
            );
    let a = rows[i].intended@;
    let cells = rows[i].actual@;
    let b = cells[j].key@;
    let keys = seconds(all, ints(groups[i].members@));
    assert(groups[i].key@ == a);
    assert(counts(cells, keys));
    let inner = choose|groups: Seq<Group>| #[trigger]
        grouped(groups, keys, keys.len()) && cells.len() == groups.len() && forall|i: int|
            0 <= i < cells.len() ==> (#[trigger] cells[i]).key@ == groups[i].key@ && cells[i].count
                == indices_of(keys, cells[i].key@, keys.len()).len();
    assert(cells[j].count == indices_of(keys, b, keys.len()).len());
    lemma_times(all, a, b, all.len());
    lemma_graded(results, a, b, n);
    assert(results.take(n as int) =~= results);
}

} // verus!
