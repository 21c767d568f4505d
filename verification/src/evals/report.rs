//! The figures of the evaluation report: savings per group, pass-through
//! reasons, round-trip failures, classification and comprehension accuracy.

use vstd::prelude::*;
use crate::evals::comprehension::ComprehensionResult;
use crate::evals::pipeline::PipelineResult;
use crate::ratio::Savings;
use crate::text::{
    comes_before, lemma_not_before_itself, lemma_precedes_transitive, precedes, same_text, texts,
};

verus! {

// ---------------------------------------------------------------------------
// Groups
// ---------------------------------------------------------------------------

/// The items that share a key.
#[derive(Debug)]
pub struct Group {
    /// The key.
    pub key: String,
    /// Indices of the items, in order.
    pub members: Vec<usize>,
}

/// The indices below `n` whose key is `key`, in order.
pub open spec fn indices_of(keys: Seq<Seq<char>>, key: Seq<char>, n: nat) -> Seq<int>
    decreases n,
{
    if n == 0 {
        Seq::empty()
    } else if keys[n - 1] == key {
        indices_of(keys, key, (n - 1) as nat).push(n - 1)
    } else {
        indices_of(keys, key, (n - 1) as nat)
    }
}

/// Indices as integers.
pub open spec fn ints(items: Seq<usize>) -> Seq<int> {
    items.map_values(|i: usize| i as int)
}

/// Whether some group has the key.
pub open spec fn has_group(groups: Seq<Group>, key: Seq<char>) -> bool {
    exists|i: int| 0 <= i < groups.len() && (#[trigger] groups[i]).key@ == key
}

/// Whether `groups` are the first `n` keys grouped: in strictly increasing
/// order, each with exactly the indices of its key, none empty, and none of the
/// keys left out.
pub open spec fn grouped(groups: Seq<Group>, keys: Seq<Seq<char>>, n: nat) -> bool {
    &&& forall|i: int, j: int|
        0 <= i < j < groups.len() ==> precedes(
            (#[trigger] groups[i]).key@,
            (#[trigger] groups[j]).key@,
        )
    &&& forall|i: int|
        0 <= i < groups.len() ==> ints((#[trigger] groups[i]).members@) == indices_of(
            keys,
            groups[i].key@,
            n,
        ) && groups[i].members@.len() > 0
    &&& forall|k: int| 0 <= k < n ==> has_group(groups, #[trigger] keys[k])
}

/// Two different texts are ordered one way or the other.
pub proof fn lemma_order_total(a: Seq<char>, b: Seq<char>)
    requires
        !precedes(a, b),
        a != b,
    ensures
        precedes(b, a),
    decreases a.len(),
{
    if a.len() == 0 {
        if b.len() == 0 {
            assert(a =~= b);
        }
    } else if b.len() > 0 && a[0] == b[0] {
        let s = a.drop_first();
        let t = b.drop_first();
        if s == t {
            assert(a =~= seq![a[0]] + s);
            assert(b =~= seq![b[0]] + t);
        }
        lemma_order_total(s, t);
    }
}

/// Index of the first group whose key does not come before `key`.
fn place_of(groups: &Vec<Group>, key: &str) -> (r: usize)
    ensures
        0 <= r <= groups@.len(),
        forall|j: int| 0 <= j < r ==> precedes((#[trigger] groups@[j]).key@, key@),
        r < groups@.len() ==> !precedes(groups@[r as int].key@, key@),
{
    let mut i: usize = 0;
    while i < groups.len() && comes_before(groups[i].key.as_str(), key)
        invariant
            0 <= i <= groups@.len(),
            forall|j: int| 0 <= j < i ==> precedes((#[trigger] groups@[j]).key@, key@),
        decreases groups@.len() - i,
    {
        i = i + 1;
    }
    i
}

/// A key without a group has no index.
proof fn lemma_no_group(groups: Seq<Group>, keys: Seq<Seq<char>>, n: nat, key: Seq<char>)
    requires
        !has_group(groups, key),
        forall|k: int| 0 <= k < n ==> has_group(groups, #[trigger] keys[k]),
    ensures
        indices_of(keys, key, n) == Seq::<int>::empty(),
    decreases n,
{
    if n > 0 {
        lemma_no_group(groups, keys, (n - 1) as nat, key);
        assert(has_group(groups, keys[n - 1]));
    }
}

/// Adds the key at index `n` to the groups of the keys before it.
fn add_key(groups: &mut Vec<Group>, keys: &Vec<String>, n: usize)
    requires
        n < keys@.len(),
        grouped(old(groups)@, texts(keys@), n as nat),
    ensures
        grouped(final(groups)@, texts(keys@), (n + 1) as nat),
{
    let ghost all = texts(keys@);
    let ghost before = groups@;
    let ghost key = all[n as int];
    assert(key == keys@[n as int]@);
    let at = place_of(groups, keys[n].as_str());
    let ghost i = at as int;
    let present = at < groups.len() && same_text(groups[at].key.as_str(), keys[n].as_str());
    if present {
        groups[at].members.push(n);
        proof {
            let after = groups@;
            assert(ints(after[i].members@) =~= ints(before[i].members@).push(n as int));
            assert forall|j: int| 0 <= j < after.len() implies ints((#[trigger] after[j]).members@)
                == indices_of(all, after[j].key@, (n + 1) as nat) && after[j].members@.len()
                > 0 by {
                assert(before[j].key == after[j].key);
                if j != i {
                    lemma_not_before_itself(key);
                    if j < i {
                        assert(precedes(before[j].key@, before[i].key@));
                    } else {
                        assert(precedes(before[i].key@, before[j].key@));
                    }
                    assert(after[j].key@ != key);
                }
            }
            assert forall|a: int, b: int| 0 <= a < b < after.len() implies precedes(
                (#[trigger] after[a]).key@,
                (#[trigger] after[b]).key@,
            ) by {
                assert(precedes(before[a].key@, before[b].key@));
            }
            assert forall|k: int| 0 <= k < n + 1 implies has_group(after, #[trigger] all[k]) by {
                if k < n {
                    assert(has_group(before, all[k]));
                    let w = choose|w: int|
                        0 <= w < before.len() && (#[trigger] before[w]).key@ == all[k];
                    assert(after[w].key@ == all[k]);
                } else {
                    assert(after[i].key@ == key);
                }
            }
        }
    } else {
        let mut members: Vec<usize> = Vec::new();
        members.push(n);
        let fresh = Group { key: keys[n].clone(), members };
        groups.insert(at, fresh);
        proof {
            let after = groups@;
            assert(after == before.insert(i, fresh));
            assert(!has_group(before, key)) by {
                lemma_not_before_itself(key);
                assert forall|w: int| 0 <= w < before.len() implies (
                #[trigger] before[w]).key@ != key by {
                    if w > i {
                        lemma_order_total(before[i].key@, key);
                        assert(precedes(before[i].key@, before[w].key@));
                        lemma_precedes_transitive(key, before[i].key@, before[w].key@);
                    }
                }
            }
            lemma_no_group(before, all, n as nat, key);
            assert(ints(fresh.members@) =~= Seq::<int>::empty().push(n as int));
            assert forall|j: int| 0 <= j < after.len() implies ints((#[trigger] after[j]).members@)
                == indices_of(all, after[j].key@, (n + 1) as nat) && after[j].members@.len()
                > 0 by {
                if j != i {
                    let o = if j < i {
                        j
                    } else {
                        j - 1
                    };
                    assert(after[j] == before[o]);
                    assert(before[o].key@ != key);
                }
            }
            assert forall|a: int, b: int| 0 <= a < b < after.len() implies precedes(
                (#[trigger] after[a]).key@,
                (#[trigger] after[b]).key@,
            ) by {
                let x = if a < i {
                    a
                } else {
                    a - 1
                };
                let y = if b < i {
                    b
                } else {
                    b - 1
                };
                if a != i && b != i {
                    assert(after[a] == before[x]);
                    assert(after[b] == before[y]);
                    assert(precedes(before[x].key@, before[y].key@));
                } else if b == i {
                    assert(after[a] == before[a]);
                } else {
                    assert(after[b] == before[y]);
                    assert(before[i].key@ != key);
                    lemma_order_total(before[i].key@, key);
                    if y > i {
                        assert(precedes(before[i].key@, before[y].key@));
                        lemma_precedes_transitive(key, before[i].key@, before[y].key@);
                    }
                }
            }
            assert forall|k: int| 0 <= k < n + 1 implies has_group(after, #[trigger] all[k]) by {
                if k < n {
                    assert(has_group(before, all[k]));
                    let w = choose|w: int|
                        0 <= w < before.len() && (#[trigger] before[w]).key@ == all[k];
                    let z = if w < i {
                        w
                    } else {
                        w + 1
                    };
                    assert(after[z] == before[w]);
                    assert(after[z].key@ == all[k]);
                } else {
                    assert(after[i].key@ == key);
                }
            }
        }
    }
}

/// Groups items by key, the groups in the order of their keys.
pub fn group_by(keys: &Vec<String>) -> (r: Vec<Group>)
    ensures
        grouped(r@, texts(keys@), keys@.len()),
{
    let mut groups: Vec<Group> = Vec::new();
    let mut n: usize = 0;
    while n < keys.len()
        invariant
            0 <= n <= keys@.len(),
            grouped(groups@, texts(keys@), n as nat),
        decreases keys@.len() - n,
    {
        add_key(&mut groups, keys, n);
        n = n + 1;
    }
    groups
}

// ---------------------------------------------------------------------------
// Savings
// ---------------------------------------------------------------------------

/// The figures of a group of measurements. The mean saved percentage is that of
/// the listed pairs, zero where there are none.
#[derive(Debug)]
pub struct Bucket {
    /// Number of measurements.
    pub n: usize,
    /// How many the server would compress.
    pub compressed: usize,
    /// Bytes before and after, as the server would do it, compressed items only.
    pub pipeline_savings: Vec<Savings>,
    /// Bytes before and after encoding.
    pub byte_savings: Vec<Savings>,
    /// Tokens before and after encoding, where they were counted.
    pub token_savings: Vec<Savings>,
}

/// Bytes before and after, as the server would do it.
pub open spec fn pipeline_pair(r: PipelineResult) -> Option<Savings> {
    match r.pipeline_toon_bytes {
        Some(after) => Some(Savings { input_bytes: r.original_bytes, output_bytes: after }),
        None => None,
    }
}

/// Bytes before and after encoding.
pub open spec fn byte_pair(r: PipelineResult) -> Option<Savings> {
    match r.toon_bytes {
        Some(after) => Some(Savings { input_bytes: r.original_bytes, output_bytes: after }),
        None => None,
    }
}

/// Tokens before and after encoding, where the payload has any.
pub open spec fn token_pair(r: PipelineResult) -> Option<Savings> {
    match (r.orig_tokens, r.toon_tokens) {
        (Some(before), Some(after)) if before > 0 => Some(
            Savings { input_bytes: before, output_bytes: after },
        ),
        _ => None,
    }
}

/// The pairs of the first `n` chosen measurements.
pub open spec fn pairs(
    results: Seq<PipelineResult>,
    chosen: Seq<int>,
    pair: spec_fn(PipelineResult) -> Option<Savings>,
    n: nat,
) -> Seq<Savings>
    decreases n,
{
    if n == 0 {
        Seq::empty()
    } else {
        let done = pairs(results, chosen, pair, (n - 1) as nat);
        match pair(results[chosen[n - 1]]) {
            Some(p) => done.push(p),
            None => done,
        }
    }
}

/// How many of the first `n` chosen measurements the server would compress.
pub open spec fn compressed_among(results: Seq<PipelineResult>, chosen: Seq<int>, n: nat) -> nat
    decreases n,
{
    if n == 0 {
        0
    } else {
        compressed_among(results, chosen, (n - 1) as nat) + (if results[chosen[n - 1]].compressed {
            1nat
        } else {
            0
        })
    }
}

/// Whether `b` holds the figures of the chosen measurements.
pub open spec fn sums_up(b: Bucket, results: Seq<PipelineResult>, chosen: Seq<int>) -> bool {
    let n = chosen.len();
    &&& b.n == n
    &&& b.compressed == compressed_among(results, chosen, n)
    &&& b.pipeline_savings@ == pairs(results, chosen, |r: PipelineResult| pipeline_pair(r), n)
    &&& b.byte_savings@ == pairs(results, chosen, |r: PipelineResult| byte_pair(r), n)
    &&& b.token_savings@ == pairs(results, chosen, |r: PipelineResult| token_pair(r), n)
}

/// The figures of the chosen measurements.
pub fn bucket(results: &Vec<PipelineResult>, chosen: &Vec<usize>) -> (r: Bucket)
    requires
        forall|i: int| 0 <= i < chosen@.len() ==> #[trigger] chosen@[i] < results@.len(),
    ensures
        sums_up(r, results@, ints(chosen@)),
{
    let ghost which = ints(chosen@);
    let ghost by_pipeline = |r: PipelineResult| pipeline_pair(r);
    let ghost by_byte = |r: PipelineResult| byte_pair(r);
    let ghost by_token = |r: PipelineResult| token_pair(r);
    let mut compressed: usize = 0;
    let mut pipeline_savings: Vec<Savings> = Vec::new();
    let mut byte_savings: Vec<Savings> = Vec::new();
    let mut token_savings: Vec<Savings> = Vec::new();
    let mut i: usize = 0;
    while i < chosen.len()
        invariant
            0 <= i <= chosen@.len(),
            which == ints(chosen@),
            forall|j: int| 0 <= j < chosen@.len() ==> #[trigger] chosen@[j] < results@.len(),
            by_pipeline == (|r: PipelineResult| pipeline_pair(r)),
            by_byte == (|r: PipelineResult| byte_pair(r)),
            by_token == (|r: PipelineResult| token_pair(r)),
            compressed <= i,
            compressed == compressed_among(results@, which, i as nat),
            pipeline_savings@ == pairs(results@, which, by_pipeline, i as nat),
            byte_savings@ == pairs(results@, which, by_byte, i as nat),
            token_savings@ == pairs(results@, which, by_token, i as nat),
        decreases chosen@.len() - i,
    {
        let r = &results[chosen[i]];
        assert(which[i as int] == chosen@[i as int] as int);
        if r.compressed {
            compressed = compressed + 1;
        }
        match r.pipeline_toon_bytes {
            Some(after) => {
                pipeline_savings.push(
                    Savings { input_bytes: r.original_bytes, output_bytes: after },
                );
            },
            None => {},
        }
        match r.toon_bytes {
            Some(after) => {
                byte_savings.push(Savings { input_bytes: r.original_bytes, output_bytes: after });
            },
            None => {},
        }
        match (r.orig_tokens, r.toon_tokens) {
            (Some(before), Some(after)) => {
                if before > 0 {
                    token_savings.push(Savings { input_bytes: before, output_bytes: after });
                }
            },
            _ => {},
        }
        i = i + 1;
    }
    Bucket { n: chosen.len(), compressed, pipeline_savings, byte_savings, token_savings }
}

/// The figures of the measurements that share a key.
#[derive(Debug)]
pub struct KeyedBucket {
    /// The key.
    pub key: String,
    /// The figures.
    pub bucket: Bucket,
}

/// Whether `rows` are the figures of each group of `keys`, in the order of the
/// keys.
pub open spec fn buckets_by(
    rows: Seq<KeyedBucket>,
    results: Seq<PipelineResult>,
    keys: Seq<Seq<char>>,
) -> bool {
    exists|groups: Seq<Group>| #[trigger]
        grouped(groups, keys, keys.len()) && rows.len() == groups.len() && forall|i: int|
            0 <= i < rows.len() ==> (#[trigger] rows[i]).key@ == groups[i].key@ && sums_up(
                rows[i].bucket,
                results,
                ints(groups[i].members@),
            )
}

/// The indices of a key are indices.
proof fn lemma_indices_bound(keys: Seq<Seq<char>>, key: Seq<char>, n: nat)
    ensures
        forall|i: int|
            0 <= i < indices_of(keys, key, n).len() ==> 0 <= #[trigger] indices_of(
                keys,
                key,
                n,
            )[i] < n,
    decreases n,
{
    if n > 0 {
        lemma_indices_bound(keys, key, (n - 1) as nat);
        let before = indices_of(keys, key, (n - 1) as nat);
        let now = indices_of(keys, key, n);
        assert forall|i: int| 0 <= i < now.len() implies 0 <= #[trigger] now[i] < n by {
            if i < before.len() {
                assert(now[i] == before[i]);
            }
        }
    }
}

/// The figures of each group of keys.
fn bucket_groups(results: &Vec<PipelineResult>, keys: &Vec<String>) -> (r: Vec<KeyedBucket>)
    requires
        keys@.len() == results@.len(),
    ensures
        buckets_by(r@, results@, texts(keys@)),
{
    let groups = group_by(keys);
    let ghost all = texts(keys@);
    let mut rows: Vec<KeyedBucket> = Vec::new();
    let mut i: usize = 0;
    while i < groups.len()
        invariant
            0 <= i <= groups@.len(),
            all == texts(keys@),
            keys@.len() == results@.len(),
            grouped(groups@, all, keys@.len()),
            rows@.len() == i,
            forall|j: int|
                0 <= j < i ==> (#[trigger] rows@[j]).key@ == groups@[j].key@ && sums_up(
                    rows@[j].bucket,
                    results@,
                    ints(groups@[j].members@),
                ),
        decreases groups@.len() - i,
    {
        proof {
            lemma_indices_bound(all, groups@[i as int].key@, keys@.len());
            assert forall|j: int| 0 <= j < groups@[i as int].members@.len() implies
                #[trigger] groups@[i as int].members@[j] < results@.len() by {
                assert(ints(groups@[i as int].members@)[j] == groups@[i as int].members@[j] as int);
            }
        }
        let figures = bucket(results, &groups[i].members);
        rows.push(KeyedBucket { key: groups[i].key.clone(), bucket: figures });
        i = i + 1;
    }
    assert(texts(keys@).len() == keys@.len());
    assert(grouped(groups@, all, all.len()));
    rows
}

// ---------------------------------------------------------------------------
// Counts
// ---------------------------------------------------------------------------

/// How often a key occurs.
#[derive(Debug)]
pub struct Count {
    /// The key.
    pub key: String,
    /// How often it occurs.
    pub count: usize,
}

/// Whether `rows` count each key, in the order of the keys.
pub open spec fn counts(rows: Seq<Count>, keys: Seq<Seq<char>>) -> bool {
    exists|groups: Seq<Group>| #[trigger]
        grouped(groups, keys, keys.len()) && rows.len() == groups.len() && forall|i: int|
            0 <= i < rows.len() ==> (#[trigger] rows[i]).key@ == groups[i].key@ && rows[i].count
                == indices_of(keys, rows[i].key@, keys.len()).len()
}

/// Counts how often each key occurs.
pub fn count_keys(keys: &Vec<String>) -> (r: Vec<Count>)
    ensures
        counts(r@, texts(keys@)),
{
    let groups = group_by(keys);
    let ghost all = texts(keys@);
    let mut rows: Vec<Count> = Vec::new();
    let mut i: usize = 0;
    while i < groups.len()
        invariant
            0 <= i <= groups@.len(),
            all == texts(keys@),
            grouped(groups@, all, keys@.len()),
            rows@.len() == i,
            forall|j: int|
                0 <= j < i ==> (#[trigger] rows@[j]).key@ == groups@[j].key@ && rows@[j].count
                    == indices_of(all, rows@[j].key@, keys@.len()).len(),
        decreases groups@.len() - i,
    {
        let count = groups[i].members.len();
        assert(ints(groups@[i as int].members@).len() == count);
        rows.push(Count { key: groups[i].key.clone(), count });
        i = i + 1;
    }
    assert(texts(keys@).len() == keys@.len());
    assert(grouped(groups@, all, all.len()));
    rows
}

/// The pass-through reasons of the first `n` measurements, in order.
pub open spec fn reasons_of(results: Seq<PipelineResult>, n: nat) -> Seq<Seq<char>>
    decreases n,
{
    if n == 0 {
        Seq::empty()
    } else {
        let done = reasons_of(results, (n - 1) as nat);
        match results[n - 1].pass_reason {
            Some(reason) => done.push(reason@),
            None => done,
        }
    }
}

/// Collects the pass-through reasons.
fn collect_reasons(results: &Vec<PipelineResult>) -> (r: Vec<String>)
    ensures
        texts(r@) == reasons_of(results@, results@.len()),
{
    let mut out: Vec<String> = Vec::new();
    let mut i: usize = 0;
    assert(texts(out@) =~= Seq::empty());
    while i < results.len()
        invariant
            0 <= i <= results@.len(),
            texts(out@) == reasons_of(results@, i as nat),
        decreases results@.len() - i,
    {
        let ghost before = texts(out@);
        match &results[i].pass_reason {
            Some(reason) => {
                let copy = reason.clone();
                out.push(copy);
                assert(texts(out@) =~= before.push(reason@));
            },
            None => {},
        }
        i = i + 1;
    }
    out
}

/// The measurements among the first `n` whose round trip was tested.
pub open spec fn tested(results: Seq<PipelineResult>, n: nat) -> nat
    decreases n,
{
    if n == 0 {
        0
    } else {
        tested(results, (n - 1) as nat) + (if results[n - 1].roundtrip_ok is Some {
            1nat
        } else {
            0
        })
    }
}

/// Indices of the measurements among the first `n` whose round trip failed.
pub open spec fn failures(results: Seq<PipelineResult>, n: nat) -> Seq<int>
    decreases n,
{
    if n == 0 {
        Seq::empty()
    } else if results[n - 1].roundtrip_ok == Some(false) {
        failures(results, (n - 1) as nat).push(n - 1)
    } else {
        failures(results, (n - 1) as nat)
    }
}

/// The text of an optional shape.
pub open spec fn shape_or_mark(shape: Option<String>) -> Seq<char> {
    match shape {
        Some(s) => s@,
        None => "?"@,
    }
}

/// The intended and actual shapes of the graded measurements among the first
/// `n`, and how many agree.
pub open spec fn gradings(results: Seq<PipelineResult>, n: nat) -> (
    Seq<(Seq<char>, Seq<char>)>,
    nat,
)
    decreases n,
{
    if n == 0 {
        (Seq::empty(), 0)
    } else {
        let done = gradings(results, (n - 1) as nat);
        let r = results[n - 1];
        match r.shape_correct {
            None => done,
            Some(right) => (
                done.0.push((r.intended_shape@, shape_or_mark(r.actual_shape))),
                done.1 + (if right {
                    1nat
                } else {
                    0
                }),
            ),
        }
    }
}

/// How often an intended shape came out as an actual one.
#[derive(Debug)]
pub struct Confusion {
    /// The intended shape.
    pub intended: String,
    /// The actual shapes with their counts.
    pub actual: Vec<Count>,
}

/// The second components of the pairs at the given indices.
pub open spec fn seconds(pairs: Seq<(Seq<char>, Seq<char>)>, chosen: Seq<int>) -> Seq<Seq<char>> {
    Seq::new(chosen.len(), |i: int| pairs[chosen[i]].1)
}

/// The first components of pairs.
pub open spec fn firsts(pairs: Seq<(Seq<char>, Seq<char>)>) -> Seq<Seq<char>> {
    Seq::new(pairs.len(), |i: int| pairs[i].0)
}

/// Whether `rows` tabulate pairs: by first component, then by second, both in
/// order.
pub open spec fn tabulates(rows: Seq<Confusion>, pairs: Seq<(Seq<char>, Seq<char>)>) -> bool {
    exists|groups: Seq<Group>| #[trigger]
        grouped(groups, firsts(pairs), pairs.len()) && rows.len() == groups.len() && forall|i: int|
            0 <= i < rows.len() ==> (#[trigger] rows[i]).intended@ == groups[i].key@ && counts(
                rows[i].actual@,
                seconds(pairs, ints(groups[i].members@)),
            )
}

/// The models of a run of pairs of texts.
pub open spec fn pair_models(items: Seq<(String, String)>) -> Seq<(Seq<char>, Seq<char>)> {
    items.map_values(|p: (String, String)| (p.0@, p.1@))
}

/// Tabulates pairs of intended and actual shapes.
fn tabulate(items: &Vec<(String, String)>) -> (r: Vec<Confusion>)
    ensures
        tabulates(r@, pair_models(items@)),
{
    let ghost all = pair_models(items@);
    let mut keys: Vec<String> = Vec::new();
    let mut k: usize = 0;
    while k < items.len()
        invariant
            0 <= k <= items@.len(),
            all == pair_models(items@),
            keys@.len() == k,
            texts(keys@) =~= firsts(all).take(k as int),
        decreases items@.len() - k,
    {
        let ghost before = texts(keys@);
        let copy = items[k].0.clone();
        keys.push(copy);
        assert(texts(keys@) =~= before.push(firsts(all)[k as int]));
        k = k + 1;
    }
    assert(texts(keys@) =~= firsts(all));
    let groups = group_by(&keys);
    let mut rows: Vec<Confusion> = Vec::new();
    let mut i: usize = 0;
    while i < groups.len()
        invariant
            0 <= i <= groups@.len(),
            all == pair_models(items@),
            grouped(groups@, firsts(all), all.len()),
            rows@.len() == i,
            forall|j: int|
                0 <= j < i ==> (#[trigger] rows@[j]).intended@ == groups@[j].key@ && counts(
                    rows@[j].actual@,
                    seconds(all, ints(groups@[j].members@)),
                ),
        decreases groups@.len() - i,
    {
        proof {
            lemma_indices_bound(firsts(all), groups@[i as int].key@, all.len());
        }
        let ghost which = ints(groups@[i as int].members@);
        let mut actual: Vec<String> = Vec::new();
        let mut m: usize = 0;
        while m < groups[i].members.len()
            invariant
                0 <= i < groups@.len(),
                0 <= m <= groups@[i as int].members@.len(),
                all == pair_models(items@),
                which == ints(groups@[i as int].members@),
                forall|j: int| 0 <= j < which.len() ==> 0 <= #[trigger] which[j] < all.len(),
                actual@.len() == m,
                texts(actual@) =~= seconds(all, which).take(m as int),
            decreases groups@[i as int].members@.len() - m,
        {
            let ghost before = texts(actual@);
            assert(which[m as int] == groups@[i as int].members@[m as int] as int);
            let copy = items[groups[i].members[m]].1.clone();
            actual.push(copy);
            assert(texts(actual@) =~= before.push(seconds(all, which)[m as int]));
            m = m + 1;
        }
        assert(texts(actual@) =~= seconds(all, which));
        let row = Confusion { intended: groups[i].key.clone(), actual: count_keys(&actual) };
        rows.push(row);
        i = i + 1;
    }
    rows
}

// ---------------------------------------------------------------------------
// Comprehension
// ---------------------------------------------------------------------------

/// How many questions were asked and answered rightly.
#[derive(Debug, Clone, Copy, PartialEq, Eq, Structural)]
pub struct Accuracy {
    /// Questions asked.
    pub n: usize,
    /// Right answers over the payload.
    pub json: usize,
    /// Right answers over the TOON text.
    pub toon: usize,
}

/// Right answers over the payload among the first `n` chosen results.
pub open spec fn right_json(results: Seq<ComprehensionResult>, chosen: Seq<int>, n: nat) -> nat
    decreases n,
{
    if n == 0 {
        0
    } else {
        right_json(results, chosen, (n - 1) as nat) + (if results[chosen[n - 1]].correct_json {
            1nat
        } else {
            0
        })
    }
}

/// Right answers over the TOON text among the first `n` chosen results.
pub open spec fn right_toon(results: Seq<ComprehensionResult>, chosen: Seq<int>, n: nat) -> nat
    decreases n,
{
    if n == 0 {
        0
    } else {
        right_toon(results, chosen, (n - 1) as nat) + (if results[chosen[n - 1]].correct_toon {
            1nat
        } else {
            0
        })
    }
}

/// Whether `a` is the accuracy over the chosen results.
pub open spec fn is_accuracy(
    a: Accuracy,
    results: Seq<ComprehensionResult>,
    chosen: Seq<int>,
) -> bool {
    &&& a.n == chosen.len()
    &&& a.json == right_json(results, chosen, chosen.len())
    &&& a.toon == right_toon(results, chosen, chosen.len())
}

/// The accuracy over the chosen results.
fn accuracy(results: &Vec<ComprehensionResult>, chosen: &Vec<usize>) -> (r: Accuracy)
    requires
        forall|i: int| 0 <= i < chosen@.len() ==> #[trigger] chosen@[i] < results@.len(),
    ensures
        is_accuracy(r, results@, ints(chosen@)),
{
    let ghost which = ints(chosen@);
    let mut json: usize = 0;
    let mut toon: usize = 0;
    let mut i: usize = 0;
    while i < chosen.len()
        invariant
            0 <= i <= chosen@.len(),
            which == ints(chosen@),
            forall|j: int| 0 <= j < chosen@.len() ==> #[trigger] chosen@[j] < results@.len(),
            json <= i,
            toon <= i,
            json == right_json(results@, which, i as nat),
            toon == right_toon(results@, which, i as nat),
        decreases chosen@.len() - i,
    {
        let r = &results[chosen[i]];
        assert(which[i as int] == chosen@[i as int] as int);
        if r.correct_json {
            json = json + 1;
        }
        if r.correct_toon {
            toon = toon + 1;
        }
        i = i + 1;
    }
    Accuracy { n: chosen.len(), json, toon }
}

/// The accuracy on one kind of question.
#[derive(Debug)]
pub struct KeyedAccuracy {
    /// The kind of question.
    pub key: String,
    /// The accuracy.
    pub accuracy: Accuracy,
}

/// Whether `rows` are the accuracies per kind of question, in order.
pub open spec fn accuracies_by(
    rows: Seq<KeyedAccuracy>,
    results: Seq<ComprehensionResult>,
    keys: Seq<Seq<char>>,
) -> bool {
    exists|groups: Seq<Group>| #[trigger]
        grouped(groups, keys, keys.len()) && rows.len() == groups.len() && forall|i: int|
            0 <= i < rows.len() ==> (#[trigger] rows[i]).key@ == groups[i].key@ && is_accuracy(
                rows[i].accuracy,
                results,
                ints(groups[i].members@),
            )
}

/// The indices below `n`.
pub open spec fn everything(n: nat) -> Seq<int> {
    Seq::new(n, |i: int| i)
}

/// The indices below `n`.
fn all_indices(n: usize) -> (r: Vec<usize>)
    ensures
        ints(r@) == everything(n as nat),
        forall|i: int| 0 <= i < r@.len() ==> #[trigger] r@[i] < n,
{
    let mut out: Vec<usize> = Vec::new();
    let mut i: usize = 0;
    while i < n
        invariant
            0 <= i <= n,
            out@.len() == i,
            forall|j: int| 0 <= j < i ==> #[trigger] out@[j] == j,
        decreases n - i,
    {
        out.push(i);
        i = i + 1;
    }
    assert(ints(out@) =~= everything(n as nat));
    out
}

// ---------------------------------------------------------------------------
// The report
// ---------------------------------------------------------------------------

/// The figures of the report.
#[derive(Debug)]
pub struct Report {
    /// Figures over all measurements.
    pub overall: Bucket,
    /// Figures per format.
    pub by_format: Vec<KeyedBucket>,
    /// Figures per intended shape.
    pub by_shape: Vec<KeyedBucket>,
    /// Pass-through reasons.
    pub reasons: Vec<Count>,
    /// Measurements with a tested round trip.
    pub roundtrip_tested: usize,
    /// Indices of the measurements whose round trip failed.
    pub roundtrip_failures: Vec<usize>,
    /// Measurements with a graded shape.
    pub graded: usize,
    /// Measurements whose shape is the intended one.
    pub correct: usize,
    /// Intended against actual shapes.
    pub confusion: Vec<Confusion>,
    /// Accuracy per kind of question.
    pub by_question: Vec<KeyedAccuracy>,
    /// Accuracy over all questions.
    pub comprehension: Accuracy,
}

/// The formats of measurements.
pub open spec fn formats_of(results: Seq<PipelineResult>) -> Seq<Seq<char>> {
    results.map_values(|r: PipelineResult| r.format@)
}

/// The intended shapes of measurements.
pub open spec fn shapes_of(results: Seq<PipelineResult>) -> Seq<Seq<char>> {
    results.map_values(|r: PipelineResult| r.intended_shape@)
}

/// The kinds of the questions.
pub open spec fn kinds_of(results: Seq<ComprehensionResult>) -> Seq<Seq<char>> {
    results.map_values(|r: ComprehensionResult| r.qtype@)
}

/// Whether `r` reports on the measurements.
pub open spec fn reports_pipeline(r: Report, results: Seq<PipelineResult>) -> bool {
    let n = results.len();
    &&& sums_up(r.overall, results, everything(n))
    &&& buckets_by(r.by_format@, results, formats_of(results))
    &&& buckets_by(r.by_shape@, results, shapes_of(results))
    &&& counts(r.reasons@, reasons_of(results, n))
    &&& r.roundtrip_tested == tested(results, n)
    &&& ints(r.roundtrip_failures@) == failures(results, n)
    &&& r.graded == gradings(results, n).0.len()
    &&& r.correct == gradings(results, n).1
    &&& tabulates(r.confusion@, gradings(results, n).0)
}

/// Whether `r` reports on the answers.
pub open spec fn reports_comprehension(r: Report, results: Seq<ComprehensionResult>) -> bool {
    &&& accuracies_by(r.by_question@, results, kinds_of(results))
    &&& is_accuracy(r.comprehension, results, everything(results.len()))
}

/// Collects what is graded and tested.
fn collect_outcomes(results: &Vec<PipelineResult>) -> (r: (
    usize,
    Vec<usize>,
    Vec<(String, String)>,
    usize,
))
    ensures
        r.0 == tested(results@, results@.len()),
        ints(r.1@) == failures(results@, results@.len()),
        pair_models(r.2@) == gradings(results@, results@.len()).0,
        r.3 == gradings(results@, results@.len()).1,
{
    let mut rt: usize = 0;
    let mut failed: Vec<usize> = Vec::new();
    let mut shapes: Vec<(String, String)> = Vec::new();
    let mut correct: usize = 0;
    let mut i: usize = 0;
    assert(ints(failed@) =~= Seq::empty());
    assert(pair_models(shapes@) =~= Seq::empty());
    while i < results.len()
        invariant
            0 <= i <= results@.len(),
            rt <= i,
            correct <= i,
            rt == tested(results@, i as nat),
            ints(failed@) == failures(results@, i as nat),
            pair_models(shapes@) == gradings(results@, i as nat).0,
            correct == gradings(results@, i as nat).1,
        decreases results@.len() - i,
    {
        let r = &results[i];
        match r.roundtrip_ok {
            Some(ok) => {
                rt = rt + 1;
                if !ok {
                    let ghost before = ints(failed@);
                    failed.push(i);
                    assert(ints(failed@) =~= before.push(i as int));
                }
            },
            None => {},
        }
        match r.shape_correct {
            Some(right) => {
                let actual = match &r.actual_shape {
                    Some(s) => s.clone(),
                    None => "?".to_owned(),
                };
                let ghost before = pair_models(shapes@);
                let ghost pair = (r.intended_shape@, actual@);
                shapes.push((r.intended_shape.clone(), actual));
                assert(pair_models(shapes@) =~= before.push(pair));
                if right {
                    correct = correct + 1;
                }
            },
            None => {},
        }
        i = i + 1;
    }
    (rt, failed, shapes, correct)
}

/// Computes the figures of the report.
pub fn build(pipeline: &Vec<PipelineResult>, comprehension: &Vec<ComprehensionResult>) -> (r:
    Report)
    ensures
        reports_pipeline(r, pipeline@),
        reports_comprehension(r, comprehension@),
{
    let mut formats: Vec<String> = Vec::new();
    let mut shapes: Vec<String> = Vec::new();
    let mut i: usize = 0;
    while i < pipeline.len()
        invariant
            0 <= i <= pipeline@.len(),
            formats@.len() == i,
            shapes@.len() == i,
            texts(formats@) =~= formats_of(pipeline@).take(i as int),
            texts(shapes@) =~= shapes_of(pipeline@).take(i as int),
        decreases pipeline@.len() - i,
    {
        let ghost f = texts(formats@);
        let ghost s = texts(shapes@);
        let format = pipeline[i].format.clone();
        let shape = pipeline[i].intended_shape.clone();
        formats.push(format);
        shapes.push(shape);
        assert(texts(formats@) =~= f.push(format@));
        assert(texts(shapes@) =~= s.push(shape@));
        i = i + 1;
    }
    assert(texts(formats@) =~= formats_of(pipeline@));
    assert(texts(shapes@) =~= shapes_of(pipeline@));
    let overall = bucket(pipeline, &all_indices(pipeline.len()));
    let by_format = bucket_groups(pipeline, &formats);
    let by_shape = bucket_groups(pipeline, &shapes);
    let reasons = count_keys(&collect_reasons(pipeline));
    let (roundtrip_tested, roundtrip_failures, graded_shapes, correct) = collect_outcomes(pipeline);
    let confusion = tabulate(&graded_shapes);
    assert(pair_models(graded_shapes@).len() == graded_shapes@.len());
    let by_question = question_accuracies(comprehension);
    let all_questions = accuracy(comprehension, &all_indices(comprehension.len()));
    Report {
        overall,
        by_format,
        by_shape,
        reasons,
        roundtrip_tested,
        roundtrip_failures,
        graded: graded_shapes.len(),
        correct,
        confusion,
        by_question,
        comprehension: all_questions,
    }
}

/// The accuracies per kind of question.
fn question_accuracies(results: &Vec<ComprehensionResult>) -> (r: Vec<KeyedAccuracy>)
    ensures
        accuracies_by(r@, results@, kinds_of(results@)),
{
    let ghost all = kinds_of(results@);
    let mut kinds: Vec<String> = Vec::new();
    let mut k: usize = 0;
    while k < results.len()
        invariant
            0 <= k <= results@.len(),
            all == kinds_of(results@),
            kinds@.len() == k,
            texts(kinds@) =~= all.take(k as int),
        decreases results@.len() - k,
    {
        let ghost before = texts(kinds@);
        let kind = results[k].qtype.clone();
        kinds.push(kind);
        assert(texts(kinds@) =~= before.push(kind@));
        k = k + 1;
    }
    assert(texts(kinds@) =~= all);
    let groups = group_by(&kinds);
    let mut rows: Vec<KeyedAccuracy> = Vec::new();
    let mut i: usize = 0;
    while i < groups.len()
        invariant
            0 <= i <= groups@.len(),
            all == kinds_of(results@),
            all.len() == results@.len(),
            grouped(groups@, all, all.len()),
            rows@.len() == i,
            forall|j: int|
                0 <= j < i ==> (#[trigger] rows@[j]).key@ == groups@[j].key@ && is_accuracy(
                    rows@[j].accuracy,
                    results@,
                    ints(groups@[j].members@),
                ),
        decreases groups@.len() - i,
    {
        proof {
            lemma_indices_bound(all, groups@[i as int].key@, all.len());
            assert forall|j: int| 0 <= j < groups@[i as int].members@.len() implies
                #[trigger] groups@[i as int].members@[j] < results@.len() by {
                assert(ints(groups@[i as int].members@)[j] == groups@[i as int].members@[j] as int);
            }
        }
        let figures = accuracy(results, &groups[i].members);
        rows.push(KeyedAccuracy { key: groups[i].key.clone(), accuracy: figures });
        i = i + 1;
    }
    rows
}

} // verus!
