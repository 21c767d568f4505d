//! Comprehension parity: questions about a payload whose answers follow from
//! its parsed value, and the grading of a model's answers.

use vstd::prelude::*;
use crate::bindings::{
    float_reading, json_text, lowercase, read_float, to_lowercase, to_uppercase, uppercase,
    write_json,
};
use crate::evals::corpus::CorpusItem;
use crate::evals::toonkit::{encode_pipeline, parse_to_value, payload_value, pipeline_text};
use crate::number::{
    count_text, decimal, decimal_text, digit, is_digit, signed_decimal, signed_decimal_text,
};
use crate::sequence::{lemma_filter_empty, lemma_filter_push};
use crate::text::{
    byte_len, bytes_in, chars_of, comes_before, contains_text, has_text, precedes, same_text,
    text_between, texts, trim, trim_by, trim_end_by, trim_start_by, trimmed,
};
use crate::value::{
    find_key, lemma_container_model, lookup, member_models, models, Json, JsonValue, Num, Number,
};

verus! {

/// The result of one question, asked over the payload and over its TOON text.
#[derive(Debug)]
pub struct ComprehensionResult {
    /// Identifier of the corpus item.
    pub id: String,
    /// Format of the payload.
    pub format: String,
    /// Shape that the payload was meant to have.
    pub intended_shape: String,
    /// Kind of question.
    pub qtype: String,
    /// The question.
    pub question: String,
    /// The right answer.
    pub ground_truth: String,
    /// The answer over the payload.
    pub answer_json: String,
    /// The answer over the TOON text.
    pub answer_toon: String,
    /// Whether the answer over the payload is right.
    pub correct_json: bool,
    /// Whether the answer over the TOON text is right.
    pub correct_toon: bool,
}

/// Limits of the comprehension stage.
#[derive(Debug, Clone, Copy, PartialEq, Eq, Structural)]
pub struct ComprehendConfig {
    /// Payloads longer than this many bytes are skipped.
    pub max_context_bytes: usize,
}

impl Default for ComprehendConfig {
    fn default() -> (r: Self)
        ensures
            r.max_context_bytes == 5000,
    {
        Self { max_context_bytes: 5000 }
    }
}

// ---------------------------------------------------------------------------
// Records
// ---------------------------------------------------------------------------

/// The predicate that holds of objects.
pub open spec fn object() -> spec_fn(Json) -> bool {
    |v: Json| v is Object
}

/// Whether an array counts as records: at least three items, at least half of
/// them objects.
pub open spec fn is_record_array(items: Seq<Json>) -> bool {
    items.len() >= 3 && items.filter(object()).len() * 2 >= items.len()
}

/// The first record array of a tree, the root before its children and children
/// in order.
pub open spec fn records_in(v: Json) -> Option<Seq<Json>>
    decreases v, 0int,
{
    match v {
        Json::Array(items) => if is_record_array(items) {
            Some(items)
        } else {
            records_in_items(items, 0)
        },
        Json::Object(members) => records_in_members(members, 0),
        _ => None,
    }
}

/// The first record array among the items from `i` on.
pub open spec fn records_in_items(items: Seq<Json>, i: int) -> Option<Seq<Json>>
    decreases items, items.len() - i,
{
    if i < 0 || i >= items.len() {
        None
    } else {
        match records_in(items[i]) {
            Some(found) => Some(found),
            None => records_in_items(items, i + 1),
        }
    }
}

/// The first record array among the members from `i` on.
pub open spec fn records_in_members(members: Seq<(Seq<char>, Json)>, i: int) -> Option<Seq<Json>>
    decreases members, members.len() - i,
{
    if i < 0 || i >= members.len() {
        None
    } else {
        match records_in(members[i].1) {
            Some(found) => Some(found),
            None => records_in_members(members, i + 1),
        }
    }
}

/// Counts the objects among items.
fn count_objects(items: &Vec<JsonValue>) -> (r: usize)
    ensures
        r == models(items@).filter(object()).len(),
        r <= items@.len(),
{
    let ghost all = models(items@);
    let mut count: usize = 0;
    let mut i: usize = 0;
    proof {
        assert(all.take(0) =~= Seq::empty());
        lemma_filter_empty(object());
    }
    while i < items.len()
        invariant
            0 <= i <= items@.len(),
            all == models(items@),
            count == all.take(i as int).filter(object()).len(),
            count <= i,
        decreases items@.len() - i,
    {
        proof {
            assert(all.take(i + 1) =~= all.take(i as int).push(all[i as int]));
            lemma_filter_push(all.take(i as int), all[i as int], object());
            assert(all[i as int] == items@[i as int]@);
        }
        if items[i].is_object() {
            count = count + 1;
        }
        i = i + 1;
    }
    assert(all.take(all.len() as int) =~= all);
    count
}

/// Locates the first record array of a tree.
pub fn find_records(value: &JsonValue) -> (r: Option<&Vec<JsonValue>>)
    ensures
        match r {
            Some(found) => records_in(value@) == Some(models(found@)),
            None => records_in(value@) is None,
        },
    decreases *value,
{
    proof {
        lemma_container_model(*value);
    }
    match value {
        JsonValue::Array(items) => {
            let ghost all = models(items@);
            if items.len() >= 3 {
                let count = count_objects(items);
                if count >= items.len() - count {
                    return Some(items);
                }
            }
            let mut i: usize = 0;
            while i < items.len()
                invariant
                    0 <= i <= items@.len(),
                    *value == JsonValue::Array(*items),
                    all == models(items@),
                    value@ == Json::Array(all),
                    !is_record_array(all),
                    records_in_items(all, i as int) == records_in_items(all, 0),
                decreases items@.len() - i,
            {
                assert(decreases_to!(*value => value->Array_0));
                assert(decreases_to!(*items => items@[i as int]));
                assert(all[i as int] == items@[i as int]@);
                let item: &JsonValue = &items[i];
                match find_records(item) {
                    Some(found) => {
                        return Some(found);
                    },
                    None => {},
                }
                i = i + 1;
            }
            None
        },
        JsonValue::Object(members) => {
            let ghost all = member_models(members@);
            let mut i: usize = 0;
            while i < members.len()
                invariant
                    0 <= i <= members@.len(),
                    *value == JsonValue::Object(*members),
                    all == member_models(members@),
                    value@ == Json::Object(all),
                    records_in_members(all, i as int) == records_in_members(all, 0),
                decreases members@.len() - i,
            {
                assert(decreases_to!(*value => value->Object_0));
                assert(decreases_to!(*members => members@[i as int]));
                assert(decreases_to!(members@[i as int] => members@[i as int].1));
                assert(all[i as int].1 == members@[i as int].1@);
                let item: &JsonValue = &members[i].1;
                match find_records(item) {
                    Some(found) => {
                        return Some(found);
                    },
                    None => {},
                }
                i = i + 1;
            }
            None
        },
        _ => None,
    }
}

/// The text of a number.
pub open spec fn number_text(n: Num) -> Seq<char> {
    match n {
        Num::PosInt(u) => decimal(u as nat),
        Num::NegInt(i) => signed_decimal(i as int),
        Num::Float(t) => t,
    }
}

/// The text of a value in a question: a scalar without quotes, anything else as
/// JSON.
pub open spec fn plain(v: Json) -> Seq<char> {
    match v {
        Json::String(s) => s,
        Json::Number(n) => number_text(n),
        Json::Bool(b) => if b {
            "true"@
        } else {
            "false"@
        },
        _ => json_text(v),
    }
}

/// The text of a value in a question.
pub fn as_plain(v: &JsonValue) -> (r: String)
    ensures
        r@ == plain(v@),
{
    match v {
        JsonValue::String(s) => s.clone(),
        JsonValue::Number(Number::PosInt(u)) => decimal_text(*u),
        JsonValue::Number(Number::NegInt(i)) => signed_decimal_text(*i),
        JsonValue::Number(Number::Float(t)) => t.clone(),
        JsonValue::Bool(b) => if *b {
            "true".to_owned()
        } else {
            "false".to_owned()
        },
        _ => write_json(v),
    }
}

// ---------------------------------------------------------------------------
// Questions
// ---------------------------------------------------------------------------

/// A question with its right answer.
#[derive(Debug)]
pub struct Question {
    /// Kind of question.
    pub qtype: &'static str,
    /// The question.
    pub text: String,
    /// The right answer.
    pub truth: String,
    /// Whether answers are compared as numbers.
    pub numeric: bool,
}

/// Mathematical model of a [`Question`].
pub struct Asked {
    pub qtype: Seq<char>,
    pub text: Seq<char>,
    pub truth: Seq<char>,
    pub numeric: bool,
}

impl View for Question {
    type V = Asked;

    open spec fn view(&self) -> Asked {
        Asked {
            qtype: self.qtype@,
            text: self.text@,
            truth: self.truth@,
            numeric: self.numeric,
        }
    }
}

/// The models of a run of questions.
pub open spec fn asked(questions: Seq<Question>) -> Seq<Asked> {
    questions.map_values(|q: Question| q@)
}

/// A question for the largest value of a field, with the values to compare.
#[derive(Debug)]
pub struct MaxPlan {
    /// The field.
    pub field: String,
    /// Its numbers over all records, in order.
    pub candidates: Vec<Number>,
}

/// The questions about a run of records.
#[derive(Debug)]
pub struct Questions {
    /// Questions with a known answer.
    pub settled: Vec<Question>,
    /// The question for a maximum, where a field holds numbers.
    pub max: Option<MaxPlan>,
}

/// The models of a run of numbers.
pub open spec fn nums(items: Seq<Number>) -> Seq<Num> {
    items.map_values(|n: Number| n@)
}

/// The members of the first object among records.
pub open spec fn first_object(records: Seq<Json>, i: int) -> Option<Seq<(Seq<char>, Json)>>
    decreases records.len() - i,
{
    if i < 0 || i >= records.len() {
        None
    } else {
        match records[i] {
            Json::Object(members) => Some(members),
            _ => first_object(records, i + 1),
        }
    }
}

/// The names of a run of members.
pub open spec fn names(members: Seq<(Seq<char>, Json)>) -> Seq<Seq<char>> {
    members.map_values(|m: (Seq<char>, Json)| m.0)
}

/// Index of the lexicographically least key among the flagged ones.
pub open spec fn least(keys: Seq<Seq<char>>, flags: Seq<bool>) -> Option<int>
    decreases keys.len(),
{
    if keys.len() == 0 {
        None
    } else {
        let before = least(keys.drop_last(), flags.drop_last());
        let last = keys.len() - 1;
        if flags[last] && (before is None || precedes(keys[last], keys[before->0])) {
            Some(last)
        } else {
            before
        }
    }
}

/// Finds [`least`].
fn find_least(keys: &Vec<String>, flags: &Vec<bool>) -> (r: Option<usize>)
    requires
        keys@.len() == flags@.len(),
    ensures
        match r {
            Some(i) => i < keys@.len() && least(texts(keys@), flags@) == Some(i as int),
            None => least(texts(keys@), flags@) is None,
        },
{
    let ghost all = texts(keys@);
    let mut best: Option<usize> = None;
    let mut i: usize = 0;
    assert(all.take(0) =~= Seq::empty());
    while i < keys.len()
        invariant
            0 <= i <= keys@.len(),
            keys@.len() == flags@.len(),
            all == texts(keys@),
            match best {
                Some(b) => b < i && least(all.take(i as int), flags@.take(i as int)) == Some(
                    b as int,
                ),
                None => least(all.take(i as int), flags@.take(i as int)) is None,
            },
        decreases keys@.len() - i,
    {
        proof {
            assert(all.take(i + 1).drop_last() =~= all.take(i as int));
            assert(flags@.take(i + 1).drop_last() =~= flags@.take(i as int));
            assert(all[i as int] == keys@[i as int]@);
        }
        let better = match best {
            None => true,
            Some(b) => {
                assert(all[b as int] == keys@[b as int]@);
                comes_before(keys[i].as_str(), keys[b].as_str())
            },
        };
        if flags[i] && better {
            best = Some(i);
        }
        i = i + 1;
    }
    assert(all.take(all.len() as int) =~= all);
    assert(flags@.take(flags@.len() as int) =~= flags@);
    best
}

/// Whether a field looks like it identifies a record.
pub open spec fn looks_like_key(key: Seq<char>) -> bool {
    contains_text(lowercase(key), "id"@) || contains_text(lowercase(key), "name"@)
}

/// The field to look records up by: the least that looks like a key, otherwise
/// the least of all.
pub open spec fn key_field(keys: Seq<Seq<char>>) -> Option<int> {
    let preferred = least(keys, Seq::new(keys.len(), |i: int| looks_like_key(keys[i])));
    if preferred is Some {
        preferred
    } else {
        least(keys, Seq::new(keys.len(), |i: int| true))
    }
}

/// The field to ask for: the least that is not the key field.
pub open spec fn value_field(keys: Seq<Seq<char>>, key: int) -> Option<int> {
    least(keys, Seq::new(keys.len(), |i: int| keys[i] != keys[key]))
}

/// The number that a record holds under a field.
pub open spec fn number_at(record: Json, field: Seq<char>) -> Option<Num> {
    match record {
        Json::Object(members) => match lookup(members, field) {
            Some(Json::Number(n)) => Some(n),
            _ => None,
        },
        _ => None,
    }
}

/// The numbers that the first `n` records hold under a field.
pub open spec fn numbers_of(records: Seq<Json>, field: Seq<char>, n: nat) -> Seq<Num>
    decreases n,
{
    if n == 0 {
        Seq::empty()
    } else {
        match number_at(records[n - 1], field) {
            Some(x) => numbers_of(records, field, (n - 1) as nat).push(x),
            None => numbers_of(records, field, (n - 1) as nat),
        }
    }
}

/// The field to take the maximum of: the least that holds a number in some
/// record.
pub open spec fn numeric_field(keys: Seq<Seq<char>>, records: Seq<Json>) -> Option<int> {
    least(
        keys,
        Seq::new(
            keys.len(),
            |i: int| numbers_of(records, keys[i], records.len()).len() > 0,
        ),
    )
}

/// The question for the number of records.
pub open spec fn count_question(records: Seq<Json>) -> Asked {
    Asked {
        qtype: "count"@,
        text: "How many records are in the dataset?"@,
        truth: decimal(records.len()),
        numeric: true,
    }
}

/// The question for one field of the middle record, found by another.
pub open spec fn lookup_question(record: Json, key: Seq<char>, field: Seq<char>) -> Option<Asked> {
    match record {
        Json::Object(members) => match (lookup(members, key), lookup(members, field)) {
            (Some(k), Some(v)) => Some(
                Asked {
                    qtype: "lookup"@,
                    text: "What is the value of `"@ + field + "` for the record whose `"@ + key
                        + "` is "@ + plain(k) + "?"@,
                    truth: plain(v),
                    numeric: v is Number,
                },
            ),
            _ => None,
        },
        _ => None,
    }
}

/// The questions with a known answer.
pub open spec fn settled_questions(records: Seq<Json>) -> Seq<Asked> {
    let count = seq![count_question(records)];
    match first_object(records, 0) {
        None => count,
        Some(first) => {
            let keys = names(first);
            match key_field(keys) {
                None => count,
                Some(k) => match value_field(keys, k) {
                    None => count,
                    Some(v) => match lookup_question(
                        records[records.len() as int / 2],
                        keys[k],
                        keys[v],
                    ) {
                        None => count,
                        Some(q) => count.push(q),
                    },
                },
            }
        },
    }
}

/// The field and the numbers of the question for a maximum.
pub open spec fn max_question_of(records: Seq<Json>) -> Option<(Seq<char>, Seq<Num>)> {
    match first_object(records, 0) {
        None => None,
        Some(first) => {
            let keys = names(first);
            match numeric_field(keys, records) {
                None => None,
                Some(f) => Some((keys[f], numbers_of(records, keys[f], records.len()))),
            }
        },
    }
}

/// The names of the first object's members, if there is one.
fn first_keys(records: &Vec<JsonValue>) -> (r: Option<Vec<String>>)
    ensures
        match r {
            Some(keys) => first_object(models(records@), 0) is Some && texts(keys@) == names(
                first_object(models(records@), 0)->0,
            ),
            None => first_object(models(records@), 0) is None,
        },
{
    let ghost all = models(records@);
    let mut i: usize = 0;
    while i < records.len()
        invariant
            0 <= i <= records@.len(),
            all == models(records@),
            first_object(all, i as int) == first_object(all, 0),
        decreases records@.len() - i,
    {
        proof {
            lemma_container_model(records@[i as int]);
            assert(all[i as int] == records@[i as int]@);
        }
        match &records[i] {
            JsonValue::Object(members) => {
                let ghost want = names(member_models(members@));
                let mut keys: Vec<String> = Vec::new();
                let mut k: usize = 0;
                while k < members.len()
                    invariant
                        0 <= k <= members@.len(),
                        keys@.len() == k,
                        want == names(member_models(members@)),
                        texts(keys@) =~= want.take(k as int),
                    decreases members@.len() - k,
                {
                    let ghost before = texts(keys@);
                    let name = members[k].0.clone();
                    keys.push(name);
                    assert(texts(keys@) =~= before.push(want[k as int]));
                    k = k + 1;
                }
                assert(texts(keys@) =~= want);
                return Some(keys);
            },
            _ => {},
        }
        i = i + 1;
    }
    None
}

/// Finds [`key_field`].
fn find_key_field(keys: &Vec<String>) -> (r: Option<usize>)
    ensures
        match r {
            Some(i) => i < keys@.len() && key_field(texts(keys@)) == Some(i as int),
            None => key_field(texts(keys@)) is None,
        },
{
    let ghost all = texts(keys@);
    let mut likely: Vec<bool> = Vec::new();
    let mut any: Vec<bool> = Vec::new();
    let mut i: usize = 0;
    while i < keys.len()
        invariant
            0 <= i <= keys@.len(),
            all == texts(keys@),
            likely@ =~= Seq::new(i as nat, |j: int| looks_like_key(all[j])),
            any@ =~= Seq::new(i as nat, |j: int| true),
        decreases keys@.len() - i,
    {
        let lower = to_lowercase(keys[i].as_str());
        assert(all[i as int] == keys@[i as int]@);
        let flag = has_text(lower.as_str(), "id") || has_text(lower.as_str(), "name");
        likely.push(flag);
        any.push(true);
        i = i + 1;
    }
    assert(likely@ =~= Seq::new(all.len(), |j: int| looks_like_key(all[j])));
    assert(any@ =~= Seq::new(all.len(), |j: int| true));
    match find_least(keys, &likely) {
        Some(k) => Some(k),
        None => find_least(keys, &any),
    }
}

/// Finds [`value_field`].
fn find_value_field(keys: &Vec<String>, key: usize) -> (r: Option<usize>)
    requires
        key < keys@.len(),
    ensures
        match r {
            Some(i) => i < keys@.len() && value_field(texts(keys@), key as int) == Some(i as int),
            None => value_field(texts(keys@), key as int) is None,
        },
{
    let ghost all = texts(keys@);
    let mut flags: Vec<bool> = Vec::new();
    let mut i: usize = 0;
    while i < keys.len()
        invariant
            0 <= i <= keys@.len(),
            key < keys@.len(),
            all == texts(keys@),
            flags@ =~= Seq::new(i as nat, |j: int| all[j] != all[key as int]),
        decreases keys@.len() - i,
    {
        assert(all[i as int] == keys@[i as int]@);
        assert(all[key as int] == keys@[key as int]@);
        flags.push(!same_text(keys[i].as_str(), keys[key].as_str()));
        i = i + 1;
    }
    assert(flags@ =~= Seq::new(all.len(), |j: int| all[j] != all[key as int]));
    find_least(keys, &flags)
}

/// The numbers that records hold under a field.
fn collect_numbers(records: &Vec<JsonValue>, field: &str) -> (r: Vec<Number>)
    ensures
        nums(r@) == numbers_of(models(records@), field@, records@.len()),
{
    let ghost all = models(records@);
    let mut out: Vec<Number> = Vec::new();
    let mut i: usize = 0;
    assert(nums(out@) =~= Seq::empty());
    while i < records.len()
        invariant
            0 <= i <= records@.len(),
            all == models(records@),
            nums(out@) == numbers_of(all, field@, i as nat),
        decreases records@.len() - i,
    {
        proof {
            lemma_container_model(records@[i as int]);
            assert(all[i as int] == records@[i as int]@);
        }
        let ghost before = nums(out@);
        match &records[i] {
            JsonValue::Object(members) => {
                match find_key(members, field) {
                    Some(k) => {
                        assert(member_models(members@)[k as int].1 == members@[k as int].1@);
                        match &members[k].1 {
                            JsonValue::Number(n) => {
                                let copy = n.duplicate();
                                out.push(copy);
                                assert(nums(out@) =~= before.push(n@));
                            },
                            _ => {},
                        }
                    },
                    None => {},
                }
            },
            _ => {},
        }
        i = i + 1;
    }
    out
}

/// Finds [`numeric_field`].
fn find_numeric_field(keys: &Vec<String>, records: &Vec<JsonValue>) -> (r: Option<usize>)
    ensures
        match r {
            Some(i) => i < keys@.len() && numeric_field(texts(keys@), models(records@)) == Some(
                i as int,
            ),
            None => numeric_field(texts(keys@), models(records@)) is None,
        },
{
    let ghost all = texts(keys@);
    let ghost rows = models(records@);
    let mut flags: Vec<bool> = Vec::new();
    let mut i: usize = 0;
    while i < keys.len()
        invariant
            0 <= i <= keys@.len(),
            all == texts(keys@),
            rows == models(records@),
            flags@ =~= Seq::new(
                i as nat,
                |j: int| numbers_of(rows, all[j], rows.len()).len() > 0,
            ),
        decreases keys@.len() - i,
    {
        assert(all[i as int] == keys@[i as int]@);
        let found = collect_numbers(records, keys[i].as_str());
        assert(nums(found@).len() == found@.len());
        flags.push(found.len() > 0);
        i = i + 1;
    }
    assert(flags@ =~= Seq::new(
        all.len(),
        |j: int| numbers_of(rows, all[j], rows.len()).len() > 0,
    ));
    find_least(keys, &flags)
}

/// Builds [`lookup_question`].
fn ask_lookup(record: &JsonValue, key: &str, field: &str) -> (r: Option<Question>)
    ensures
        match r {
            Some(q) => lookup_question(record@, key@, field@) == Some(q@),
            None => lookup_question(record@, key@, field@) is None,
        },
{
    proof {
        lemma_container_model(*record);
    }
    match record {
        JsonValue::Object(members) => {
            let k = match find_key(members, key) {
                Some(k) => k,
                None => {
                    return None;
                },
            };
            let v = match find_key(members, field) {
                Some(v) => v,
                None => {
                    return None;
                },
            };
            assert(member_models(members@)[k as int].1 == members@[k as int].1@);
            assert(member_models(members@)[v as int].1 == members@[v as int].1@);
            let text = "What is the value of `".to_owned().concat(field).concat(
                "` for the record whose `",
            ).concat(key).concat("` is ").concat(as_plain(&members[k].1).as_str()).concat("?");
            Some(
                Question {
                    qtype: "lookup",
                    text,
                    truth: as_plain(&members[v].1),
                    numeric: members[v].1.is_number(),
                },
            )
        },
        _ => None,
    }
}

/// Builds the questions about a run of records.
pub fn build_questions(records: &Vec<JsonValue>) -> (r: Questions)
    ensures
        asked(r.settled@) == settled_questions(models(records@)),
        match r.max {
            Some(plan) => max_question_of(models(records@)) == Some(
                (plan.field@, nums(plan.candidates@)),
            ),
            None => max_question_of(models(records@)) is None,
        },
{
    let ghost all = models(records@);
    let mut settled: Vec<Question> = Vec::new();
    let count = Question {
        qtype: "count",
        text: "How many records are in the dataset?".to_owned(),
        truth: count_text(records.len()),
        numeric: true,
    };
    settled.push(count);
    let ghost first_asked = seq![count_question(all)];
    assert(asked(settled@) =~= first_asked);
    let keys = match first_keys(records) {
        Some(keys) => keys,
        None => {
            return Questions { settled, max: None };
        },
    };
    proof {
        lemma_first_object(all, 0);
    }
    match find_key_field(&keys) {
        Some(k) => {
            match find_value_field(&keys, k) {
                Some(v) => {
                    let middle = records.len() / 2;
                    assert(all[middle as int] == records@[middle as int]@);
                    match ask_lookup(&records[middle], keys[k].as_str(), keys[v].as_str()) {
                        Some(q) => {
                            settled.push(q);
                            assert(asked(settled@) =~= first_asked.push(q@));
                        },
                        None => {},
                    }
                },
                None => {},
            }
        },
        None => {},
    }
    let max = match find_numeric_field(&keys, records) {
        Some(f) => {
            let candidates = collect_numbers(records, keys[f].as_str());
            Some(MaxPlan { field: keys[f].clone(), candidates })
        },
        None => None,
    };
    Questions { settled, max }
}

/// Records with an object among them are not empty.
proof fn lemma_first_object(records: Seq<Json>, i: int)
    requires
        first_object(records, i) is Some,
    ensures
        0 <= i < records.len(),
{
}

/// The question for the maximum of a field, once it is known.
pub fn max_question(field: &str, truth: String) -> (r: Question)
    ensures
        r@ == (Asked {
            qtype: "max"@,
            text: "What is the maximum value of `"@ + field@ + "` across all records?"@,
            truth: truth@,
            numeric: true,
        }),
{
    Question {
        qtype: "max",
        text: "What is the maximum value of `".to_owned().concat(field).concat(
            "` across all records?",
        ),
        truth,
        numeric: true,
    }
}

// ---------------------------------------------------------------------------
// Grading
// ---------------------------------------------------------------------------

/// Whether `c` can be part of a plain number.
pub open spec fn is_number_char(c: char) -> bool {
    is_digit(c) || c == '.' || c == '-'
}

/// The first run of number characters in `s` that reads as a number, with `run`
/// the characters of a run that goes on at the start of `s`.
pub open spec fn first_number_from(s: Seq<char>, run: Seq<char>) -> Option<Seq<char>>
    decreases s.len(),
{
    if s.len() == 0 {
        if float_reading(run) is Some {
            Some(run)
        } else {
            None
        }
    } else if is_number_char(s[0]) {
        first_number_from(s.drop_first(), run.push(s[0]))
    } else if run.len() > 0 && float_reading(run) is Some {
        Some(run)
    } else {
        first_number_from(s.drop_first(), Seq::empty())
    }
}

/// The first number in an answer, as text.
pub fn first_number(s: &str) -> (r: Option<String>)
    ensures
        match r {
            Some(t) => first_number_from(s@, Seq::empty()) == Some(t@),
            None => first_number_from(s@, Seq::empty()) is None,
        },
{
    let chars = chars_of(s);
    let mut run = String::new();
    let mut i: usize = 0;
    assert(chars@.skip(0) =~= chars@);
    while i < chars.len()
        invariant
            0 <= i <= chars@.len(),
            chars@ == s@,
            first_number_from(chars@.skip(i as int), run@) == first_number_from(
                s@,
                Seq::empty(),
            ),
        decreases chars@.len() - i,
    {
        let c = chars[i];
        let ghost rest = chars@.skip(i as int);
        assert(rest[0] == c);
        assert(rest.drop_first() =~= chars@.skip(i + 1));
        if digit(c) || c == '.' || c == '-' {
            run.push(c);
        } else {
            if !run.as_str().is_empty() {
                if read_float(run.as_str()).is_some() {
                    return Some(run);
                }
            }
            run = String::new();
        }
        i = i + 1;
    }
    if read_float(run.as_str()).is_some() {
        Some(run)
    } else {
        None
    }
}

/// Whether `c` is punctuation that answers are often wrapped in.
pub open spec fn is_wrapping(c: char) -> bool {
    c == '"' || c == '\'' || c == '`' || c == '.' || c == ',' || c == ' '
}

/// The predicate [`is_wrapping`] as a value.
pub open spec fn wrapping() -> spec_fn(char) -> bool {
    |c: char| is_wrapping(c)
}

/// An answer without white space and wrapping around it, in lowercase.
pub open spec fn normalized(s: Seq<char>) -> Seq<char> {
    lowercase(trim_by(trimmed(s), wrapping()))
}

/// Decides [`is_wrapping`].
fn wraps(c: char) -> (r: bool)
    ensures
        r == is_wrapping(c),
{
    c == '"' || c == '\'' || c == '`' || c == '.' || c == ',' || c == ' '
}

/// Normalises an answer for comparison.
pub fn normalize(s: &str) -> (r: String)
    ensures
        r@ == normalized(s@),
{
    let inner = trim(s);
    let chars = chars_of(inner.as_str());
    let n = chars.len();
    let mut lo: usize = 0;
    assert(chars@.subrange(0, n as int) =~= chars@);
    while lo < n && wraps(chars[lo])
        invariant
            0 <= lo <= n,
            n == chars@.len(),
            trim_start_by(chars@.subrange(lo as int, n as int), wrapping()) == trim_start_by(
                chars@,
                wrapping(),
            ),
        decreases n - lo,
    {
        assert(chars@.subrange(lo as int, n as int).drop_first() =~= chars@.subrange(
            lo + 1,
            n as int,
        ));
        lo = lo + 1;
    }
    let ghost front = chars@.subrange(lo as int, n as int);
    assert(front == trim_start_by(chars@, wrapping()));
    let mut hi: usize = n;
    while hi > lo && wraps(chars[hi - 1])
        invariant
            0 <= lo <= hi <= n,
            n == chars@.len(),
            trim_end_by(chars@.subrange(lo as int, hi as int), wrapping()) == trim_end_by(
                front,
                wrapping(),
            ),
        decreases hi - lo,
    {
        assert(chars@.subrange(lo as int, hi as int).drop_last() =~= chars@.subrange(
            lo as int,
            hi - 1,
        ));
        hi = hi - 1;
    }
    let core = text_between(&chars, lo, hi);
    to_lowercase(core.as_str())
}

/// The verdict on an answer.
#[derive(Debug)]
pub enum Grade {
    /// The answer is right or wrong.
    Settled(bool),
    /// The answer is right where these two numbers agree within tolerance.
    Compare {
        /// The number in the answer.
        answer: String,
        /// The right number.
        truth: String,
    },
}

/// Whether a text answer is right: equal to the truth or containing it, both
/// normalised. Nothing is right against an empty truth.
pub open spec fn text_matches(truth: Seq<char>, answer: Seq<char>) -> bool {
    normalized(truth).len() > 0 && contains_text(normalized(answer), normalized(truth))
}

/// Grades an answer to a question.
pub fn grade(q: &Question, answer: &str) -> (r: Grade)
    ensures
        if q.numeric {
            match first_number_from(answer@, Seq::empty()) {
                Some(a) if float_reading(q.truth@) is Some => {
                    &&& r matches Grade::Compare { answer: x, truth: t }
                    &&& r->answer@ == a
                    &&& r->truth@ == q.truth@
                },
                _ => r == Grade::Settled(false),
            }
        } else {
            r == Grade::Settled(text_matches(q.truth@, answer@))
        },
{
    if q.numeric {
        match first_number(answer) {
            Some(found) => {
                if read_float(q.truth.as_str()).is_some() {
                    Grade::Compare { answer: found, truth: q.truth.clone() }
                } else {
                    Grade::Settled(false)
                }
            },
            None => Grade::Settled(false),
        }
    } else {
        let a = normalize(answer);
        let t = normalize(q.truth.as_str());
        Grade::Settled(!t.as_str().is_empty() && has_text(a.as_str(), t.as_str()))
    }
}

// ---------------------------------------------------------------------------
// Items
// ---------------------------------------------------------------------------

/// The instruction that goes before every question.
pub fn answer_instruction() -> (r: &'static str)
    ensures
        r@ == "You are a precise data-reading assistant. Answer the question using ONLY the dataset provided. Reply with just the answer value — no explanation, no units, no extra words."@,
{
    "You are a precise data-reading assistant. Answer the question using ONLY the dataset provided. Reply with just the answer value — no explanation, no units, no extra words."
}

/// The prompt that asks a question over one representation of a payload.
pub fn answer_prompt(label: &str, text: &str, question: &str) -> (r: String)
    ensures
        r@ == "Dataset ("@ + label@ + "):\n"@ + text@ + "\n\nQuestion: "@ + question@,
{
    "Dataset (".to_owned().concat(label).concat("):\n").concat(text).concat(
        "\n\nQuestion: ",
    ).concat(question)
}

/// The label of a payload's own representation.
pub fn format_label(format: &str) -> (r: String)
    ensures
        r@ == uppercase(format@),
{
    to_uppercase(format)
}

/// What to ask about a corpus item.
#[derive(Debug)]
pub struct ItemPlan {
    /// The TOON text of the payload.
    pub toon: String,
    /// The questions.
    pub questions: Questions,
}

/// The records and the TOON text of an item that is worth asking about: short
/// enough, parseable, with records in it, and encodable.
pub open spec fn item_material(payload: Seq<char>, format: Seq<char>, limit: nat) -> Option<
    (Seq<Json>, Seq<char>),
> {
    if byte_len(payload) > limit {
        None
    } else {
        match payload_value(format, payload, true) {
            Err(_) => None,
            Ok(value) => match (records_in(value), pipeline_text(value)) {
                (Some(records), Ok(toon)) => Some((records, toon)),
                _ => None,
            },
        }
    }
}

/// Plans the questions about a corpus item; nothing where it is skipped.
pub fn plan_item(item: &CorpusItem, cfg: &ComprehendConfig) -> (r: Option<ItemPlan>)
    ensures
        match item_material(item.payload@, item.format@, cfg.max_context_bytes as nat) {
            None => r is None,
            Some((records, toon)) => {
                &&& r is Some
                &&& r->0.toon@ == toon
                &&& asked(r->0.questions.settled@) == settled_questions(records)
                &&& match r->0.questions.max {
                    Some(plan) => max_question_of(records) == Some(
                        (plan.field@, nums(plan.candidates@)),
                    ),
                    None => max_question_of(records) is None,
                }
            },
        },
{
    if bytes_in(item.payload.as_str()) > cfg.max_context_bytes {
        return None;
    }
    let value = match parse_to_value(item.format.as_str(), item.payload.as_str(), true) {
        Ok(v) => v,
        Err(_) => {
            return None;
        },
    };
    let records = match find_records(&value) {
        Some(records) => records,
        None => {
            return None;
        },
    };
    let toon = match encode_pipeline(&value) {
        Ok(t) => t,
        Err(_) => {
            return None;
        },
    };
    let questions = build_questions(records);
    Some(ItemPlan { toon, questions })
}

/// The result of a question about an item, from the two answers and whether they
/// are right.
pub fn question_result(
    item: &CorpusItem,
    question: Question,
    answers: (String, String),
    correct: (bool, bool),
) -> (r: ComprehensionResult)
    ensures
        r.id@ == item.id@,
        r.format@ == item.format@,
        r.intended_shape@ == item.intended_shape@,
        r.qtype@ == question.qtype@,
        r.question == question.text,
        r.ground_truth == question.truth,
        r.answer_json == answers.0,
        r.answer_toon == answers.1,
        r.correct_json == correct.0,
        r.correct_toon == correct.1,
{
    ComprehensionResult {
        id: item.id.clone(),
        format: item.format.clone(),
        intended_shape: item.intended_shape.clone(),
        qtype: question.qtype.to_owned(),
        question: question.text,
        ground_truth: question.truth,
        answer_json: answers.0,
        answer_toon: answers.1,
        correct_json: correct.0,
        correct_toon: correct.1,
    }
}

} // verus!
