//! What the evaluation harness asks, keeps and measures.

use vstd::prelude::*;
use crate::bindings::{float_reading, json_text, lowercase};
use crate::evals::cli::flag_value;
use crate::evals::comprehension::{
    first_number_from, first_object, is_record_array, key_field, least, looks_like_key,
    max_question_of, names, normalized, number_at, numbers_of, numeric_field, object, records_in,
    records_in_items, records_in_members, settled_questions, text_matches, value_field, wrapping,
    Asked,
};
use crate::laws::shapes::below;
use crate::number::decimal;
use crate::sequence::{lemma_filter_empty, lemma_filter_push};
use crate::text::{
    contains_text, lemma_not_before_itself, lemma_precedes_transitive, occurs_at, precedes, trim_by,
    trim_end_by, trim_start_by, trimmed,
};
use crate::value::{key_index, lemma_key_index, lookup, Json, Num};

verus! {

/// The argument behind a flag is the one that follows its first occurrence.
pub proof fn flags_are_read_at_their_first_occurrence(args: Seq<String>, name: Seq<char>, at: int)
    requires
        0 <= at < args.len(),
        args[at]@ == name,
        forall|i: int| 0 <= i < at ==> (#[trigger] args[i])@ != name,
    ensures
        at + 1 < args.len() ==> flag_value(args, name, 0) == Some(args[at + 1]@),
        at + 1 == args.len() ==> flag_value(args, name, 0) is None,
{
    lemma_flag(args, name, 0, at);
}

proof fn lemma_flag(args: Seq<String>, name: Seq<char>, from: int, at: int)
    requires
        0 <= from <= at < args.len(),
        args[at]@ == name,
        forall|i: int| 0 <= i < at ==> (#[trigger] args[i])@ != name,
    ensures
        flag_value(args, name, from) == (if at + 1 < args.len() {
            Some(args[at + 1]@)
        } else {
            None
        }),
    decreases at - from,
{
    if from < at {
        assert(args[from]@ != name);
        lemma_flag(args, name, from + 1, at);
    }
}

/// A flag that does not occur has no argument.
pub proof fn absent_flags_have_no_argument(args: Seq<String>, name: Seq<char>, from: int)
    requires
        0 <= from <= args.len(),
        forall|i: int| 0 <= i < args.len() ==> (#[trigger] args[i])@ != name,
    ensures
        flag_value(args, name, from) is None,
    decreases args.len() - from,
{
    if from < args.len() {
        assert(args[from]@ != name);
        absent_flags_have_no_argument(args, name, from + 1);
    }
}

/// The least key among the flagged ones is flagged, none that is flagged comes
/// before it, and there is one as soon as any key is flagged.
pub proof fn the_least_key_comes_first(keys: Seq<Seq<char>>, flags: Seq<bool>)
    requires
        flags.len() == keys.len(),
    ensures
        least(keys, flags) is None <==> forall|i: int| 0 <= i < keys.len() ==> !#[trigger] flags[i],
        least(keys, flags) matches Some(at) ==> 0 <= at < keys.len() && flags[at] && forall|i: int|
            0 <= i < keys.len() && #[trigger] flags[i] ==> keys[i] == keys[at] || precedes(
                keys[at],
                keys[i],
            ),
    decreases keys.len(),
{
    if keys.len() > 0 {
        let front = keys.drop_last();
        let marks = flags.drop_last();
        the_least_key_comes_first(front, marks);
        let last = keys.len() - 1;
        assert forall|i: int| 0 <= i < last implies marks[i] == #[trigger] flags[i] && front[i]
            == keys[i] by {}
        let before = least(front, marks);
        if before is None {
            assert forall|i: int| 0 <= i < last implies !#[trigger] flags[i] by {
                assert(!marks[i]);
            }
        } else {
            let b = before->0;
            assert(front[b] == keys[b] && marks[b] == flags[b]);
            assert forall|i: int| 0 <= i < last && #[trigger] flags[i] implies keys[i] == keys[b]
                || precedes(keys[b], keys[i]) by {
                assert(marks[i]);
            }
            lemma_total(keys[last], keys[b]);
            if flags[last] && precedes(keys[last], keys[b]) {
                assert forall|i: int| 0 <= i < keys.len() && #[trigger] flags[i] implies keys[i]
                    == keys[last] || precedes(keys[last], keys[i]) by {
                    if i < last && keys[i] != keys[b] {
                        lemma_precedes_transitive(keys[last], keys[b], keys[i]);
                    }
                }
            }
        }
    }
}

/// Of two different texts one comes first.
proof fn lemma_total(a: Seq<char>, b: Seq<char>)
    ensures
        a == b || precedes(a, b) || precedes(b, a),
    decreases a.len(),
{
    if a.len() > 0 && b.len() > 0 && a[0] == b[0] {
        lemma_total(a.drop_first(), b.drop_first());
        if a.drop_first() == b.drop_first() {
            assert(a =~= seq![a[0]] + a.drop_first());
            assert(b =~= seq![b[0]] + b.drop_first());
        }
    } else if a.len() == 0 && b.len() == 0 {
        assert(a =~= b);
    }
}

/// Whether a field's name holds `id` or `name`, in either case.
pub open spec fn identifies(key: Seq<char>) -> bool {
    contains_text(lowercase(key), "id"@) || contains_text(lowercase(key), "name"@)
}

/// Records are looked up by the first name in order that identifies, where there
/// is one, otherwise by the first name of all; the value asked for stands under
/// the first other name.
pub proof fn lookups_use_an_identifying_field(keys: Seq<Seq<char>>)
    ensures
        key_field(keys) is None <==> keys.len() == 0,
        key_field(keys) matches Some(k) ==> {
            &&& 0 <= k < keys.len()
            &&& identifies(keys[k]) || forall|i: int|
                0 <= i < keys.len() ==> !identifies(#[trigger] keys[i])
            &&& forall|i: int|
                0 <= i < keys.len() && identifies(#[trigger] keys[i]) == identifies(keys[k])
                    ==> keys[i] == keys[k] || precedes(keys[k], keys[i])
            &&& value_field(keys, k) is None <==> forall|i: int|
                0 <= i < keys.len() ==> #[trigger] keys[i] == keys[k]
            &&& value_field(keys, k) matches Some(v) ==> 0 <= v < keys.len() && keys[v] != keys[k]
                && forall|i: int|
                0 <= i < keys.len() && #[trigger] keys[i] != keys[k] ==> keys[i] == keys[v]
                    || precedes(keys[v], keys[i])
        },
{
    let wanted = Seq::new(keys.len(), |i: int| looks_like_key(keys[i]));
    let all = Seq::new(keys.len(), |i: int| true);
    the_least_key_comes_first(keys, wanted);
    the_least_key_comes_first(keys, all);
    assert forall|i: int| 0 <= i < keys.len() implies wanted[i] == identifies(
        #[trigger] keys[i],
    ) by {}
    if keys.len() > 0 {
        assert(all[0]);
        let k = key_field(keys)->0;
        let others = Seq::new(keys.len(), |i: int| keys[i] != keys[k]);
        the_least_key_comes_first(keys, others);
        if least(keys, wanted) is Some {
            assert(wanted[k]);
            assert forall|i: int|
                0 <= i < keys.len() && identifies(#[trigger] keys[i]) == identifies(
                    keys[k],
                ) implies keys[i] == keys[k] || precedes(keys[k], keys[i]) by {
                assert(wanted[i]);
            }
        } else {
            assert forall|i: int| 0 <= i < keys.len() implies !identifies(#[trigger] keys[i]) by {
                assert(!wanted[i]);
            }
            assert forall|i: int|
                0 <= i < keys.len() && identifies(#[trigger] keys[i]) == identifies(
                    keys[k],
                ) implies keys[i] == keys[k] || precedes(keys[k], keys[i]) by {
                assert(all[i]);
            }
        }
        assert forall|i: int| 0 <= i < keys.len() implies others[i] == (#[trigger] keys[i]
            != keys[k]) by {}
        if value_field(keys, k) is None {
            assert forall|i: int| 0 <= i < keys.len() implies #[trigger] keys[i] == keys[k] by {
                assert(!others[i]);
            }
        } else if forall|i: int| 0 <= i < keys.len() ==> #[trigger] keys[i] == keys[k] {
            assert(others[value_field(keys, k)->0]);
            assert(false);
        } else {
            assert forall|i: int| 0 <= i < keys.len() && #[trigger] keys[i] != keys[k] implies {
                ||| keys[i] == keys[value_field(keys, k)->0]
                ||| precedes(keys[value_field(keys, k)->0], keys[i])
            } by {
                assert(others[i]);
            }
        }
    }
}

/// The number of objects among the first `n` items.
pub open spec fn objects_among(items: Seq<Json>, n: nat) -> nat
    decreases n,
{
    if n == 0 {
        0
    } else if items[n - 1] is Object {
        1 + objects_among(items, (n - 1) as nat)
    } else {
        objects_among(items, (n - 1) as nat)
    }
}

/// Whether a value is an array of three or more items with at least as many
/// objects among them as other values.
pub open spec fn holds_records(v: Json) -> bool {
    v matches Json::Array(items) && items.len() >= 3 && objects_among(items, items.len())
        >= items.len() - objects_among(items, items.len())
}

proof fn lemma_objects_among(items: Seq<Json>, n: nat)
    requires
        n <= items.len(),
    ensures
        items.take(n as int).filter(object()).len() == objects_among(items, n),
    decreases n,
{
    if n == 0 {
        assert(items.take(0) =~= Seq::empty());
        lemma_filter_empty(object());
    } else {
        lemma_objects_among(items, (n - 1) as nat);
        assert(items.take(n as int) =~= items.take(n - 1).push(items[n - 1]));
        lemma_filter_push(items.take(n - 1), items[n - 1], object());
    }
}

proof fn lemma_holds_records(items: Seq<Json>)
    ensures
        is_record_array(items) <==> holds_records(Json::Array(items)),
{
    lemma_objects_among(items, items.len());
    assert(items.take(items.len() as int) =~= items);
    assert(Json::Array(items)->Array_0 == items);
}

/// Whether one place of a tree comes before another: a value before what it
/// holds, and what it holds in order.
pub open spec fn comes_earlier(a: Seq<int>, b: Seq<int>) -> bool
    decreases a.len(),
{
    if b.len() == 0 {
        false
    } else if a.len() == 0 {
        true
    } else if a[0] == b[0] {
        comes_earlier(a.drop_first(), b.drop_first())
    } else {
        a[0] < b[0]
    }
}

/// Whether records stand at a place of a tree.
pub open spec fn records_at(v: Json, path: Seq<int>) -> bool {
    below(v, path) matches Some(w) && holds_records(w)
}

/// Whether the first records of a tree stand at a place, and are these.
pub open spec fn is_first_records(v: Json, path: Seq<int>, found: Seq<Json>) -> bool {
    &&& below(v, path) == Some(Json::Array(found))
    &&& holds_records(Json::Array(found))
    &&& forall|other: Seq<int>| #[trigger] records_at(v, other) ==> !comes_earlier(other, path)
}

/// The records of a tree are the first array in it that holds any, a value before
/// what it holds and members and items in order; there are none only where no
/// array in the tree does.
pub proof fn the_first_records_are_found(v: Json)
    ensures
        match records_in(v) {
            Some(found) => exists|path: Seq<int>| is_first_records(v, path, found),
            None => forall|path: Seq<int>| !#[trigger] records_at(v, path),
        },
{
    lemma_first_records(v);
}

proof fn lemma_first_records(v: Json)
    ensures
        match records_in(v) {
            Some(found) => exists|path: Seq<int>| is_first_records(v, path, found),
            None => forall|path: Seq<int>| !#[trigger] records_at(v, path),
        },
    decreases v, width(v) + 2,
{
    match v {
        Json::Array(items) => {
            lemma_holds_records(items);
            if is_record_array(items) {
                assert(below(v, Seq::empty()) == Some(v));
                assert(records_in(v) == Some(items));
                assert(is_first_records(v, Seq::empty(), records_in(v)->0));
            } else {
                assert forall|i: int| 0 <= i < items.len() implies #[trigger] child(v, i) == Some(
                    items[i],
                ) by {}
                lemma_records_among(v, 0);
                assert(below(v, Seq::empty()) == Some(v));
                assert forall|path: Seq<int>| #[trigger] records_at(v, path) implies path.len()
                    > 0 by {
                    if path.len() == 0 {
                        assert(path =~= Seq::empty());
                    }
                }
                lemma_items(items, 0);
                lemma_whole(v);
                assert(records_in(v) == among(v, 0));
            }
        },
        Json::Object(members) => {
            lemma_records_among(v, 0);
            assert forall|path: Seq<int>| #[trigger] records_at(v, path) implies path.len()
                > 0 by {}
            lemma_members(members, 0);
            lemma_whole(v);
        },
        _ => {
            assert forall|path: Seq<int>| !#[trigger] records_at(v, path) by {}
        },
    }
}

/// Whether the first records below a value, from its `i`-th child on, stand at a
/// place, and are these.
spec fn is_first_from(v: Json, i: int, path: Seq<int>, found: Seq<Json>) -> bool {
    &&& path.len() > 0
    &&& path[0] >= i
    &&& below(v, path) == Some(Json::Array(found))
    &&& holds_records(Json::Array(found))
    &&& forall|other: Seq<int>|
        #[trigger] records_at(v, other) && other.len() > 0 && other[0] >= i ==> !comes_earlier(
            other,
            path,
        )
}

/// The value directly below another at an index.
spec fn child(v: Json, i: int) -> Option<Json> {
    match v {
        Json::Array(items) => if 0 <= i < items.len() {
            Some(items[i])
        } else {
            None
        },
        Json::Object(members) => if 0 <= i < members.len() {
            Some(members[i].1)
        } else {
            None
        },
        _ => None,
    }
}

/// Where a value holds no records itself, the first ones below it are the first.
proof fn lemma_whole(v: Json)
    requires
        forall|path: Seq<int>| #[trigger] records_at(v, path) ==> path.len() > 0,
        forall|i: int, path: Seq<int>| #[trigger]
            records_at(v, path) && path.len() > 0 && path[0] == i ==> #[trigger] child(v, i)
                is Some,
        match among(v, 0) {
            Some(found) => exists|path: Seq<int>| is_first_from(v, 0, path, found),
            None => forall|path: Seq<int>| #[trigger]
                records_at(v, path) && path.len() > 0 ==> path[0] < 0,
        },
    ensures
        match among(v, 0) {
            Some(found) => exists|path: Seq<int>| is_first_records(v, path, found),
            None => forall|path: Seq<int>| !#[trigger] records_at(v, path),
        },
{
    assert forall|path: Seq<int>| #[trigger] records_at(v, path) implies path[0] >= 0 by {
        assert(child(v, path[0]) is Some);
    }
    if among(v, 0) is Some {
        let found = among(v, 0)->0;
        let path = choose|path: Seq<int>| is_first_from(v, 0, path, found);
        assert(is_first_records(v, path, found));
    }
}

/// The first records below a value, from its `i`-th child on.
spec fn among(v: Json, i: int) -> Option<Seq<Json>> {
    match v {
        Json::Array(items) => records_in_items(items, i),
        Json::Object(members) => records_in_members(members, i),
        _ => None,
    }
}

spec fn width(v: Json) -> nat {
    match v {
        Json::Array(items) => items.len(),
        Json::Object(members) => members.len(),
        _ => 0,
    }
}

proof fn lemma_items(items: Seq<Json>, i: int)
    ensures
        among(Json::Array(items), i) == records_in_items(items, i),
{
}

proof fn lemma_members(members: Seq<(Seq<char>, Json)>, i: int)
    ensures
        among(Json::Object(members), i) == records_in_members(members, i),
{
}

proof fn lemma_records_among(v: Json, i: int)
    requires
        0 <= i <= width(v),
        v is Array || v is Object,
    ensures
        match among(v, i) {
            Some(found) => exists|path: Seq<int>| is_first_from(v, i, path, found),
            None => forall|path: Seq<int>| #[trigger]
                records_at(v, path) && path.len() > 0 ==> path[0] < i,
        },
    decreases v, width(v) - i + 1,
{
    if i < width(v) {
        let w = child(v, i)->0;
        match v {
            Json::Array(items) => {
                assert(decreases_to!(v => v->Array_0));
                assert(decreases_to!(v->Array_0 => v->Array_0[i]));
                assert(w == items[i]);
            },
            Json::Object(members) => {
                assert(decreases_to!(v => v->Object_0));
                assert(decreases_to!(v->Object_0 => v->Object_0[i]));
                assert(decreases_to!(v->Object_0[i] => v->Object_0[i].1));
                assert(w == members[i].1);
            },
            _ => {},
        }
        lemma_first_records(w);
        lemma_records_among(v, i + 1);
        assert forall|path: Seq<int>|
            #[trigger] records_at(v, path) && path.len() > 0 && path[0] == i implies records_at(
            w,
            path.drop_first(),
        ) by {}
        match records_in(w) {
            Some(found) => {
                let inner = choose|path: Seq<int>| is_first_records(w, path, found);
                let path = seq![i] + inner;
                assert(path.drop_first() =~= inner);
                assert(below(v, path) == Some(Json::Array(found)));
                assert forall|other: Seq<int>|
                    #[trigger] records_at(v, other) && other.len() > 0 && other[0]
                        >= i implies !comes_earlier(other, path) by {
                    if other[0] == i {
                        assert(records_at(w, other.drop_first()));
                    }
                }
                assert(is_first_from(v, i, path, found));
                assert(among(v, i) == Some(found));
            },
            None => {
                assert(among(v, i) == among(v, i + 1));
                assert forall|path: Seq<int>|
                    #[trigger] records_at(v, path) && path.len() > 0 implies path[0] != i by {
                    if path[0] == i {
                        assert(records_at(w, path.drop_first()));
                    }
                }
                if among(v, i) is Some {
                    let found = among(v, i)->0;
                    let next = i + 1;
                    let path = choose|path: Seq<int>| is_first_from(v, next, path, found);
                    assert(is_first_from(v, i, path, found));
                }
            },
        }
    } else {
        assert(among(v, i) is None);
        assert forall|path: Seq<int>| #[trigger]
            records_at(v, path) && path.len() > 0 implies path[0] < i by {}
    }
}

/// Whether a record holds a number as the first member of a name.
pub open spec fn holds_number(record: Json, field: Seq<char>, n: Num) -> bool {
    record matches Json::Object(members) && exists|i: int|
        0 <= i < members.len() && #[trigger] members[i] == (field, Json::Number(n)) && forall|
            j: int,
        |
            0 <= j < i ==> (#[trigger] members[j]).0 != field
}

proof fn lemma_lookup(members: Seq<(Seq<char>, Json)>, key: Seq<char>)
    ensures
        lookup(members, key) matches Some(v) ==> {
            &&& 0 <= key_index(members, key) < members.len()
            &&& members[key_index(members, key)] == (key, v)
        },
        forall|j: int|
            0 <= j < key_index(members, key) ==> (#[trigger] members[j]).0 != key,
        lookup(members, key) is None ==> forall|j: int|
            0 <= j < members.len() ==> (#[trigger] members[j]).0 != key,
{
    lemma_key_index(members, key);
}

proof fn lemma_number_at(record: Json, field: Seq<char>, n: Num)
    ensures
        number_at(record, field) == Some(n) <==> holds_number(record, field, n),
{
    if record is Object {
        let members = record->Object_0;
        lemma_lookup(members, field);
        let at = key_index(members, field);
        if number_at(record, field) == Some(n) {
            assert(members[at] == (field, Json::Number(n)));
        }
        if holds_number(record, field, n) {
            let i = choose|i: int|
                0 <= i < members.len() && #[trigger] members[i] == (field, Json::Number(n))
                    && forall|j: int| 0 <= j < i ==> (#[trigger] members[j]).0 != field;
            assert(members[i].0 == field);
            assert(lookup(members, field) is Some);
            if at < i {
                assert(members[at].0 == field);
            }
            assert(at == i);
            assert(lookup(members, field) == Some(members[i].1));
        }
    }
}

/// The numbers of a field are those that the records hold under it, in the order
/// of the records: appending a record appends its number, if it holds one.
pub proof fn numbers_are_those_of_the_records(records: Seq<Json>, record: Json, field: Seq<char>)
    ensures
        numbers_of(Seq::empty(), field, 0) == Seq::<Num>::empty(),
        forall|n: Num| #[trigger]
            holds_number(record, field, n) ==> numbers_of(
                records.push(record),
                field,
                records.len() + 1,
            ) == numbers_of(records, field, records.len()).push(n),
        (forall|n: Num| !#[trigger] holds_number(record, field, n)) ==> numbers_of(
            records.push(record),
            field,
            records.len() + 1,
        ) == numbers_of(records, field, records.len()),
{
    let more = records.push(record);
    lemma_numbers_prefix(more, records, field, records.len());
    assert(more[records.len() as int] == record);
    assert forall|n: Num| number_at(record, field) == Some(n) <==> #[trigger] holds_number(
        record,
        field,
        n,
    ) by {
        lemma_number_at(record, field, n);
    }
    if number_at(record, field) is Some {
        assert(holds_number(record, field, number_at(record, field)->0));
    }
}

proof fn lemma_numbers_prefix(a: Seq<Json>, b: Seq<Json>, field: Seq<char>, n: nat)
    requires
        n <= a.len(),
        n <= b.len(),
        forall|i: int| 0 <= i < n ==> #[trigger] a[i] == b[i],
    ensures
        numbers_of(a, field, n) == numbers_of(b, field, n),
    decreases n,
{
    if n > 0 {
        assert(a[n - 1] == b[n - 1]);
        lemma_numbers_prefix(a, b, field, (n - 1) as nat);
    }
}

/// Whether `members` are those of the first object among the records.
pub open spec fn are_first_members(records: Seq<Json>, members: Seq<(Seq<char>, Json)>) -> bool {
    exists|i: int|
        0 <= i < records.len() && #[trigger] records[i] == Json::Object(members) && forall|j: int|
            0 <= j < i ==> !(#[trigger] records[j] is Object)
}

proof fn lemma_first_object(records: Seq<Json>, from: int)
    requires
        0 <= from <= records.len(),
        forall|j: int| 0 <= j < from ==> !(#[trigger] records[j] is Object),
    ensures
        match first_object(records, from) {
            Some(members) => are_first_members(records, members),
            None => forall|j: int| 0 <= j < records.len() ==> !(#[trigger] records[j] is Object),
        },
    decreases records.len() - from,
{
    if from < records.len() {
        if records[from] is Object {
            let members = records[from]->Object_0;
            assert(records[from] == Json::Object(members));
            assert(first_object(records, from) == Some(members));
        } else {
            lemma_first_object(records, from + 1);
        }
    }
}

/// Whether a question asks for one member of the middle record and names the
/// record by another.
pub open spec fn is_lookup(
    q: Asked,
    records: Seq<Json>,
    key: (Seq<char>, Json),
    field: (Seq<char>, Json),
) -> bool {
    let middle = records[records.len() as int / 2];
    &&& middle is Object
    &&& middle->Object_0.contains(key)
    &&& middle->Object_0.contains(field)
    &&& key.0 != field.0
    &&& first_object(records, 0) is Some
    &&& are_first_members(records, first_object(records, 0)->0)
    &&& names(first_object(records, 0)->0).contains(key.0)
    &&& names(first_object(records, 0)->0).contains(field.0)
    &&& q.qtype == "lookup"@
    &&& q.text == "What is the value of `"@ + field.0 + "` for the record whose `"@ + key.0
        + "` is "@ + spoken(key.1) + "?"@
    &&& q.truth == spoken(field.1)
    &&& q.numeric == (field.1 is Number)
}

/// The first question is for the number of records. A second one asks for a value
/// of the middle record: its answer stands in that record under the named field,
/// the record is named by another field of its own, and both fields are fields
/// of the first object among the records.
pub proof fn questions_are_about_the_records(records: Seq<Json>)
    ensures
        ({
            let asked = settled_questions(records);
            &&& 1 <= asked.len() <= 2
            &&& asked[0].qtype == "count"@
            &&& asked[0].text == "How many records are in the dataset?"@
            &&& asked[0].truth == decimal(records.len())
            &&& asked[0].numeric
            &&& asked.len() == 2 ==> exists|key: (Seq<char>, Json), field: (Seq<char>, Json)|
                is_lookup(asked[1], records, key, field)
        }),
{
    lemma_first_object(records, 0);
    let asked = settled_questions(records);
    if asked.len() == 2 {
        let keys = names(first_object(records, 0)->0);
        lookups_use_an_identifying_field(keys);
        let k = key_field(keys)->0;
        let v = value_field(keys, k)->0;
        let middle = records[records.len() as int / 2];
        let members = middle->Object_0;
        lemma_lookup(members, keys[k]);
        lemma_lookup(members, keys[v]);
        let key = (keys[k], lookup(members, keys[k])->0);
        let field = (keys[v], lookup(members, keys[v])->0);
        assert(members[key_index(members, keys[k])] == key);
        assert(members[key_index(members, keys[v])] == field);
        assert(members.contains(key));
        assert(members.contains(field));
        assert(keys.contains(key.0));
        assert(keys.contains(field.0));
        assert(is_lookup(asked[1], records, key, field));
    }
}

/// How a value reads in a question: a text without quotes, digits for an integer,
/// a fraction as it is written, and JSON for everything else.
pub open spec fn spoken(v: Json) -> Seq<char> {
    match v {
        Json::String(s) => s,
        Json::Number(Num::PosInt(n)) => decimal(n as nat),
        Json::Number(Num::NegInt(n)) => if n < 0 {
            seq!['-'] + decimal((-n) as nat)
        } else {
            decimal(n as nat)
        },
        Json::Number(Num::Float(t)) => t,
        Json::Bool(true) => "true"@,
        Json::Bool(false) => "false"@,
        _ => json_text(v),
    }
}

/// A lookup is asked whenever it can be: the first object has two different
/// names, and the middle record holds the fields chosen from them.
pub proof fn lookups_are_asked_where_possible(records: Seq<Json>)
    requires
        settled_questions(records).len() == 1,
    ensures
        ({
            let first = first_object(records, 0);
            ||| forall|j: int| 0 <= j < records.len() ==> !(#[trigger] records[j] is Object)
            ||| forall|i: int, j: int|
                0 <= i < first->0.len() && 0 <= j < first->0.len() ==> (#[trigger] first->0[i]).0
                    == (#[trigger] first->0[j]).0
            ||| !(records[records.len() as int / 2] is Object)
            ||| {
                let keys = names(first->0);
                let k = key_field(keys)->0;
                let members = records[records.len() as int / 2]->Object_0;
                ||| forall|j: int| 0 <= j < members.len() ==> (#[trigger] members[j]).0 != keys[k]
                ||| forall|j: int|
                    0 <= j < members.len() ==> (#[trigger] members[j]).0 != keys[value_field(
                        keys,
                        k,
                    )->0]
            }
        }),
{
    lemma_first_object(records, 0);
    let first = first_object(records, 0);
    if first is Some {
        let keys = names(first->0);
        lookups_use_an_identifying_field(keys);
        assert forall|i: int| 0 <= i < keys.len() implies #[trigger] keys[i] == first->0[i].0 by {}
        if keys.len() > 0 {
            let k = key_field(keys)->0;
            if value_field(keys, k) is None {
                assert forall|i: int, j: int|
                    0 <= i < first->0.len() && 0 <= j < first->0.len() implies (
                #[trigger] first->0[i]).0 == (#[trigger] first->0[j]).0 by {
                    assert(keys[i] == keys[k]);
                    assert(keys[j] == keys[k]);
                }
            } else if records[records.len() as int / 2] is Object {
                let members = records[records.len() as int / 2]->Object_0;
                lemma_lookup(members, keys[k]);
                lemma_lookup(members, keys[value_field(keys, k)->0]);
            }
        }
    }
}

/// The maximum is asked of the first field in order that holds a number in some
/// record, over all numbers that the records hold under it; it is not asked only
/// where no field of the first object holds any.
pub proof fn maxima_are_taken_over_all_records(records: Seq<Json>)
    ensures
        match max_question_of(records) {
            Some((field, numbers)) => {
                let keys = names(first_object(records, 0)->0);
                &&& are_first_members(records, first_object(records, 0)->0)
                &&& keys.contains(field)
                &&& numbers == numbers_of(records, field, records.len())
                &&& numbers.len() > 0
                &&& forall|i: int|
                    0 <= i < keys.len() && precedes(#[trigger] keys[i], field) ==> numbers_of(
                        records,
                        keys[i],
                        records.len(),
                    ).len() == 0
            },
            None => {
                ||| forall|j: int| 0 <= j < records.len() ==> !(#[trigger] records[j] is Object)
                ||| forall|i: int|
                    0 <= i < names(first_object(records, 0)->0).len() ==> numbers_of(
                        records,
                        #[trigger] names(first_object(records, 0)->0)[i],
                        records.len(),
                    ).len() == 0
            },
        },
{
    lemma_first_object(records, 0);
    if first_object(records, 0) is Some {
        let keys = names(first_object(records, 0)->0);
        let flags = Seq::new(
            keys.len(),
            |i: int| numbers_of(records, keys[i], records.len()).len() > 0,
        );
        the_least_key_comes_first(keys, flags);
        assert(numeric_field(keys, records) == least(keys, flags));
        match least(keys, flags) {
            Some(f) => {
                assert(flags[f]);
                assert forall|i: int|
                    0 <= i < keys.len() && precedes(#[trigger] keys[i], keys[f]) implies numbers_of(
                    records,
                    keys[i],
                    records.len(),
                ).len() == 0 by {
                    if flags[i] {
                        lemma_not_before_itself(keys[f]);
                        if keys[i] != keys[f] {
                            lemma_precedes_transitive(keys[i], keys[f], keys[i]);
                            lemma_not_before_itself(keys[i]);
                        }
                    }
                }
            },
            None => {
                assert forall|i: int| 0 <= i < keys.len() implies numbers_of(
                    records,
                    #[trigger] keys[i],
                    records.len(),
                ).len() == 0 by {
                    assert(!flags[i]);
                }
            },
        }
    }
}

/// Whether `c` is a digit, a point or a minus sign.
pub open spec fn is_number_part(c: char) -> bool {
    '0' <= c <= '9' || c == '.' || c == '-'
}

/// Whether `s[from..to]` is a whole run of number characters, with none on either
/// side of it.
pub open spec fn is_run(s: Seq<char>, from: int, to: int) -> bool {
    &&& 0 <= from <= to <= s.len()
    &&& forall|i: int| from <= i < to ==> is_number_part(#[trigger] s[i])
    &&& from > 0 ==> !is_number_part(s[from - 1])
    &&& to < s.len() ==> !is_number_part(s[to])
}

/// Whether a whole run reads as a number.
pub open spec fn is_number_run(s: Seq<char>, from: int, to: int) -> bool {
    is_run(s, from, to) && float_reading(s.subrange(from, to)) is Some
}

/// The number in an answer is the first whole run of digits, points and minus
/// signs that reads as a number; an answer has none only where no run reads.
pub proof fn the_first_readable_number_is_taken(s: Seq<char>)
    ensures
        match first_number_from(s, Seq::empty()) {
            Some(t) => exists|from: int, to: int|
                t == s.subrange(from, to) && #[trigger] is_number_run(s, from, to) && forall|
                    i: int,
                    j: int,
                |
                    #[trigger] is_number_run(s, i, j) && i < j ==> from <= i,
            None => forall|i: int, j: int| !(#[trigger] is_number_run(s, i, j) && i < j),
        },
{
    assert(s.skip(0) =~= s);
    assert(s.subrange(0, 0) =~= Seq::empty());
    lemma_number_from(s, 0, 0);
    if first_number_from(s, Seq::empty()) is Some {
        let t = first_number_from(s, Seq::empty())->0;
        let (from, to) = choose|from: int, to: int|
            t == s.subrange(from, to) && #[trigger] is_number_run(s, from, to) && from >= 0
                && forall|i: int, j: int|
                #[trigger] is_number_run(s, i, j) && i < j && i >= 0 ==> from <= i;
        assert(is_number_run(s, from, to));
    }
}

proof fn lemma_number_from(s: Seq<char>, start: int, at: int)
    requires
        0 <= start <= at <= s.len(),
        forall|i: int| start <= i < at ==> is_number_part(#[trigger] s[i]),
        start > 0 ==> !is_number_part(s[start - 1]),
    ensures
        match first_number_from(s.skip(at), s.subrange(start, at)) {
            Some(t) => exists|from: int, to: int|
                t == s.subrange(from, to) && #[trigger] is_number_run(s, from, to) && from >= start
                    && forall|i: int, j: int|
                    #[trigger] is_number_run(s, i, j) && i < j && i >= start ==> from <= i,
            None => forall|i: int, j: int|
                !(#[trigger] is_number_run(s, i, j) && i < j && i >= start),
        },
    decreases s.len() - at,
{
    let rest = s.skip(at);
    let run = s.subrange(start, at);
    if at == s.len() {
        if float_reading(run) is Some {
            assert(is_number_run(s, start, at));
        } else {
            assert forall|i: int, j: int| !(#[trigger] is_number_run(s, i, j) && i < j && i
                >= start) by {
                if is_number_run(s, i, j) && i < j && i >= start {
                    if i > start {
                        assert(is_number_part(s[i - 1]));
                    }
                    if j < at {
                        assert(is_number_part(s[j]));
                    }
                    assert(i == start && j == at);
                }
            }
        }
    } else {
        assert(rest[0] == s[at]);
        assert(rest.drop_first() =~= s.skip(at + 1));
        if is_number_part(s[at]) {
            assert(run.push(s[at]) =~= s.subrange(start, at + 1));
            lemma_number_from(s, start, at + 1);
        } else if run.len() > 0 && float_reading(run) is Some {
            assert(is_number_run(s, start, at));
        } else {
            assert(s.subrange(at + 1, at + 1) =~= Seq::empty());
            lemma_number_from(s, at + 1, at + 1);
            assert forall|i: int, j: int|
                #[trigger] is_number_run(s, i, j) && i < j && i >= start implies i >= at + 1 by {
                assert(is_number_part(s[i]));
                if i <= at {
                    if i > start {
                        assert(is_number_part(s[i - 1]));
                    }
                    if j < at {
                        assert(is_number_part(s[j]));
                    }
                    if j > at {
                        assert(is_number_part(s[at]));
                    }
                }
            }
            let later = first_number_from(s.skip(at + 1), s.subrange(at + 1, at + 1));
            assert(first_number_from(rest, run) == later);
            if later is Some {
                let next = at + 1;
                let t = later->0;
                let (from, to) = choose|from: int, to: int|
                    t == s.subrange(from, to) && #[trigger] is_number_run(s, from, to) && from
                        >= next && forall|i: int, j: int|
                        #[trigger] is_number_run(s, i, j) && i < j && i >= next ==> from <= i;
                assert(is_number_run(s, from, to));
            }
        }
    }
}

/// Whether `c` is a quote, a backtick, a point, a comma or a blank.
pub open spec fn is_wrap(c: char) -> bool {
    c == '"' || c == '\'' || c == '`' || c == '.' || c == ',' || c == ' '
}

/// Normalising drops white space around an answer, then quotes, backticks,
/// points, commas and blanks around the rest, and nothing inside; what is left is
/// put in lowercase.
pub proof fn normalising_drops_wrapping_only(s: Seq<char>)
    ensures
        exists|from: int, to: int|
            0 <= from <= to <= trimmed(s).len() && normalized(s) == lowercase(
                #[trigger] trimmed(s).subrange(from, to),
            ) && (forall|i: int|
                0 <= i < from || to <= i < trimmed(s).len() ==> is_wrap(#[trigger] trimmed(s)[i]))
                && (from < to ==> !is_wrap(trimmed(s)[from]) && !is_wrap(trimmed(s)[to - 1])),
{
    let t = trimmed(s);
    let front = trim_start_by(t, wrapping());
    lemma_unwrap_start(t);
    let from = t.len() - front.len();
    lemma_unwrap_end(front);
    let core = trim_by(t, wrapping());
    let to = from + core.len();
    assert(core =~= t.subrange(from, to));
    assert forall|i: int| 0 <= i < from || to <= i < t.len() implies is_wrap(#[trigger] t[i]) by {
        if i >= to {
            assert(t[i] == front[i - from]);
        }
    }
    if from < to {
        assert(t[from] == front[0]);
        assert(t[to - 1] == front[to - 1 - from]);
    }
}

proof fn lemma_unwrap_start(s: Seq<char>)
    ensures
        ({
            let rest = trim_start_by(s, wrapping());
            let n = s.len() - rest.len();
            &&& 0 <= n <= s.len()
            &&& rest == s.skip(n)
            &&& forall|i: int| 0 <= i < n ==> is_wrap(#[trigger] s[i])
            &&& rest.len() > 0 ==> !is_wrap(rest[0])
        }),
    decreases s.len(),
{
    let rest = trim_start_by(s, wrapping());
    if s.len() > 0 && is_wrap(s[0]) {
        lemma_unwrap_start(s.drop_first());
        let n = s.len() - rest.len();
        assert(rest =~= s.skip(n));
        assert forall|i: int| 0 <= i < n implies is_wrap(#[trigger] s[i]) by {
            if i > 0 {
                assert(s[i] == s.drop_first()[i - 1]);
            }
        }
    } else {
        assert(s.skip(0) =~= s);
    }
}

proof fn lemma_unwrap_end(s: Seq<char>)
    ensures
        ({
            let rest = trim_end_by(s, wrapping());
            &&& rest.len() <= s.len()
            &&& rest == s.take(rest.len() as int)
            &&& forall|i: int| rest.len() <= i < s.len() ==> is_wrap(#[trigger] s[i])
            &&& rest.len() > 0 ==> !is_wrap(rest.last())
        }),
    decreases s.len(),
{
    let rest = trim_end_by(s, wrapping());
    if s.len() > 0 && is_wrap(s.last()) {
        lemma_unwrap_end(s.drop_last());
        assert(rest =~= s.take(rest.len() as int));
        assert forall|i: int| rest.len() <= i < s.len() implies is_wrap(#[trigger] s[i]) by {
            if i < s.len() - 1 {
                assert(s[i] == s.drop_last()[i]);
            }
        }
    } else {
        assert(s.take(s.len() as int) =~= s);
    }
}

/// A text answer is right where the normalised truth occurs in the normalised
/// answer, with any text around it; nothing is right against an empty truth.
pub proof fn answers_may_hold_more_than_the_truth(
    truth: Seq<char>,
    answer: Seq<char>,
    before: Seq<char>,
    after: Seq<char>,
)
    ensures
        normalized(truth).len() > 0 && normalized(answer) == before + normalized(truth) + after
            ==> text_matches(truth, answer),
        text_matches(truth, answer) ==> normalized(truth).len() > 0 && exists|a: Seq<char>, b: Seq<
            char,
        >| normalized(answer) == #[trigger] (a + normalized(truth) + b),
{
    let t = normalized(truth);
    let n = normalized(answer);
    if t.len() > 0 && n == before + t + after {
        assert(n.subrange(before.len() as int, (before.len() + t.len()) as int) =~= t);
        assert(occurs_at(n, t, before.len() as int));
    }
    if text_matches(truth, answer) {
        let at = choose|at: int| occurs_at(n, t, at);
        let a = n.take(at);
        let b = n.skip(at + t.len());
        assert(n =~= a + t + b);
    }
}

} // verus!
