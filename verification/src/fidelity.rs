//! Structural equivalence of value trees, for checks that decoding gives back
//! what was encoded.

use vstd::prelude::*;
use crate::text::same_text;
use crate::value::{
    find_key, has_key, key_index, lemma_container_model, lemma_key_index, lemma_key_index_at,
    member_models, models, Json, JsonValue, Num, Number,
};

verus! {

/// Structural equality up to a relation on numbers. Arrays agree item by item
/// and in order; objects agree member by member, by name.
pub open spec fn equivalent(a: Json, b: Json, close: spec_fn(Num, Num) -> bool) -> bool
    decreases a,
{
    match (a, b) {
        (Json::Number(x), Json::Number(y)) => close(x, y),
        (Json::Array(xs), Json::Array(ys)) => {
            &&& xs.len() == ys.len()
            &&& forall|i: int|
                #![trigger xs[i]]
                0 <= i < xs.len() ==> equivalent(xs[i], ys[i], close)
        },
        (Json::Object(xs), Json::Object(ys)) => {
            &&& xs.len() == ys.len()
            &&& forall|i: int|
                #![trigger xs[i]]
                0 <= i < xs.len() ==> has_key(ys, xs[i].0) && equivalent(
                    xs[i].1,
                    ys[key_index(ys, xs[i].0)].1,
                    close,
                )
        },
        (Json::Null, Json::Null) => true,
        (Json::Bool(x), Json::Bool(y)) => x == y,
        (Json::String(x), Json::String(y)) => x == y,
        _ => false,
    }
}

/// Whether the function `f` decides the relation `close`.
pub open spec fn decides<F: Fn(&Number, &Number) -> bool>(
    f: F,
    close: spec_fn(Num, Num) -> bool,
) -> bool {
    forall|x: &Number, y: &Number, r: bool|
        #[trigger] call_ensures(f, (x, y), r) ==> r == close(x@, y@)
}

/// Whether two trees are equal up to the closeness of numbers that `close`
/// decides, such as a tolerance for integers that come back as floats.
pub fn values_equiv<F: Fn(&Number, &Number) -> bool>(
    a: &JsonValue,
    b: &JsonValue,
    close: &F,
) -> (r: bool)
    requires
        forall|x: &Number, y: &Number| #[trigger] call_requires(*close, (x, y)),
    ensures
        forall|relation: spec_fn(Num, Num) -> bool| #[trigger]
            decides(*close, relation) ==> r == equivalent(a@, b@, relation),
    decreases *a,
{
    proof {
        lemma_container_model(*a);
        lemma_container_model(*b);
    }
    match (a, b) {
        (JsonValue::Number(x), JsonValue::Number(y)) => close(x, y),
        (JsonValue::Array(xs), JsonValue::Array(ys)) => {
            if xs.len() != ys.len() {
                return false;
            }
            let ghost left = models(xs@);
            let ghost right = models(ys@);
            let mut i: usize = 0;
            while i < xs.len()
                invariant
                    0 <= i <= xs@.len(),
                    xs@.len() == ys@.len(),
                    *a == JsonValue::Array(*xs),
                    left == models(xs@),
                    right == models(ys@),
                    a@ == Json::Array(left),
                    b@ == Json::Array(right),
                    forall|x: &Number, y: &Number| #[trigger] call_requires(*close, (x, y)),
                    forall|relation: spec_fn(Num, Num) -> bool, j: int|
                        #![trigger left[j], decides(*close, relation)]
                        0 <= j < i && decides(*close, relation) ==> equivalent(
                            left[j],
                            right[j],
                            relation,
                        ),
                decreases xs@.len() - i,
            {
                assert(decreases_to!(*a => a->Array_0));
                assert(decreases_to!(*xs => xs@[i as int]));
                assert(left[i as int] == xs@[i as int]@);
                assert(right[i as int] == ys@[i as int]@);
                let x: &JsonValue = &xs[i];
                let y: &JsonValue = &ys[i];
                if !values_equiv(x, y, close) {
                    assert forall|relation: spec_fn(Num, Num) -> bool| #[trigger]
                        decides(*close, relation) implies !equivalent(a@, b@, relation) by {
                        assert(!equivalent(left[i as int], right[i as int], relation));
                    }
                    return false;
                }
                i = i + 1;
            }
            true
        },
        (JsonValue::Object(xs), JsonValue::Object(ys)) => {
            if xs.len() != ys.len() {
                return false;
            }
            let ghost left = member_models(xs@);
            let ghost right = member_models(ys@);
            let mut i: usize = 0;
            while i < xs.len()
                invariant
                    0 <= i <= xs@.len(),
                    xs@.len() == ys@.len(),
                    *a == JsonValue::Object(*xs),
                    left == member_models(xs@),
                    right == member_models(ys@),
                    a@ == Json::Object(left),
                    b@ == Json::Object(right),
                    forall|x: &Number, y: &Number| #[trigger] call_requires(*close, (x, y)),
                    forall|j: int| 0 <= j < i ==> has_key(right, (#[trigger] left[j]).0),
                    forall|relation: spec_fn(Num, Num) -> bool, j: int|
                        #![trigger left[j], decides(*close, relation)]
                        0 <= j < i && decides(*close, relation) ==> equivalent(
                            left[j].1,
                            right[key_index(right, left[j].0)].1,
                            relation,
                        ),
                decreases xs@.len() - i,
            {
                assert(decreases_to!(*a => a->Object_0));
                assert(decreases_to!(*xs => xs@[i as int]));
                assert(decreases_to!(xs@[i as int] => xs@[i as int].1));
                assert(left[i as int] == (xs@[i as int].0@, xs@[i as int].1@));
                match find_key(ys, xs[i].0.as_str()) {
                    None => {
                        return false;
                    },
                    Some(k) => {
                        assert(right[k as int].1 == ys@[k as int].1@);
                        let x: &JsonValue = &xs[i].1;
                        let y: &JsonValue = &ys[k].1;
                        if !values_equiv(x, y, close) {
                            return false;
                        }
                    },
                }
                i = i + 1;
            }
            true
        },
        (JsonValue::Null, JsonValue::Null) => true,
        (JsonValue::Bool(x), JsonValue::Bool(y)) => *x == *y,
        (JsonValue::String(x), JsonValue::String(y)) => same_text(x.as_str(), y.as_str()),
        _ => false,
    }
}

/// Whether no object of the tree names a member twice.
pub open spec fn well_keyed(v: Json) -> bool
    decreases v,
{
    match v {
        Json::Array(items) => forall|i: int|
            0 <= i < items.len() ==> well_keyed(#[trigger] items[i]),
        Json::Object(members) => {
            &&& forall|i: int, j: int|
                0 <= i < j < members.len() ==> (#[trigger] members[i]).0 != (
                #[trigger] members[j]).0
            &&& forall|i: int| 0 <= i < members.len() ==> well_keyed((#[trigger] members[i]).1)
        },
        _ => true,
    }
}

/// A tree without repeated names is equivalent to itself, under every relation
/// that holds of equal numbers.
pub proof fn equivalence_is_reflexive(v: Json, close: spec_fn(Num, Num) -> bool)
    requires
        well_keyed(v),
        forall|n: Num| #[trigger] close(n, n),
    ensures
        equivalent(v, v, close),
    decreases v,
{
    match v {
        Json::Array(items) => {
            assert forall|i: int| #![trigger items[i]] 0 <= i < items.len() implies equivalent(
                items[i],
                items[i],
                close,
            ) by {
                equivalence_is_reflexive(items[i], close);
            }
        },
        Json::Object(members) => {
            assert forall|i: int|
                #![trigger members[i]]
                0 <= i < members.len() implies has_key(members, members[i].0) && equivalent(
                members[i].1,
                members[key_index(members, members[i].0)].1,
                close,
            ) by {
                lemma_key_index_at(members, members[i].0, i);
                equivalence_is_reflexive(members[i].1, close);
            }
        },
        _ => {},
    }
}

/// The names of the members of an object.
spec fn names(members: Seq<(Seq<char>, Json)>) -> Seq<Seq<char>> {
    members.map_values(|m: (Seq<char>, Json)| m.0)
}

proof fn lemma_names_distinct(members: Seq<(Seq<char>, Json)>)
    requires
        well_keyed(Json::Object(members)),
    ensures
        names(members).no_duplicates(),
{
    let all = names(members);
    assert(Json::Object(members)->Object_0 == members);
    assert forall|i: int, j: int| 0 <= i < all.len() && 0 <= j < all.len() && i != j implies all[i]
        != all[j] by {
        assert(all[i] == members[i].0 && all[j] == members[j].0);
    }
}

/// Of two objects with distinct names and as many members, each has the other's
/// names once one of them has.
proof fn lemma_same_names(xs: Seq<(Seq<char>, Json)>, ys: Seq<(Seq<char>, Json)>, j: int)
    requires
        xs.len() == ys.len(),
        well_keyed(Json::Object(xs)),
        well_keyed(Json::Object(ys)),
        forall|i: int| #![trigger xs[i]] 0 <= i < xs.len() ==> has_key(ys, xs[i].0),
        0 <= j < ys.len(),
    ensures
        has_key(xs, ys[j].0),
{
    let (left, right) = (names(xs), names(ys));
    lemma_names_distinct(xs);
    lemma_names_distinct(ys);
    left.unique_seq_to_set();
    right.unique_seq_to_set();
    assert(left.to_set().subset_of(right.to_set())) by {
        assert forall|name: Seq<char>| left.to_set().contains(name) implies right.to_set().contains(
            name,
        ) by {
            let i = choose|i: int| 0 <= i < left.len() && left[i] == name;
            assert(has_key(ys, xs[i].0));
            let k = choose|k: int| 0 <= k < ys.len() && (#[trigger] ys[k]).0 == xs[i].0;
            assert(right[k] == name);
        }
    }
    vstd::set_lib::lemma_subset_equality(left.to_set(), right.to_set());
    assert(right[j] == ys[j].0);
    assert(right.to_set().contains(ys[j].0));
    let i = choose|i: int| 0 <= i < left.len() && left[i] == ys[j].0;
    assert(xs[i].0 == ys[j].0);
}

proof fn lemma_equivalent_back(a: Json, b: Json, close: spec_fn(Num, Num) -> bool)
    requires
        well_keyed(a),
        well_keyed(b),
        forall|x: Num, y: Num| #[trigger] close(x, y) ==> close(y, x),
        equivalent(a, b, close),
    ensures
        equivalent(b, a, close),
    decreases a,
{
    match (a, b) {
        (Json::Array(xs), Json::Array(ys)) => {
            assert forall|i: int| #![trigger ys[i]] 0 <= i < ys.len() implies equivalent(
                ys[i],
                xs[i],
                close,
            ) by {
                lemma_equivalent_back(xs[i], ys[i], close);
            }
        },
        (Json::Object(xs), Json::Object(ys)) => {
            assert forall|j: int| #![trigger ys[j]] 0 <= j < ys.len() implies has_key(xs, ys[j].0)
                && equivalent(ys[j].1, xs[key_index(xs, ys[j].0)].1, close) by {
                lemma_same_names(xs, ys, j);
                let i = choose|i: int| 0 <= i < xs.len() && (#[trigger] xs[i]).0 == ys[j].0;
                lemma_key_index_at(xs, ys[j].0, i);
                lemma_key_index_at(ys, xs[i].0, j);
                lemma_equivalent_back(xs[i].1, ys[j].1, close);
            }
        },
        _ => {},
    }
}

/// Equivalence of trees without repeated names is symmetric, under every
/// symmetric relation on numbers: an object that lacks a member is equivalent
/// to none that has it, whichever of the two is asked.
pub proof fn equivalence_is_symmetric(a: Json, b: Json, close: spec_fn(Num, Num) -> bool)
    requires
        well_keyed(a),
        well_keyed(b),
        forall|x: Num, y: Num| #[trigger] close(x, y) ==> close(y, x),
    ensures
        equivalent(a, b, close) <==> equivalent(b, a, close),
{
    if equivalent(a, b, close) {
        lemma_equivalent_back(a, b, close);
    }
    if equivalent(b, a, close) {
        lemma_equivalent_back(b, a, close);
    }
}

/// Whether `order` lists each index below `n` once.
pub open spec fn is_order(order: Seq<int>, n: nat) -> bool {
    &&& order.len() == n
    &&& forall|i: int| 0 <= i < n ==> 0 <= #[trigger] order[i] < n
    &&& forall|i: int, j: int| 0 <= i < j < n ==> #[trigger] order[i] != #[trigger] order[j]
}

/// Whether `b` is `a` with the members of its objects in another order and its
/// numbers replaced by close ones.
pub open spec fn respelled(a: Json, b: Json, close: spec_fn(Num, Num) -> bool) -> bool
    decreases a,
{
    match (a, b) {
        (Json::Number(x), Json::Number(y)) => close(x, y),
        (Json::Array(xs), Json::Array(ys)) => {
            &&& xs.len() == ys.len()
            &&& forall|i: int|
                #![trigger xs[i]]
                0 <= i < xs.len() ==> respelled(xs[i], ys[i], close)
        },
        (Json::Object(xs), Json::Object(ys)) => {
            &&& xs.len() == ys.len()
            &&& exists|order: Seq<int>| #[trigger]
                is_order(order, xs.len()) && forall|i: int|
                    #![trigger xs[i]]
                    0 <= i < xs.len() ==> xs[i].0 == ys[order[i]].0 && respelled(
                        xs[i].1,
                        ys[order[i]].1,
                        close,
                    )
        },
        _ => a == b,
    }
}

/// The relation that holds of equal numbers only.
pub open spec fn same_number() -> spec_fn(Num, Num) -> bool {
    |x: Num, y: Num| x == y
}

/// A tree is equivalent to itself with the members of its objects in another
/// order and its numbers replaced by close ones.
pub proof fn respelling_is_equivalent(a: Json, b: Json, close: spec_fn(Num, Num) -> bool)
    requires
        well_keyed(b),
        respelled(a, b, close),
    ensures
        equivalent(a, b, close),
    decreases a,
{
    match (a, b) {
        (Json::Array(xs), Json::Array(ys)) => {
            assert forall|i: int| #![trigger xs[i]] 0 <= i < xs.len() implies equivalent(
                xs[i],
                ys[i],
                close,
            ) by {
                respelling_is_equivalent(xs[i], ys[i], close);
            }
        },
        (Json::Object(xs), Json::Object(ys)) => {
            let order = choose|order: Seq<int>| #[trigger]
                is_order(order, xs.len()) && forall|i: int|
                    #![trigger xs[i]]
                    0 <= i < xs.len() ==> xs[i].0 == ys[order[i]].0 && respelled(
                        xs[i].1,
                        ys[order[i]].1,
                        close,
                    );
            assert forall|i: int| #![trigger xs[i]] 0 <= i < xs.len() implies has_key(ys, xs[i].0)
                && equivalent(xs[i].1, ys[key_index(ys, xs[i].0)].1, close) by {
                let k = order[i];
                lemma_key_index_at(ys, xs[i].0, k);
                assert(ys[k].0 == xs[i].0);
                respelling_is_equivalent(xs[i].1, ys[k].1, close);
            }
        },
        _ => {},
    }
}

/// What is equivalent to one tree is equivalent to every tree with the same
/// numbers that this one is equivalent to.
proof fn lemma_equivalent_through(a: Json, b: Json, c: Json, close: spec_fn(Num, Num) -> bool)
    requires
        equivalent(a, b, close),
        equivalent(b, c, same_number()),
    ensures
        equivalent(a, c, close),
    decreases a,
{
    match (a, b, c) {
        (Json::Array(xs), Json::Array(ys), Json::Array(zs)) => {
            assert forall|i: int| #![trigger xs[i]] 0 <= i < xs.len() implies equivalent(
                xs[i],
                zs[i],
                close,
            ) by {
                assert(equivalent(ys[i], zs[i], same_number()));
                lemma_equivalent_through(xs[i], ys[i], zs[i], close);
            }
        },
        (Json::Object(xs), Json::Object(ys), Json::Object(zs)) => {
            assert forall|i: int| #![trigger xs[i]] 0 <= i < xs.len() implies has_key(zs, xs[i].0)
                && equivalent(xs[i].1, zs[key_index(zs, xs[i].0)].1, close) by {
                let k = key_index(ys, xs[i].0);
                lemma_key_index(ys, xs[i].0);
                assert(ys[k].0 == xs[i].0);
                lemma_equivalent_through(xs[i].1, ys[k].1, zs[key_index(zs, ys[k].0)].1, close);
            }
        },
        _ => {},
    }
}

/// Reordering the members of objects does not matter: a tree is equivalent to
/// another exactly where it is equivalent to the other reordered.
pub proof fn reordering_keeps_equivalence(
    a: Json,
    b: Json,
    c: Json,
    close: spec_fn(Num, Num) -> bool,
)
    requires
        well_keyed(b),
        well_keyed(c),
        respelled(b, c, same_number()),
    ensures
        equivalent(a, b, close) <==> equivalent(a, c, close),
{
    respelling_is_equivalent(b, c, same_number());
    equivalence_is_symmetric(b, c, same_number());
    if equivalent(a, b, close) {
        lemma_equivalent_through(a, b, c, close);
    }
    if equivalent(a, c, close) {
        lemma_equivalent_through(a, c, b, close);
    }
}

/// Equivalence keeps the structure: equivalent trees are of one kind, arrays of
/// one length, and objects with the same names.
pub proof fn equivalence_keeps_structure(a: Json, b: Json, close: spec_fn(Num, Num) -> bool)
    requires
        well_keyed(a),
        well_keyed(b),
        equivalent(a, b, close),
    ensures
        a is Null <==> b is Null,
        a is Bool <==> b is Bool,
        a is Number <==> b is Number,
        a is String <==> b is String,
        a is Array <==> b is Array,
        a is Object <==> b is Object,
        a is Array ==> a->Array_0.len() == b->Array_0.len(),
        a is Object ==> forall|name: Seq<char>|
            #![trigger has_key(a->Object_0, name)]
            #![trigger has_key(b->Object_0, name)]
            has_key(a->Object_0, name) <==> has_key(b->Object_0, name),
{
    if a is Object {
        let (xs, ys) = (a->Object_0, b->Object_0);
        assert(a == Json::Object(xs) && b == Json::Object(ys));
        assert forall|name: Seq<char>| has_key(xs, name) <==> has_key(ys, name) by {
            if has_key(xs, name) {
                let i = choose|i: int| 0 <= i < xs.len() && (#[trigger] xs[i]).0 == name;
                assert(has_key(ys, xs[i].0));
            }
            if has_key(ys, name) {
                let j = choose|j: int| 0 <= j < ys.len() && (#[trigger] ys[j]).0 == name;
                lemma_same_names(xs, ys, j);
            }
        }
    }
}

/// Equivalent trees differ in spelling only: the one is the other with the
/// members of its objects in another order and its numbers replaced by close
/// ones. Texts, truth values and nulls are the same, nothing is missing and
/// nothing is added.
pub proof fn equivalent_trees_differ_in_spelling_only(
    a: Json,
    b: Json,
    close: spec_fn(Num, Num) -> bool,
)
    requires
        well_keyed(a),
        well_keyed(b),
        equivalent(a, b, close),
    ensures
        respelled(a, b, close),
    decreases a,
{
    match (a, b) {
        (Json::Array(xs), Json::Array(ys)) => {
            assert forall|i: int| #![trigger xs[i]] 0 <= i < xs.len() implies respelled(
                xs[i],
                ys[i],
                close,
            ) by {
                equivalent_trees_differ_in_spelling_only(xs[i], ys[i], close);
            }
        },
        (Json::Object(xs), Json::Object(ys)) => {
            let order = Seq::new(xs.len(), |i: int| key_index(ys, xs[i].0));
            assert forall|i: int| 0 <= i < xs.len() implies 0 <= #[trigger] order[i] < ys.len()
                && ys[order[i]].0 == xs[i].0 by {
                lemma_key_index(ys, xs[i].0);
                assert(has_key(ys, xs[i].0));
            }
            assert forall|i: int, j: int| 0 <= i < j < xs.len() implies #[trigger] order[i]
                != #[trigger] order[j] by {
                assert(xs[i].0 != xs[j].0);
                assert(ys[order[i]].0 == xs[i].0 && ys[order[j]].0 == xs[j].0);
            }
            assert(is_order(order, xs.len()));
            assert forall|i: int| #![trigger xs[i]] 0 <= i < xs.len() implies xs[i].0
                == ys[order[i]].0 && respelled(xs[i].1, ys[order[i]].1, close) by {
                assert(order[i] == key_index(ys, xs[i].0));
                equivalent_trees_differ_in_spelling_only(xs[i].1, ys[order[i]].1, close);
            }
        },
        _ => {},
    }
}

/// Scalars other than numbers are equivalent only where they are equal, and
/// numbers exactly where they are close.
pub proof fn equivalent_scalars_are_equal(a: Json, b: Json, close: spec_fn(Num, Num) -> bool)
    ensures
        a is String || a is Bool || a is Null ==> (equivalent(a, b, close) <==> a == b),
        b is String || b is Bool || b is Null ==> (equivalent(a, b, close) <==> a == b),
        a is Number && b is Number ==> (equivalent(a, b, close) <==> close(
            a->Number_0,
            b->Number_0,
        )),
{
}

} // verus!
