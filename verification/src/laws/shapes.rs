//! Which shape a value has.

use vstd::prelude::*;
use crate::classifier::{
    all_primitive, array_shape, beneficial, chain_length, chain_nesting, conforms, is_chain,
    is_table, shape_name, shape_of, ClassifyConfig, ShapeClass,
};
use crate::laws::chain;
use crate::value::{has_key, Json};

verus! {

/// Whether a value holds no other values.
pub open spec fn is_scalar(v: Json) -> bool {
    v is Null || v is Bool || v is Number || v is String
}

/// Whether every item is an object of scalars with as many members as the first
/// and each of its names.
pub open spec fn is_uniform_table(items: Seq<Json>) -> bool {
    &&& items.len() > 0
    &&& forall|i: int|
        #![trigger items[i]]
        0 <= i < items.len() ==> {
            &&& items[i] is Object
            &&& items[i]->Object_0.len() == items[0]->Object_0.len()
            &&& forall|j: int|
                0 <= j < items[0]->Object_0.len() ==> has_key(
                    items[i]->Object_0,
                    (#[trigger] items[0]->Object_0[j]).0,
                )
            &&& forall|j: int|
                0 <= j < items[i]->Object_0.len() ==> is_scalar(
                    (#[trigger] items[i]->Object_0[j]).1,
                )
        }
}

/// Whether every item is a scalar.
pub open spec fn holds_scalars_only(items: Seq<Json>) -> bool {
    forall|i: int| 0 <= i < items.len() ==> is_scalar(#[trigger] items[i])
}

/// Whether a value is an object with exactly one member.
pub open spec fn has_one_key(v: Json) -> bool {
    v is Object && v->Object_0.len() == 1
}

/// Whether a chain of `length` single-key objects over `leaf` folds: at least
/// the minimum, and no more than 256 objects deep.
pub open spec fn folds(length: nat, leaf: Json, config: ClassifyConfig) -> bool {
    length >= config.fold_min_depth && if leaf is Object {
        length < 256
    } else {
        length <= 256
    }
}

/// Whether an object is a chain of single-key objects that folds.
pub open spec fn is_folding_chain(v: Json, config: ClassifyConfig) -> bool {
    v is Object && exists|keys: Seq<Seq<char>>, leaf: Json|
        v == #[trigger] chain(keys, leaf) && !has_one_key(leaf) && folds(keys.len(), leaf, config)
}

/// Whether encoding a value promises savings by itself: a long enough array of
/// any kind, a long enough array of scalars, or a folding chain.
pub open spec fn promises_savings(v: Json, config: ClassifyConfig) -> bool {
    match v {
        Json::Array(items) => items.len() >= config.tabular_min_rows || items.len()
            >= config.primitive_array_min && holds_scalars_only(items),
        Json::Object(_) => is_folding_chain(v, config),
        _ => false,
    }
}

/// The value that a path of item and member indices leads to.
pub open spec fn below(v: Json, path: Seq<int>) -> Option<Json>
    decreases path.len(),
{
    if path.len() == 0 {
        Some(v)
    } else {
        match v {
            Json::Array(items) => if 0 <= path[0] < items.len() {
                below(items[path[0]], path.drop_first())
            } else {
                None
            },
            Json::Object(members) => if 0 <= path[0] < members.len() {
                below(members[path[0]].1, path.drop_first())
            } else {
                None
            },
            _ => None,
        }
    }
}

proof fn lemma_table(items: Seq<Json>)
    ensures
        is_table(items) <==> is_uniform_table(items),
{
    if is_table(items) {
        assert forall|i: int| #![trigger items[i]] 0 <= i < items.len() implies {
            &&& items[i] is Object
            &&& items[i]->Object_0.len() == items[0]->Object_0.len()
            &&& forall|j: int|
                0 <= j < items[0]->Object_0.len() ==> has_key(
                    items[i]->Object_0,
                    (#[trigger] items[0]->Object_0[j]).0,
                )
            &&& forall|j: int|
                0 <= j < items[i]->Object_0.len() ==> is_scalar(
                    (#[trigger] items[i]->Object_0[j]).1,
                )
        } by {
            assert(conforms(items[i]->Object_0, items[0]->Object_0));
        }
    }
    if is_uniform_table(items) {
        assert(items[0] is Object);
        assert forall|i: int| 0 <= i < items.len() implies ((#[trigger] items[i]) matches Json::Object(
            members,
        ) && conforms(members, items[0]->Object_0)) by {}
    }
}

proof fn lemma_scalars(items: Seq<Json>)
    ensures
        all_primitive(items) <==> holds_scalars_only(items),
{
    if all_primitive(items) {
        assert forall|i: int| 0 <= i < items.len() implies is_scalar(#[trigger] items[i]) by {}
    }
}

/// The shape of an array: tabular where its items are uniform objects and there
/// are enough of them, otherwise a primitive array where it holds enough scalars
/// and nothing else, otherwise mixed where it has enough items, and else nothing
/// to gain.
pub proof fn array_shapes(items: Seq<Json>, config: ClassifyConfig)
    ensures
        ({
            let shape = shape_of(Json::Array(items), config);
            let rows = items.len() >= config.tabular_min_rows;
            let table = rows && is_uniform_table(items);
            let flat = items.len() >= config.primitive_array_min && holds_scalars_only(items);
            &&& shape == ShapeClass::Tabular <==> table
            &&& shape == ShapeClass::PrimitiveArray <==> flat && !table
            &&& shape == ShapeClass::Mixed <==> rows && !table && !flat
            &&& shape == ShapeClass::PassThrough <==> !rows && !flat
            &&& shape != ShapeClass::FoldChain
        }),
{
    lemma_table(items);
    lemma_scalars(items);
}

proof fn lemma_chain_measures(keys: Seq<Seq<char>>, leaf: Json)
    requires
        !has_one_key(leaf),
        chain(keys, leaf) is Object,
    ensures
        chain_length(chain(keys, leaf)) == keys.len(),
        chain_nesting(chain(keys, leaf)) == if leaf is Object {
            keys.len() as int
        } else {
            keys.len() - 1
        },
    decreases keys.len(),
{
    if keys.len() > 0 {
        let rest = keys.drop_first();
        let members = chain(keys, leaf)->Object_0;
        assert(members[0].1 == chain(rest, leaf));
        if rest.len() > 0 || leaf is Object {
            lemma_chain_measures(rest, leaf);
        } else {
            assert(chain(rest, leaf) == leaf);
        }
    }
}

/// Every value is a chain of single-key objects, of some length, over a leaf that
/// is none.
proof fn lemma_as_chain(v: Json) -> (r: (Seq<Seq<char>>, Json))
    ensures
        v == chain(r.0, r.1),
        !has_one_key(r.1),
    decreases v,
{
    if has_one_key(v) {
        let member = v->Object_0[0];
        let (keys, leaf) = lemma_as_chain(member.1);
        let all = seq![member.0] + keys;
        assert(all.drop_first() =~= keys);
        assert(v->Object_0 =~= seq![member]);
        assert(chain(all, leaf) == Json::Object(seq![(member.0, chain(keys, leaf))]));
        (all, leaf)
    } else {
        (Seq::empty(), v)
    }
}

proof fn lemma_chains(v: Json, config: ClassifyConfig)
    requires
        v is Object,
    ensures
        is_chain(v, config) <==> is_folding_chain(v, config),
{
    let (keys, leaf) = lemma_as_chain(v);
    lemma_chain_measures(keys, leaf);
    if is_chain(v, config) {
        assert(v == chain(keys, leaf) && folds(keys.len(), leaf, config));
    }
    if is_folding_chain(v, config) {
        let (k, l) = choose|k: Seq<Seq<char>>, l: Json|
            v == #[trigger] chain(k, l) && !has_one_key(l) && folds(k.len(), l, config);
        lemma_chain_measures(k, l);
    }
}

/// A chain of single-key objects is a fold chain exactly where it folds.
pub proof fn chains_fold(keys: Seq<Seq<char>>, leaf: Json, config: ClassifyConfig)
    requires
        !has_one_key(leaf),
        chain(keys, leaf) is Object,
    ensures
        shape_of(chain(keys, leaf), config) == ShapeClass::FoldChain <==> folds(
            keys.len(),
            leaf,
            config,
        ),
{
    lemma_chain_measures(keys, leaf);
}

/// What is worth encoding somewhere within eight levels.
proof fn lemma_beneficial(v: Json, config: ClassifyConfig, depth: nat)
    ensures
        beneficial(v, config, depth) <==> exists|path: Seq<int>|
            depth + path.len() < 8 && (#[trigger] below(v, path) matches Some(w)
                && promises_savings(w, config)),
    decreases v,
{
    match v {
        Json::Array(items) => {
            lemma_table(items);
            lemma_scalars(items);
            assert(promises_savings(v, config) <==> array_shape(items, config)
                != ShapeClass::PassThrough);
            assert forall|i: int| 0 <= i < items.len() implies (beneficial(
                #[trigger] items[i],
                config,
                depth + 1,
            ) <==> exists|path: Seq<int>|
                depth + 1 + path.len() < 8 && (#[trigger] below(items[i], path) matches Some(w)
                    && promises_savings(w, config))) by {
                lemma_beneficial(items[i], config, depth + 1);
            }
        },
        Json::Object(members) => {
            lemma_chains(v, config);
            assert(promises_savings(v, config) <==> is_chain(v, config));
            assert forall|i: int| 0 <= i < members.len() implies (beneficial(
                (#[trigger] members[i]).1,
                config,
                depth + 1,
            ) <==> exists|path: Seq<int>|
                depth + 1 + path.len() < 8 && (#[trigger] below(members[i].1, path) matches Some(w)
                    && promises_savings(w, config))) by {
                lemma_beneficial(members[i].1, config, depth + 1);
            }
        },
        _ => {},
    }
    if beneficial(v, config, depth) {
        if promises_savings(v, config) {
            assert(below(v, Seq::empty()) == Some(v));
        } else {
            let i = lemma_child(v, config, depth);
            let child = match v {
                Json::Array(items) => items[i],
                Json::Object(members) => members[i].1,
                _ => v,
            };
            let p = choose|path: Seq<int>|
                depth + 1 + path.len() < 8 && (#[trigger] below(child, path) matches Some(w)
                    && promises_savings(w, config));
            let path = seq![i] + p;
            assert(path.drop_first() =~= p);
            assert(below(v, path) == below(child, p));
        }
    }
    if exists|path: Seq<int>|
        depth + path.len() < 8 && (#[trigger] below(v, path) matches Some(w) && promises_savings(
            w,
            config,
        )) {
        let path = choose|path: Seq<int>|
            depth + path.len() < 8 && (#[trigger] below(v, path) matches Some(w)
                && promises_savings(w, config));
        if path.len() > 0 {
            let rest = path.drop_first();
            let i = path[0];
            match v {
                Json::Array(items) => {
                    assert(below(items[i], rest) == below(v, path));
                    assert(beneficial(items[i], config, depth + 1));
                },
                Json::Object(members) => {
                    assert(below(members[i].1, rest) == below(v, path));
                    assert(beneficial(members[i].1, config, depth + 1));
                },
                _ => {},
            }
        }
    }
}

proof fn lemma_child(v: Json, config: ClassifyConfig, depth: nat) -> (i: int)
    requires
        beneficial(v, config, depth),
        match v {
            Json::Array(items) => array_shape(items, config) == ShapeClass::PassThrough,
            _ => !is_chain(v, config),
        },
    ensures
        match v {
            Json::Array(items) => 0 <= i < items.len() && beneficial(items[i], config, depth + 1),
            Json::Object(members) => 0 <= i < members.len() && beneficial(
                members[i].1,
                config,
                depth + 1,
            ),
            _ => false,
        },
{
    match v {
        Json::Array(items) => choose|i: int|
            0 <= i < items.len() && beneficial(#[trigger] items[i], config, depth + 1),
        Json::Object(members) => choose|i: int|
            0 <= i < members.len() && beneficial((#[trigger] members[i]).1, config, depth + 1),
        _ => 0,
    }
}

/// An object is a fold chain where it folds; otherwise it is mixed where it holds,
/// less than eight levels down, anything that promises savings by itself, and
/// there is nothing to gain where it does not.
pub proof fn object_shapes(v: Json, config: ClassifyConfig)
    requires
        v is Object,
    ensures
        ({
            let shape = shape_of(v, config);
            let gain = exists|path: Seq<int>|
                path.len() < 8 && (#[trigger] below(v, path) matches Some(w) && promises_savings(
                    w,
                    config,
                ));
            &&& shape == ShapeClass::FoldChain <==> is_folding_chain(v, config)
            &&& shape == ShapeClass::Mixed <==> !is_folding_chain(v, config) && gain
            &&& shape == ShapeClass::PassThrough <==> !is_folding_chain(v, config) && !gain
        }),
{
    lemma_chains(v, config);
    lemma_beneficial(v, config, 0);
}

/// An object that is no fold chain and holds an array of enough items, whatever
/// they are, is mixed; so is one that holds such an array at the end of a path of
/// fewer than eight steps.
pub proof fn objects_with_long_arrays_are_mixed(
    v: Json,
    path: Seq<int>,
    items: Seq<Json>,
    config: ClassifyConfig,
)
    requires
        v is Object,
        shape_of(v, config) != ShapeClass::FoldChain,
        path.len() < 8,
        below(v, path) == Some(Json::Array(items)),
        items.len() >= config.tabular_min_rows,
    ensures
        shape_of(v, config) == ShapeClass::Mixed,
{
    object_shapes(v, config);
    assert(below(v, path) matches Some(w) && promises_savings(w, config));
}

/// An object of scalars only has nothing to gain, unless it folds.
pub proof fn flat_objects_pass_through(members: Seq<(Seq<char>, Json)>, config: ClassifyConfig)
    requires
        members.len() != 1,
        config.fold_min_depth > 0,
        forall|i: int| 0 <= i < members.len() ==> is_scalar((#[trigger] members[i]).1),
    ensures
        shape_of(Json::Object(members), config) == ShapeClass::PassThrough,
{
    let v = Json::Object(members);
    assert(chain_length(v) == 0);
    assert forall|i: int| 0 <= i < members.len() implies !beneficial(
        (#[trigger] members[i]).1,
        config,
        1,
    ) by {}
}

/// Scalars have nothing to gain.
pub proof fn scalar_shapes(v: Json, config: ClassifyConfig)
    requires
        is_scalar(v),
    ensures
        shape_of(v, config) == ShapeClass::PassThrough,
{
}

/// The shapes have distinct names.
pub proof fn shapes_have_distinct_names(a: ShapeClass, b: ShapeClass)
    requires
        shape_name(a) == shape_name(b),
    ensures
        a == b,
{
    reveal_strlit("tabular");
    reveal_strlit("fold_chain");
    reveal_strlit("primitive_array");
    reveal_strlit("mixed");
    reveal_strlit("pass_through");
    let (x, y) = (shape_name(a), shape_name(b));
    assert(x.len() == y.len());
}

} // verus!
