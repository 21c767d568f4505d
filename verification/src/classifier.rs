//! Classification of value trees by structural shape.

use vstd::prelude::*;
use crate::value::{
    find_key, has_key, lemma_container_model, member_models, models, Json, JsonValue,
};

verus! {

/// Default minimum array length for the tabular shape.
pub const TABULAR_MIN_ROWS: usize = 3;

/// Default minimum chain length for the fold-chain shape.
pub const FOLD_MIN_DEPTH: usize = 3;

/// Default minimum array length for the primitive-array shape.
pub const PRIMITIVE_ARRAY_MIN: usize = 5;

/// Bound on the nesting of a fold chain. Reaching it means "no fold chain".
pub const FOLD_CHAIN_MAX_DEPTH: usize = 256;

/// Bound on the descent in search of a beneficial subtree.
pub const BENEFICIAL_SCAN_MAX_DEPTH: usize = 8;

/// The structural shapes. The shape tells whether TOON encoding is likely to
/// pay off.
#[derive(Debug, Clone, Copy, PartialEq, Eq, Structural)]
pub enum ShapeClass {
    /// Array of uniform objects whose values are all primitives.
    Tabular,
    /// Chain of single-key objects.
    FoldChain,
    /// Flat array of scalars.
    PrimitiveArray,
    /// Non-uniform array, or an object with a beneficial subtree.
    Mixed,
    /// Nothing that encoding would shorten.
    PassThrough,
}

/// The stable lowercase name of a shape.
pub open spec fn shape_name(s: ShapeClass) -> Seq<char> {
    match s {
        ShapeClass::Tabular => "tabular"@,
        ShapeClass::FoldChain => "fold_chain"@,
        ShapeClass::PrimitiveArray => "primitive_array"@,
        ShapeClass::Mixed => "mixed"@,
        ShapeClass::PassThrough => "pass_through"@,
    }
}

impl ShapeClass {
    /// A stable lowercase identifier for logging and display.
    pub fn as_str(self) -> (r: &'static str)
        ensures
            r@ == shape_name(self),
    {
        match self {
            ShapeClass::Tabular => "tabular",
            ShapeClass::FoldChain => "fold_chain",
            ShapeClass::PrimitiveArray => "primitive_array",
            ShapeClass::Mixed => "mixed",
            ShapeClass::PassThrough => "pass_through",
        }
    }
}

/// Thresholds of shape classification.
#[derive(Debug, Clone, Copy)]
pub struct ClassifyConfig {
    /// Minimum array length for [`ShapeClass::Tabular`].
    pub tabular_min_rows: usize,
    /// Minimum chain length for [`ShapeClass::FoldChain`].
    pub fold_min_depth: usize,
    /// Minimum array length for [`ShapeClass::PrimitiveArray`].
    pub primitive_array_min: usize,
}

/// The default thresholds.
pub open spec fn default_thresholds() -> ClassifyConfig {
    ClassifyConfig {
        tabular_min_rows: TABULAR_MIN_ROWS,
        fold_min_depth: FOLD_MIN_DEPTH,
        primitive_array_min: PRIMITIVE_ARRAY_MIN,
    }
}

impl Default for ClassifyConfig {
    fn default() -> (r: Self)
        ensures
            r == default_thresholds(),
    {
        Self {
            tabular_min_rows: TABULAR_MIN_ROWS,
            fold_min_depth: FOLD_MIN_DEPTH,
            primitive_array_min: PRIMITIVE_ARRAY_MIN,
        }
    }
}

/// Whether a value is a scalar.
pub open spec fn is_primitive(v: Json) -> bool {
    !(v is Array) && !(v is Object)
}

/// Whether every value is a scalar.
pub open spec fn all_primitive(items: Seq<Json>) -> bool {
    forall|i: int| 0 <= i < items.len() ==> is_primitive(#[trigger] items[i])
}

/// Whether `members` has the keys of `first`, as many members, and scalars only.
pub open spec fn conforms(
    members: Seq<(Seq<char>, Json)>,
    first: Seq<(Seq<char>, Json)>,
) -> bool {
    &&& members.len() == first.len()
    &&& forall|i: int| 0 <= i < first.len() ==> has_key(members, (#[trigger] first[i]).0)
    &&& forall|i: int| 0 <= i < members.len() ==> is_primitive((#[trigger] members[i]).1)
}

/// Whether an array is a table: at least one item, all of them objects of
/// scalars with the keys of the first.
pub open spec fn is_table(items: Seq<Json>) -> bool {
    &&& items.len() > 0
    &&& items[0] is Object
    &&& forall|i: int|
        0 <= i < items.len() ==> ((#[trigger] items[i]) matches Json::Object(members) && conforms(
            members,
            items[0]->Object_0,
        ))
}

/// The shape of an array.
pub open spec fn array_shape(items: Seq<Json>, config: ClassifyConfig) -> ShapeClass {
    if items.len() >= config.tabular_min_rows && is_table(items) {
        ShapeClass::Tabular
    } else if items.len() >= config.primitive_array_min && all_primitive(items) {
        ShapeClass::PrimitiveArray
    } else if items.len() >= config.tabular_min_rows {
        ShapeClass::Mixed
    } else {
        ShapeClass::PassThrough
    }
}


/// How many objects a chain of single-key objects leads down through.
pub open spec fn chain_nesting(v: Json) -> nat
    decreases v,
{
    match v {
        Json::Object(members) if members.len() == 1 && members[0].1 is Object => 1 + chain_nesting(
            members[0].1,
        ),
        _ => 0,
    }
}

/// How many keys a chain of single-key objects folds.
pub open spec fn chain_length(v: Json) -> nat
    decreases v,
{
    match v {
        Json::Object(members) if members.len() == 1 => if members[0].1 is Object {
            1 + chain_length(members[0].1)
        } else {
            1
        },
        _ => 0,
    }
}

/// Whether an object is a fold chain: long enough, and nested within the bound.
pub open spec fn is_chain(v: Json, config: ClassifyConfig) -> bool {
    chain_nesting(v) < FOLD_CHAIN_MAX_DEPTH && chain_length(v) >= config.fold_min_depth
}

/// Whether the tree holds, within the depth bound, an array that classifies or a
/// fold chain.
pub open spec fn beneficial(v: Json, config: ClassifyConfig, depth: nat) -> bool
    decreases v,
{
    depth < BENEFICIAL_SCAN_MAX_DEPTH && match v {
        Json::Array(items) => {
            ||| array_shape(items, config) != ShapeClass::PassThrough
            ||| exists|i: int|
                0 <= i < items.len() && beneficial(#[trigger] items[i], config, depth + 1)
        },
        Json::Object(members) => {
            ||| is_chain(v, config)
            ||| exists|i: int|
                0 <= i < members.len() && beneficial((#[trigger] members[i]).1, config, depth + 1)
        },
        _ => false,
    }
}

/// The shape of a value tree.
pub open spec fn shape_of(v: Json, config: ClassifyConfig) -> ShapeClass {
    match v {
        Json::Array(items) => array_shape(items, config),
        Json::Object(_) => if is_chain(v, config) {
            ShapeClass::FoldChain
        } else if beneficial(v, config, 0) {
            ShapeClass::Mixed
        } else {
            ShapeClass::PassThrough
        },
        _ => ShapeClass::PassThrough,
    }
}

/// Decides [`is_primitive`].
fn primitive(value: &JsonValue) -> (r: bool)
    ensures
        r == is_primitive(value@),
{
    match value {
        JsonValue::Array(_) => false,
        JsonValue::Object(_) => false,
        _ => true,
    }
}

/// Decides [`conforms`].
fn row_conforms(members: &Vec<(String, JsonValue)>, first: &Vec<(String, JsonValue)>) -> (r: bool)
    ensures
        r == conforms(member_models(members@), member_models(first@)),
{
    let ghost mine = member_models(members@);
    let ghost theirs = member_models(first@);
    if members.len() != first.len() {
        return false;
    }
    let mut i: usize = 0;
    while i < first.len()
        invariant
            0 <= i <= first@.len(),
            mine == member_models(members@),
            theirs == member_models(first@),
            forall|j: int| 0 <= j < i ==> has_key(mine, (#[trigger] theirs[j]).0),
        decreases first@.len() - i,
    {
        assert(theirs[i as int].0 == first@[i as int].0@);
        if find_key(members, first[i].0.as_str()).is_none() {
            return false;
        }
        i = i + 1;
    }
    let mut k: usize = 0;
    while k < members.len()
        invariant
            0 <= k <= members@.len(),
            mine == member_models(members@),
            forall|j: int| 0 <= j < k ==> is_primitive((#[trigger] mine[j]).1),
        decreases members@.len() - k,
    {
        assert(mine[k as int].1 == members@[k as int].1@);
        if !primitive(&members[k].1) {
            return false;
        }
        k = k + 1;
    }
    true
}

/// Stateless shape classifier. Rules apply in this order: tabular, fold chain,
/// primitive array, mixed, pass-through.
pub struct Classifier;

impl Classifier {
    /// Classify `value` with the default thresholds.
    pub fn classify(value: &JsonValue) -> (r: ShapeClass)
        ensures
            r == shape_of(value@, default_thresholds()),
    {
        Self::classify_with(value, &ClassifyConfig::default())
    }

    /// Classify `value` with the given thresholds.
    pub fn classify_with(value: &JsonValue, config: &ClassifyConfig) -> (r: ShapeClass)
        ensures
            r == shape_of(value@, *config),
    {
        proof {
            lemma_container_model(*value);
        }
        match value {
            JsonValue::Array(items) => Self::classify_array(items, config),
            JsonValue::Object(_) => {
                if Self::is_fold_chain(value, 0, config.fold_min_depth) {
                    ShapeClass::FoldChain
                } else if Self::has_beneficial_descendant(value, config, 0) {
                    ShapeClass::Mixed
                } else {
                    ShapeClass::PassThrough
                }
            },
            _ => ShapeClass::PassThrough,
        }
    }

    fn classify_array(items: &Vec<JsonValue>, config: &ClassifyConfig) -> (r: ShapeClass)
        ensures
            r == array_shape(models(items@), *config),
    {
        if items.len() >= config.tabular_min_rows && Self::is_tabular(items) {
            return ShapeClass::Tabular;
        }
        if items.len() >= config.primitive_array_min && Self::is_flat(items) {
            return ShapeClass::PrimitiveArray;
        }
        if items.len() >= config.tabular_min_rows {
            return ShapeClass::Mixed;
        }
        ShapeClass::PassThrough
    }

    fn is_flat(items: &Vec<JsonValue>) -> (r: bool)
        ensures
            r == all_primitive(models(items@)),
    {
        let ghost all = models(items@);
        let mut i: usize = 0;
        while i < items.len()
            invariant
                0 <= i <= items@.len(),
                all == models(items@),
                forall|j: int| 0 <= j < i ==> is_primitive(#[trigger] all[j]),
            decreases items@.len() - i,
        {
            assert(all[i as int] == items@[i as int]@);
            if !primitive(&items[i]) {
                return false;
            }
            i = i + 1;
        }
        true
    }

    fn is_tabular(items: &Vec<JsonValue>) -> (r: bool)
        ensures
            r == is_table(models(items@)),
    {
        let ghost all = models(items@);
        if items.len() == 0 {
            return false;
        }
        assert(all[0] == items@[0]@);
        proof {
            lemma_container_model(items@[0]);
        }
        let first = match &items[0] {
            JsonValue::Object(members) => members,
            _ => {
                return false;
            },
        };
        let mut i: usize = 0;
        while i < items.len()
            invariant
                0 <= i <= items@.len(),
                all == models(items@),
                items@.len() > 0,
                all[0] == Json::Object(member_models(first@)),
                forall|j: int|
                    0 <= j < i ==> ((#[trigger] all[j]) matches Json::Object(members) && conforms(
                        members,
                        member_models(first@),
                    )),
            decreases items@.len() - i,
        {
            assert(all[i as int] == items@[i as int]@);
            proof {
                lemma_container_model(items@[i as int]);
            }
            match &items[i] {
                JsonValue::Object(members) => {
                    if !row_conforms(members, first) {
                        return false;
                    }
                },
                _ => {
                    return false;
                },
            }
            i = i + 1;
        }
        true
    }

    fn has_beneficial_descendant(
        value: &JsonValue,
        config: &ClassifyConfig,
        depth: usize,
    ) -> (r: bool)
        ensures
            r == beneficial(value@, *config, depth as nat),
        decreases *value,
    {
        if depth >= BENEFICIAL_SCAN_MAX_DEPTH {
            return false;
        }
        proof {
            lemma_container_model(*value);
        }
        match value {
            JsonValue::Array(items) => {
                let ghost all = models(items@);
                if Self::classify_array(items, config) != ShapeClass::PassThrough {
                    return true;
                }
                let mut i: usize = 0;
                while i < items.len()
                    invariant
                        0 <= i <= items@.len(),
                        depth < BENEFICIAL_SCAN_MAX_DEPTH,
                        *value == JsonValue::Array(*items),
                        value@ == Json::Array(all),
                        all == models(items@),
                        forall|j: int|
                            0 <= j < i ==> !beneficial(
                                #[trigger] all[j],
                                *config,
                                depth as nat + 1,
                            ),
                    decreases items@.len() - i,
                {
                    assert(decreases_to!(*value => value->Array_0));
                    assert(decreases_to!(*items => items@[i as int]));
                    assert(all[i as int] == items@[i as int]@);
                    let item: &JsonValue = &items[i];
                    if Self::has_beneficial_descendant(item, config, depth + 1) {
                        return true;
                    }
                    i = i + 1;
                }
                false
            },
            JsonValue::Object(members) => {
                let ghost all = member_models(members@);
                if Self::is_fold_chain(value, 0, config.fold_min_depth) {
                    return true;
                }
                let mut i: usize = 0;
                while i < members.len()
                    invariant
                        0 <= i <= members@.len(),
                        depth < BENEFICIAL_SCAN_MAX_DEPTH,
                        *value == JsonValue::Object(*members),
                        value@ == Json::Object(all),
                        all == member_models(members@),
                        forall|j: int|
                            0 <= j < i ==> !beneficial(
                                (#[trigger] all[j]).1,
                                *config,
                                depth as nat + 1,
                            ),
                    decreases members@.len() - i,
                {
                    assert(decreases_to!(*value => value->Object_0));
                    assert(decreases_to!(*members => members@[i as int]));
                    assert(decreases_to!(members@[i as int] => members@[i as int].1));
                    assert(all[i as int].1 == members@[i as int].1@);
                    let item: &JsonValue = &members[i].1;
                    if Self::has_beneficial_descendant(item, config, depth + 1) {
                        return true;
                    }
                    i = i + 1;
                }
                false
            },
            _ => false,
        }
    }

    fn is_fold_chain(value: &JsonValue, depth: usize, min_depth: usize) -> (r: bool)
        requires
            depth <= FOLD_CHAIN_MAX_DEPTH,
            value@ is Object,
        ensures
            r == (depth + chain_nesting(value@) < FOLD_CHAIN_MAX_DEPTH && depth + chain_length(
                value@,
            ) >= min_depth),
        decreases *value,
    {
        if depth >= FOLD_CHAIN_MAX_DEPTH {
            return false;
        }
        proof {
            lemma_container_model(*value);
        }
        match value {
            JsonValue::Object(members) => {
                if members.len() != 1 {
                    return depth >= min_depth;
                }
                assert(member_models(members@)[0].1 == members@[0].1@);
                assert(decreases_to!(*value => value->Object_0));
                assert(decreases_to!(*members => members@[0]));
                assert(decreases_to!(members@[0] => members@[0].1));
                let child: &JsonValue = &members[0].1;
                if child.is_object() {
                    Self::is_fold_chain(child, depth + 1, min_depth)
                } else {
                    depth + 1 >= min_depth
                }
            },
            _ => depth >= min_depth,
        }
    }
}

} // verus!
