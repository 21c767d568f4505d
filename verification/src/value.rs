//! The value tree that every parser produces and every later stage reads.

use vstd::prelude::*;
use crate::text::same_text;

verus! {

/// A JSON number in one of its three representations.
#[derive(Debug, PartialEq, Eq)]
pub enum Number {
    /// A non-negative integer.
    PosInt(u64),
    /// A negative integer.
    NegInt(i64),
    /// A finite binary64 number, written as the shortest decimal text that
    /// reads back as the same number.
    Float(String),
}

/// A parsed document. An object keeps its members in document order.
#[derive(Debug, PartialEq, Eq)]
pub enum JsonValue {
    /// The `null` literal.
    Null,
    /// `true` or `false`.
    Bool(bool),
    /// A number.
    Number(Number),
    /// A string, escapes resolved.
    String(String),
    /// The items of an array.
    Array(Vec<JsonValue>),
    /// The members of an object.
    Object(Vec<(String, JsonValue)>),
}

/// Mathematical model of a [`Number`].
pub enum Num {
    PosInt(u64),
    NegInt(i64),
    Float(Seq<char>),
}

/// Mathematical model of a [`JsonValue`].
pub enum Json {
    Null,
    Bool(bool),
    Number(Num),
    String(Seq<char>),
    Array(Seq<Json>),
    Object(Seq<(Seq<char>, Json)>),
}

impl View for Number {
    type V = Num;

    open spec fn view(&self) -> Num {
        match self {
            Number::PosInt(n) => Num::PosInt(*n),
            Number::NegInt(n) => Num::NegInt(*n),
            Number::Float(t) => Num::Float(t@),
        }
    }
}

/// The model of a value tree.
pub open spec fn model(v: JsonValue) -> Json
    decreases v,
{
    match v {
        JsonValue::Null => Json::Null,
        JsonValue::Bool(b) => Json::Bool(b),
        JsonValue::Number(n) => Json::Number(n@),
        JsonValue::String(s) => Json::String(s@),
        JsonValue::Array(items) => Json::Array(
            Seq::new(
                items@.len(),
                |i: int|
                    if 0 <= i < items@.len() {
                        model(items@[i])
                    } else {
                        Json::Null
                    },
            ),
        ),
        JsonValue::Object(members) => Json::Object(
            Seq::new(
                members@.len(),
                |i: int|
                    if 0 <= i < members@.len() {
                        (members@[i].0@, model(members@[i].1))
                    } else {
                        (Seq::empty(), Json::Null)
                    },
            ),
        ),
    }
}

impl View for JsonValue {
    type V = Json;

    open spec fn view(&self) -> Json {
        model(*self)
    }
}

/// The models of a run of values.
pub open spec fn models(items: Seq<JsonValue>) -> Seq<Json> {
    items.map_values(|v: JsonValue| v@)
}

/// The models of a run of members.
pub open spec fn member_models(members: Seq<(String, JsonValue)>) -> Seq<(Seq<char>, Json)> {
    members.map_values(|m: (String, JsonValue)| (m.0@, m.1@))
}


/// An array's model is the array of its items' models, and likewise for an
/// object.
pub proof fn lemma_container_model(v: JsonValue)
    ensures
        v matches JsonValue::Array(items) ==> v@ == Json::Array(models(items@)),
        v matches JsonValue::Object(members) ==> v@ == Json::Object(member_models(members@)),
{
    match v {
        JsonValue::Array(items) => {
            assert(v@->Array_0 =~= models(items@));
        },
        JsonValue::Object(members) => {
            assert(v@->Object_0 =~= member_models(members@));
        },
        _ => {},
    }
}

/// Position of the first member named `key`, or the member count.
pub open spec fn key_index(members: Seq<(Seq<char>, Json)>, key: Seq<char>) -> int
    decreases members.len(),
{
    if members.len() == 0 {
        0
    } else if members[0].0 == key {
        0
    } else {
        1 + key_index(members.drop_first(), key)
    }
}

/// Whether some member is named `key`.
pub open spec fn has_key(members: Seq<(Seq<char>, Json)>, key: Seq<char>) -> bool {
    exists|i: int| 0 <= i < members.len() && (#[trigger] members[i]).0 == key
}

/// The value of the first member named `key`.
pub open spec fn lookup(members: Seq<(Seq<char>, Json)>, key: Seq<char>) -> Option<Json> {
    if has_key(members, key) {
        Some(members[key_index(members, key)].1)
    } else {
        None
    }
}

/// `key_index` is the least index that carries the key.
pub proof fn lemma_key_index(members: Seq<(Seq<char>, Json)>, key: Seq<char>)
    ensures
        0 <= key_index(members, key) <= members.len(),
        has_key(members, key) <==> key_index(members, key) < members.len(),
        key_index(members, key) < members.len() ==> members[key_index(members, key)].0 == key,
        forall|j: int|
            0 <= j < key_index(members, key) ==> (#[trigger] members[j]).0 != key,
    decreases members.len(),
{
    if members.len() > 0 && members[0].0 != key {
        let rest = members.drop_first();
        lemma_key_index(rest, key);
        let k = key_index(rest, key);
        assert forall|j: int| 0 <= j < key_index(members, key) implies (
        #[trigger] members[j]).0 != key by {
            if j > 0 {
                assert(rest[j - 1] == members[j]);
            }
        }
        if k < rest.len() {
            assert(members[k + 1] == rest[k]);
        }
        if has_key(members, key) {
            let i = choose|i: int|
                0 <= i < members.len() && (#[trigger] members[i]).0 == key;
            assert(rest[i - 1].0 == key);
        }
    }
}

/// An index that carries the key, with none before it, is the key's index.
pub proof fn lemma_key_index_at(members: Seq<(Seq<char>, Json)>, key: Seq<char>, at: int)
    requires
        0 <= at < members.len(),
        members[at].0 == key,
        forall|j: int| 0 <= j < at ==> (#[trigger] members[j]).0 != key,
    ensures
        key_index(members, key) == at,
        has_key(members, key),
        lookup(members, key) == Some(members[at].1),
{
    lemma_key_index(members, key);
}

impl Number {
    /// A copy of the number.
    pub fn duplicate(&self) -> (r: Number)
        ensures
            r@ == self@,
    {
        match self {
            Number::PosInt(n) => Number::PosInt(*n),
            Number::NegInt(n) => Number::NegInt(*n),
            Number::Float(t) => Number::Float(t.clone()),
        }
    }

    /// The number `i`.
    pub fn from_i64(i: i64) -> (r: Number)
        ensures
            r@ == integer_number(i as int),
    {
        if i >= 0 {
            Number::PosInt(i as u64)
        } else {
            Number::NegInt(i)
        }
    }
}

/// The number that stands for an integer in the `i64` or `u64` range.
pub open spec fn integer_number(i: int) -> Num {
    if i >= 0 {
        Num::PosInt(i as u64)
    } else {
        Num::NegInt(i as i64)
    }
}

impl JsonValue {
    /// A copy of the whole tree.
    pub fn duplicate(&self) -> (r: JsonValue)
        ensures
            r@ == self@,
        decreases self,
    {
        proof {
            lemma_container_model(*self);
        }
        match self {
            JsonValue::Null => JsonValue::Null,
            JsonValue::Bool(b) => JsonValue::Bool(*b),
            JsonValue::Number(n) => JsonValue::Number(n.duplicate()),
            JsonValue::String(s) => JsonValue::String(s.clone()),
            JsonValue::Array(items) => {
                let mut out: Vec<JsonValue> = Vec::new();
                let mut i: usize = 0;
                while i < items.len()
                    invariant
                        0 <= i <= items@.len(),
                        out@.len() == i,
                        *self == JsonValue::Array(*items),
                        models(out@) =~= models(items@).take(i as int),
                    decreases items@.len() - i,
                {
                    assert(decreases_to!(*self => self->Array_0));
                    assert(decreases_to!(*items => items@[i as int]));
                    let item: &JsonValue = &items[i];
                    let copy = item.duplicate();
                    out.push(copy);
                    assert(models(out@)[i as int] == copy@);
                    i = i + 1;
                }
                assert(models(out@) =~= models(items@));
                let r = JsonValue::Array(out);
                proof {
                    lemma_container_model(r);
                }
                r
            },
            JsonValue::Object(members) => {
                let mut out: Vec<(String, JsonValue)> = Vec::new();
                let mut i: usize = 0;
                while i < members.len()
                    invariant
                        0 <= i <= members@.len(),
                        out@.len() == i,
                        *self == JsonValue::Object(*members),
                        member_models(out@) =~= member_models(members@).take(i as int),
                    decreases members@.len() - i,
                {
                    assert(decreases_to!(*self => self->Object_0));
                    assert(decreases_to!(*members => members@[i as int]));
                    assert(decreases_to!(members@[i as int] => members@[i as int].1));
                    let item: &JsonValue = &members[i].1;
                    let copy = item.duplicate();
                    out.push((members[i].0.clone(), copy));
                    i = i + 1;
                }
                assert(member_models(out@) =~= member_models(members@));
                let r = JsonValue::Object(out);
                proof {
                    lemma_container_model(r);
                }
                r
            },
        }
    }

    /// Whether the root is an object.
    pub fn is_object(&self) -> (r: bool)
        ensures
            r == (self@ is Object),
    {
        match self {
            JsonValue::Object(_) => true,
            _ => false,
        }
    }

    /// Whether the root is a number.
    pub fn is_number(&self) -> (r: bool)
        ensures
            r == (self@ is Number),
    {
        match self {
            JsonValue::Number(_) => true,
            _ => false,
        }
    }
}

/// Position of the first member named `key`.
pub fn find_key(members: &Vec<(String, JsonValue)>, key: &str) -> (r: Option<usize>)
    ensures
        match r {
            Some(i) => i < members@.len() && key_index(member_models(members@), key@) == i
                && has_key(member_models(members@), key@),
            None => !has_key(member_models(members@), key@),
        },
{
    let ghost all = member_models(members@);
    let mut i: usize = 0;
    while i < members.len()
        invariant
            0 <= i <= members@.len(),
            all == member_models(members@),
            forall|j: int| 0 <= j < i ==> (#[trigger] all[j]).0 != key@,
        decreases members@.len() - i,
    {
        assert(all[i as int].0 == members@[i as int].0@);
        if same_text(members[i].0.as_str(), key) {
            proof {
                lemma_key_index_at(all, key@, i as int);
            }
            return Some(i);
        }
        i = i + 1;
    }
    None
}

} // verus!
