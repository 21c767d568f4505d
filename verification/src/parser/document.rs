//! The grammar of JSON documents, and what it says about repeated names.
//!
//! A [`Doc`] is a document taken apart into its literals, brackets and white
//! space. The walk that the parser makes over a text finds a repeated member
//! exactly where the document holds one.

use vstd::prelude::*;
use crate::bindings::json_string;
use crate::number::is_digit;
use crate::parser::json::{
    awaits_name, closers, digits_end, holds, is_filler, number_end, repeat_from, scalar_end, settle, step,
    string_end, with_name, Repeat, Scope, Step,
};
use crate::text::occurs_at;

verus! {

/// A JSON document, literal by literal.
pub enum Doc {
    /// A number, `true`, `false` or `null`.
    Scalar(Seq<char>),
    /// A string literal with its quotes.
    Quoted(Seq<char>),
    /// An array. Its text starts with the gap after the bracket.
    List { gap: Seq<char>, items: Seq<Doc> },
    /// An object. Its text starts with the gap after the brace.
    Record { gap: Seq<char>, members: Seq<Member> },
    /// A value with white space around it.
    Spaced { before: Seq<char>, inner: Box<Doc>, after: Seq<char> },
}

/// A member of an object: its name literal between white space, and its value.
pub struct Member {
    pub before: Seq<char>,
    pub name: Seq<char>,
    pub after: Seq<char>,
    pub value: Doc,
}

/// The text of a document.
pub open spec fn doc_text(doc: Doc) -> Seq<char>
    decreases doc,
{
    match doc {
        Doc::Scalar(literal) => literal,
        Doc::Quoted(literal) => literal,
        Doc::List { gap, items } => seq!['['] + gap + items_text(items, 0) + seq![']'],
        Doc::Record { gap, members } => seq!['{'] + gap + members_text(members, 0) + seq!['}'],
        Doc::Spaced { before, inner, after } => before + doc_text(*inner) + after,
    }
}

/// What separates the `i`th element of a container from what precedes it.
pub open spec fn separator(i: nat) -> Seq<char> {
    if i == 0 {
        Seq::empty()
    } else {
        seq![',']
    }
}

/// The text of the elements from `i` on.
pub open spec fn items_text(items: Seq<Doc>, i: nat) -> Seq<char>
    decreases items, items.len() - i,
{
    if i >= items.len() {
        Seq::empty()
    } else {
        separator(i) + doc_text(items[i as int]) + items_text(items, i + 1)
    }
}

/// The text of a member up to its value.
pub open spec fn name_text(m: Member) -> Seq<char> {
    m.before + m.name + m.after + seq![':']
}

/// The text of the members from `i` on.
pub open spec fn members_text(members: Seq<Member>, i: nat) -> Seq<char>
    decreases members, members.len() - i,
{
    if i >= members.len() {
        Seq::empty()
    } else {
        separator(i) + name_text(members[i as int]) + doc_text(members[i as int].value)
            + members_text(members, i + 1)
    }
}

/// Whether a text is white space only.
pub open spec fn is_gap(text: Seq<char>) -> bool {
    forall|i: int|
        0 <= i < text.len() ==> (#[trigger] text[i] == ' ' || text[i] == '\t' || text[i] == '\n'
            || text[i] == '\r')
}

/// Whether a text is one string literal: a quote, and the next unescaped quote
/// at its end.
pub open spec fn is_quoted(literal: Seq<char>) -> bool {
    &&& literal.len() >= 2
    &&& literal[0] == '"'
    &&& string_end(literal, 1) == Some(literal.len() as int)
}

/// Whether a text is one number or word literal.
pub open spec fn is_scalar(literal: Seq<char>) -> bool {
    ||| literal == "true"@
    ||| literal == "false"@
    ||| literal == "null"@
    ||| literal.len() > 0 && number_end(literal, 0) == literal.len()
}

/// Whether the literals and gaps of a document are what they stand for.
pub open spec fn is_document(doc: Doc) -> bool
    decreases doc,
{
    match doc {
        Doc::Scalar(literal) => is_scalar(literal),
        Doc::Quoted(literal) => is_quoted(literal),
        Doc::List { gap, items } => is_gap(gap) && forall|i: int|
            #![trigger items[i]]
            0 <= i < items.len() ==> is_document(items[i]),
        Doc::Record { gap, members } => is_gap(gap) && forall|i: int|
            #![trigger members[i]]
            0 <= i < members.len() ==> {
                &&& is_gap(members[i].before)
                &&& is_quoted(members[i].name)
                &&& json_string(members[i].name) is Some
                &&& is_gap(members[i].after)
                &&& is_document(members[i].value)
            },
        Doc::Spaced { before, inner, after } => is_gap(before) && is_document(*inner) && is_gap(
            after,
        ),
    }
}

/// The name that a member's literal denotes.
pub open spec fn member_name(m: Member) -> Seq<char> {
    json_string(m.name)->Some_0
}

/// The names of the first `n` members.
pub open spec fn names_before(members: Seq<Member>, n: nat) -> Seq<Seq<char>> {
    members.take(n as int).map_values(|m: Member| member_name(m))
}

/// Whether the `i`th member bears the name of an earlier one.
pub open spec fn repeats(members: Seq<Member>, i: int) -> bool {
    exists|j: int|
        0 <= j < i && member_name(#[trigger] members[j]) == member_name(members[i])
}

/// The first repeated name of a document, in the order in which values end.
pub open spec fn first_repeat(doc: Doc) -> Option<Seq<char>>
    decreases doc,
{
    match doc {
        Doc::List { items, .. } => first_in_items(items, 0),
        Doc::Record { members, .. } => first_in_members(members, 0),
        Doc::Spaced { inner, .. } => first_repeat(*inner),
        _ => None,
    }
}

/// [`first_repeat`] over the elements from `i` on.
pub open spec fn first_in_items(items: Seq<Doc>, i: nat) -> Option<Seq<char>>
    decreases items, items.len() - i,
{
    if i >= items.len() {
        None
    } else if first_repeat(items[i as int]) is Some {
        first_repeat(items[i as int])
    } else {
        first_in_items(items, i + 1)
    }
}

/// [`first_repeat`] over the members from `i` on.
pub open spec fn first_in_members(members: Seq<Member>, i: nat) -> Option<Seq<char>>
    decreases members, members.len() - i,
{
    if i >= members.len() {
        None
    } else if first_repeat(members[i as int].value) is Some {
        first_repeat(members[i as int].value)
    } else if repeats(members, i as int) {
        Some(member_name(members[i as int]))
    } else {
        first_in_members(members, i + 1)
    }
}

/// Whether some object of a document, at any depth, holds two members with one
/// name.
pub open spec fn has_repeat(doc: Doc) -> bool
    decreases doc,
{
    match doc {
        Doc::List { items, .. } => exists|i: int|
            #![trigger items[i]]
            0 <= i < items.len() && has_repeat(items[i]),
        Doc::Record { members, .. } => exists|i: int|
            #![trigger members[i]]
            0 <= i < members.len() && (has_repeat(members[i].value) || repeats(members, i)),
        Doc::Spaced { inner, .. } => has_repeat(*inner),
        _ => false,
    }
}

// ---------------------------------------------------------------------------
// A document has a first repeat exactly where it has one
// ---------------------------------------------------------------------------

proof fn lemma_first_in_items(items: Seq<Doc>, i: nat)
    requires
        forall|k: int|
            #![trigger items[k]]
            0 <= k < items.len() ==> (first_repeat(items[k]) is Some <==> has_repeat(items[k])),
    ensures
        first_in_items(items, i) is Some <==> exists|k: int|
            #![trigger items[k]]
            i <= k < items.len() && has_repeat(items[k]),
    decreases items.len() - i,
{
    if i < items.len() {
        lemma_first_in_items(items, i + 1);
        assert(items[i as int] == items[i as int]);
    }
}

proof fn lemma_first_in_members(members: Seq<Member>, i: nat)
    requires
        forall|k: int|
            #![trigger members[k]]
            0 <= k < members.len() ==> (first_repeat(members[k].value) is Some <==> has_repeat(
                members[k].value,
            )),
    ensures
        first_in_members(members, i) is Some <==> exists|k: int|
            #![trigger members[k]]
            i <= k < members.len() && (has_repeat(members[k].value) || repeats(members, k)),
    decreases members.len() - i,
{
    if i < members.len() {
        lemma_first_in_members(members, i + 1);
        assert(members[i as int] == members[i as int]);
    }
}

/// A document has a first repeated name exactly where one of its objects holds
/// two members with one name.
pub proof fn lemma_first_repeat(doc: Doc)
    ensures
        first_repeat(doc) is Some <==> has_repeat(doc),
    decreases doc,
{
    match doc {
        Doc::List { items, .. } => {
            assert forall|k: int| #![trigger items[k]] 0 <= k < items.len() implies (first_repeat(
                items[k],
            ) is Some <==> has_repeat(items[k])) by {
                lemma_first_repeat(items[k]);
            }
            lemma_first_in_items(items, 0);
        },
        Doc::Record { members, .. } => {
            assert forall|k: int| #![trigger members[k]] 0 <= k < members.len() implies (
            first_repeat(members[k].value) is Some <==> has_repeat(members[k].value)) by {
                lemma_first_repeat(members[k].value);
            }
            lemma_first_in_members(members, 0);
        },
        Doc::Spaced { inner, .. } => lemma_first_repeat(*inner),
        _ => {},
    }
}

// ---------------------------------------------------------------------------
// Literals inside a longer text
// ---------------------------------------------------------------------------

/// Whether no literal goes on at `at`.
pub open spec fn is_boundary(s: Seq<char>, at: int) -> bool {
    at >= s.len() || is_filler(s[at]) || s[at] == ']' || s[at] == '}'
}

pub proof fn lemma_split(s: Seq<char>, at: int, a: Seq<char>, b: Seq<char>)
    requires
        occurs_at(s, a + b, at),
    ensures
        occurs_at(s, a, at),
        occurs_at(s, b, at + a.len()),
{
    let whole = s.subrange(at, at + (a + b).len());
    assert(s.subrange(at, at + a.len()) =~= whole.take(a.len() as int));
    assert((a + b).take(a.len() as int) =~= a);
    assert(s.subrange(at + a.len(), at + a.len() + b.len()) =~= whole.skip(a.len() as int));
    assert((a + b).skip(a.len() as int) =~= b);
}

pub proof fn lemma_at(s: Seq<char>, at: int, part: Seq<char>, i: int)
    requires
        occurs_at(s, part, at),
        0 <= i < part.len(),
    ensures
        s[at + i] == part[i],
{
    assert(s[at + i] == s.subrange(at, at + part.len())[i]);
}

pub proof fn lemma_string_end(s: Seq<char>, at: int, literal: Seq<char>, i: int)
    requires
        occurs_at(s, literal, at),
        0 <= i,
        string_end(literal, i) is Some,
    ensures
        string_end(s, at + i) == Some(at + string_end(literal, i)->Some_0),
    decreases literal.len() - i,
{
    lemma_at(s, at, literal, i);
    if literal[i] == '\\' {
        lemma_string_end(s, at, literal, i + 2);
    } else if literal[i] != '"' {
        lemma_string_end(s, at, literal, i + 1);
    }
}

proof fn lemma_digits_end(s: Seq<char>, at: int, literal: Seq<char>, i: int)
    requires
        occurs_at(s, literal, at),
        is_boundary(s, at + literal.len()),
        0 <= i <= literal.len(),
    ensures
        digits_end(s, at + i) == at + digits_end(literal, i),
        i <= digits_end(literal, i) <= literal.len(),
    decreases literal.len() - i,
{
    if i < literal.len() {
        lemma_at(s, at, literal, i);
        if is_digit(literal[i]) {
            lemma_digits_end(s, at, literal, i + 1);
        }
    }
}

proof fn lemma_holds(s: Seq<char>, at: int, literal: Seq<char>, i: int, c: char)
    requires
        occurs_at(s, literal, at),
        is_boundary(s, at + literal.len()),
        0 <= i <= literal.len(),
        c == '-' || c == '+' || c == '.' || c == 'e' || c == 'E',
    ensures
        holds(s, at + i, c) == holds(literal, i, c),
{
    if i < literal.len() {
        lemma_at(s, at, literal, i);
    }
}

proof fn lemma_number_end(s: Seq<char>, at: int, literal: Seq<char>)
    requires
        occurs_at(s, literal, at),
        is_boundary(s, at + literal.len()),
    ensures
        number_end(s, at) == at + number_end(literal, 0),
{
    lemma_holds(s, at, literal, 0, '-');
    let start = if holds(literal, 0, '-') {
        1
    } else {
        0
    };
    lemma_digits_end(s, at, literal, start);
    let whole = digits_end(literal, start);
    lemma_holds(s, at, literal, whole, '.');
    if holds(literal, whole, '.') {
        lemma_digits_end(s, at, literal, whole + 1);
    }
    let fraction = if holds(literal, whole, '.') {
        digits_end(literal, whole + 1)
    } else {
        whole
    };
    lemma_holds(s, at, literal, fraction, 'e');
    lemma_holds(s, at, literal, fraction, 'E');
    if holds(literal, fraction, 'e') || holds(literal, fraction, 'E') {
        lemma_holds(s, at, literal, fraction + 1, '+');
        lemma_holds(s, at, literal, fraction + 1, '-');
        if holds(literal, fraction + 1, '+') || holds(literal, fraction + 1, '-') {
            lemma_digits_end(s, at, literal, fraction + 2);
        } else {
            lemma_digits_end(s, at, literal, fraction + 1);
        }
    }
}

pub proof fn lemma_scalar_end(s: Seq<char>, at: int, literal: Seq<char>)
    requires
        occurs_at(s, literal, at),
        is_boundary(s, at + literal.len()),
        is_scalar(literal),
    ensures
        scalar_end(s, at) == Some(at + literal.len()),
        !is_filler(s[at]),
        s[at] != '{' && s[at] != '[' && s[at] != '}' && s[at] != ']' && s[at] != '"',
{
    reveal_strlit("true");
    reveal_strlit("false");
    reveal_strlit("null");
    lemma_at(s, at, literal, 0);
    lemma_number_end(s, at, literal);
    let first = s[at];
    if occurs_at(s, "true"@, at) {
        lemma_at(s, at, "true"@, 0);
    }
    if occurs_at(s, "false"@, at) {
        lemma_at(s, at, "false"@, 0);
    }
    if occurs_at(s, "null"@, at) {
        lemma_at(s, at, "null"@, 0);
    }
    if literal != "true"@ && literal != "false"@ && literal != "null"@ {
        assert(digits_end(literal, 0) > 0 ==> is_digit(first));
        assert(first == '-' || first == '.' || first == 'e' || first == 'E' || is_digit(first));
    }
}

// ---------------------------------------------------------------------------
// The walk over a document
// ---------------------------------------------------------------------------

pub proof fn lemma_skip_filler(s: Seq<char>, at: int, gap: Seq<char>, open: Seq<Scope>)
    requires
        occurs_at(s, gap, at),
        forall|i: int| 0 <= i < gap.len() ==> is_filler(#[trigger] gap[i]),
    ensures
        repeat_from(s, at, open) == repeat_from(s, at + gap.len(), open),
    decreases gap.len(),
{
    if gap.len() > 0 {
        lemma_at(s, at, gap, 0);
        assert(is_filler(gap[0]));
        assert(step(s, at, open) == Step::Enter(at + 1, open));
        let rest = gap.drop_first();
        assert(gap =~= seq![gap[0]] + rest);
        lemma_split(s, at, seq![gap[0]], rest);
        assert forall|i: int| 0 <= i < rest.len() implies is_filler(#[trigger] rest[i]) by {
            assert(rest[i] == gap[i + 1]);
        }
        lemma_skip_filler(s, at + 1, rest, open);
    }
}

/// What the walk reports once a value has ended at `at`.
pub open spec fn goes_on(s: Seq<char>, at: int, open: Seq<Scope>, found: Option<Repeat>) -> bool {
    match settle(open) {
        Ok(settled) => found == repeat_from(s, at, settled),
        Err(key) => found is Some && found->Some_0.key == key,
    }
}

/// The length of a document's text without white space behind its value.
pub open spec fn solid_length(doc: Doc) -> int
    decreases doc,
{
    match doc {
        Doc::Spaced { before, inner, .. } => before.len() + solid_length(*inner),
        _ => doc_text(doc).len() as int,
    }
}

/// What the walk reports over a value with the first repeat `first` that ends
/// at `end`, with white space from there to `at`.
pub open spec fn reports(
    s: Seq<char>,
    end: int,
    at: int,
    open: Seq<Scope>,
    first: Option<Seq<char>>,
    found: Option<Repeat>,
) -> bool {
    match first {
        Some(key) => found is Some && found->Some_0.key == key,
        None => match settle(open) {
            Ok(settled) => found == repeat_from(s, at, settled),
            Err(key) => found == Some(Repeat { key, end, closers: closers(open) }),
        },
    }
}

/// Over a value the walk reports the value's first repeat; without one it goes
/// on behind the value, unless the value ends a repeated member.
pub proof fn lemma_walk(s: Seq<char>, at: int, open: Seq<Scope>, doc: Doc)
    requires
        is_document(doc),
        occurs_at(s, doc_text(doc), at),
        is_boundary(s, at + doc_text(doc).len()),
        !awaits_name(open),
    ensures
        reports(
            s,
            at + solid_length(doc),
            at + doc_text(doc).len(),
            open,
            first_repeat(doc),
            repeat_from(s, at, open),
        ),
    decreases doc, 0nat,
{
    match doc {
        Doc::Scalar(literal) => {
            lemma_scalar_end(s, at, literal);
            assert(step(s, at, open) == Step::Value(at + literal.len(), open));
        },
        Doc::Quoted(literal) => {
            lemma_at(s, at, literal, 0);
            lemma_string_end(s, at, literal, 1);
            assert(step(s, at, open) == Step::Value(at + literal.len(), open));
        },
        Doc::List { gap, items } => {
            let body = items_text(items, 0);
            lemma_split(s, at, seq!['['] + gap + body, seq![']']);
            lemma_split(s, at, seq!['['] + gap, body);
            lemma_split(s, at, seq!['['], gap);
            lemma_at(s, at, seq!['['], 0);
            lemma_at(s, at + (seq!['['] + gap + body).len(), seq![']'], 0);
            let inner = open.push(Scope::Array);
            assert(step(s, at, open) == Step::Enter(at + 1, inner));
            lemma_skip_filler(s, at + 1, gap, inner);
            lemma_walk_items(s, at + 1 + gap.len(), open, items, 0);
        },
        Doc::Record { gap, members } => {
            let body = members_text(members, 0);
            lemma_split(s, at, seq!['{'] + gap + body, seq!['}']);
            lemma_split(s, at, seq!['{'] + gap, body);
            lemma_split(s, at, seq!['{'], gap);
            lemma_at(s, at, seq!['{'], 0);
            lemma_at(s, at + (seq!['{'] + gap + body).len(), seq!['}'], 0);
            let names = names_before(members, 0);
            assert(names =~= Seq::empty());
            let inner = open.push(Scope::Object { names, pending: None });
            assert(step(s, at, open) == Step::Enter(at + 1, inner));
            lemma_skip_filler(s, at + 1, gap, inner);
            lemma_walk_members(s, at + 1 + gap.len(), open, members, 0);
        },
        Doc::Spaced { before, inner, after } => {
            let text = doc_text(*inner);
            lemma_split(s, at, before + text, after);
            lemma_split(s, at, before, text);
            lemma_skip_filler(s, at, before, open);
            let end = at + before.len() + text.len();
            if after.len() > 0 {
                lemma_at(s, end, after, 0);
            }
            lemma_walk(s, at + before.len(), open, *inner);
            if settle(open) is Ok {
                lemma_skip_filler(s, end, after, settle(open)->Ok_0);
            }
        },
    }
}

proof fn lemma_walk_items(s: Seq<char>, at: int, open: Seq<Scope>, items: Seq<Doc>, i: nat)
    requires
        forall|k: int| #![trigger items[k]] 0 <= k < items.len() ==> is_document(items[k]),
        occurs_at(s, items_text(items, i), at),
        holds(s, at + items_text(items, i).len(), ']'),
    ensures
        reports(
            s,
            at + items_text(items, i).len() + 1,
            at + items_text(items, i).len() + 1,
            open,
            first_in_items(items, i),
            repeat_from(s, at, open.push(Scope::Array)),
        ),
    decreases items, items.len() - i,
{
    let inner = open.push(Scope::Array);
    if i >= items.len() {
        assert(inner.drop_last() =~= open);
        assert(step(s, at, inner) == Step::Value(at + 1, open));
    } else {
        let item = items[i as int];
        let text = doc_text(item);
        let rest = items_text(items, i + 1);
        lemma_split(s, at, separator(i) + text, rest);
        lemma_split(s, at, separator(i), text);
        lemma_skip_filler(s, at, separator(i), inner);
        let start = at + separator(i).len();
        if i + 1 < items.len() {
            lemma_at(s, start + text.len(), rest, 0);
        }
        lemma_walk(s, start, inner, item);
        lemma_walk_items(s, start + text.len(), open, items, i + 1);
    }
}

proof fn lemma_walk_members(s: Seq<char>, at: int, open: Seq<Scope>, members: Seq<Member>, i: nat)
    requires
        is_document(Doc::Record { gap: Seq::empty(), members }),
        occurs_at(s, members_text(members, i), at),
        holds(s, at + members_text(members, i).len(), '}'),
        i <= members.len(),
    ensures
        reports(
            s,
            at + members_text(members, i).len() + 1,
            at + members_text(members, i).len() + 1,
            open,
            first_in_members(members, i),
            repeat_from(
                s,
                at,
                open.push(Scope::Object { names: names_before(members, i), pending: None }),
            ),
        ),
    decreases members, members.len() - i,
{
    let names = names_before(members, i);
    let inner = open.push(Scope::Object { names, pending: None });
    if i >= members.len() {
        assert(inner.drop_last() =~= open);
        assert(step(s, at, inner) == Step::Value(at + 1, open));
    } else {
        let m = members[i as int];
        let text = doc_text(m.value);
        let rest = members_text(members, i + 1);
        lemma_split(s, at, separator(i) + name_text(m) + text, rest);
        lemma_split(s, at, separator(i) + name_text(m), text);
        lemma_split(s, at, separator(i), name_text(m));
        let start = at + separator(i).len();
        lemma_split(s, start, m.before + m.name + m.after, seq![':']);
        lemma_split(s, start, m.before + m.name, m.after);
        lemma_split(s, start, m.before, m.name);
        lemma_skip_filler(s, at, separator(i), inner);
        lemma_skip_filler(s, start, m.before, inner);
        let quote = start + m.before.len();
        lemma_at(s, quote, m.name, 0);
        lemma_string_end(s, quote, m.name, 1);
        let named = with_name(inner, member_name(m));
        assert(awaits_name(inner));
        assert(step(s, quote, inner) == Step::Enter(quote + m.name.len(), named));
        lemma_skip_filler(s, quote + m.name.len(), m.after, named);
        lemma_skip_filler(s, quote + m.name.len() + m.after.len(), seq![':'], named);
        let value = start + name_text(m).len();
        if i + 1 < members.len() {
            lemma_at(s, value + text.len(), rest, 0);
        }
        lemma_walk(s, value, named, m.value);
        assert(named.drop_last() =~= open);
        assert(names.contains(member_name(m)) <==> repeats(members, i as int)) by {
            lemma_names(members, i);
        }
        let next = names_before(members, i + 1);
        assert(next =~= names.push(member_name(m)));
        assert(open.push(Scope::Object { names: next, pending: None }) =~= named.drop_last().push(
            Scope::Object { names: names.push(member_name(m)), pending: None },
        ));
        lemma_walk_members(s, value + text.len(), open, members, i + 1);
    }
}

proof fn lemma_names(members: Seq<Member>, i: nat)
    requires
        i < members.len(),
    ensures
        names_before(members, i).contains(member_name(members[i as int])) <==> repeats(
            members,
            i as int,
        ),
{
    let names = names_before(members, i);
    let key = member_name(members[i as int]);
    if names.contains(key) {
        let j = choose|j: int| 0 <= j < names.len() && names[j] == key;
        assert(member_name(members[j]) == key);
    }
    if repeats(members, i as int) {
        let j = choose|j: int| 0 <= j < i && member_name(#[trigger] members[j]) == key;
        assert(names[j] == key);
    }
}

/// Over the text of a document the walk finds the document's first repeat.
pub proof fn lemma_repeat_of_document(doc: Doc)
    requires
        is_document(doc),
    ensures
        match repeat_from(doc_text(doc), 0, Seq::empty()) {
            Some(found) => first_repeat(doc) == Some(found.key),
            None => first_repeat(doc) is None,
        },
{
    let s = doc_text(doc);
    assert(s.subrange(0, s.len() as int) =~= s);
    lemma_walk(s, 0, Seq::empty(), doc);
}

} // verus!
