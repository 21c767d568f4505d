//! The compact JSON text of a tree, and that the parser's walk over it finds no
//! repeated name.

use vstd::prelude::*;
use crate::bindings::json_string;
use crate::fidelity::well_keyed;
use crate::number::{decimal, is_digit, lemma_decimal_reads_back, signed_decimal};
use crate::parser::document::{
    goes_on, is_boundary, is_quoted, is_scalar, lemma_at, lemma_scalar_end, lemma_skip_filler,
    lemma_split, lemma_string_end, separator,
};
use crate::parser::json::{
    awaits_name, digits_end, holds, number_end, repeat_from, settle, step, string_end, with_name,
    Scope, Step,
};
use crate::server::identity::hex_char;
use crate::text::occurs_at;
use crate::value::{Json, Num};

verus! {

// ---------------------------------------------------------------------------
// The text
// ---------------------------------------------------------------------------

/// A character inside a string literal. Quotes, backslashes and control
/// characters are escaped.
pub open spec fn escaped(c: char) -> Seq<char> {
    if c == '"' || c == '\\' {
        seq!['\\', c]
    } else if c == '\u{8}' {
        seq!['\\', 'b']
    } else if c == '\t' {
        seq!['\\', 't']
    } else if c == '\n' {
        seq!['\\', 'n']
    } else if c == '\u{c}' {
        seq!['\\', 'f']
    } else if c == '\r' {
        seq!['\\', 'r']
    } else if c <= '\u{1f}' {
        seq!['\\', 'u', '0', '0', hex_char(c as u32 as nat / 16), hex_char(c as u32 as nat % 16)]
    } else {
        seq![c]
    }
}

/// A text inside a string literal.
pub open spec fn escaped_text(s: Seq<char>) -> Seq<char>
    decreases s.len(),
{
    if s.len() == 0 {
        Seq::empty()
    } else {
        escaped(s[0]) + escaped_text(s.drop_first())
    }
}

/// The string literal of a text.
pub open spec fn quoted(s: Seq<char>) -> Seq<char> {
    seq!['"'] + escaped_text(s) + seq!['"']
}

/// The compact JSON text of a tree: no white space, members in order.
pub open spec fn compact(v: Json) -> Seq<char>
    decreases v,
{
    match v {
        Json::Null => "null"@,
        Json::Bool(b) => if b {
            "true"@
        } else {
            "false"@
        },
        Json::Number(Num::PosInt(n)) => decimal(n as nat),
        Json::Number(Num::NegInt(i)) => signed_decimal(i as int),
        Json::Number(Num::Float(text)) => text,
        Json::String(s) => quoted(s),
        Json::Array(items) => seq!['['] + compact_items(items, 0) + seq![']'],
        Json::Object(members) => seq!['{'] + compact_members(members, 0) + seq!['}'],
    }
}

/// The text of the items from `i` on.
pub open spec fn compact_items(items: Seq<Json>, i: nat) -> Seq<char>
    decreases items, items.len() - i,
{
    if i >= items.len() {
        Seq::empty()
    } else {
        separator(i) + compact(items[i as int]) + compact_items(items, i + 1)
    }
}

/// The text of the members from `i` on.
pub open spec fn compact_members(members: Seq<(Seq<char>, Json)>, i: nat) -> Seq<char>
    decreases members, members.len() - i,
{
    if i >= members.len() {
        Seq::empty()
    } else {
        separator(i) + quoted(members[i as int].0) + seq![':'] + compact(members[i as int].1)
            + compact_members(members, i + 1)
    }
}

/// Whether a tree holds integers only, each in its one form, and nests at most
/// `depth` containers.
pub open spec fn is_integral(v: Json, depth: nat) -> bool
    decreases v,
{
    match v {
        Json::Number(Num::NegInt(i)) => i < 0,
        Json::Number(Num::Float(_)) => false,
        Json::Array(items) => depth > 0 && forall|i: int|
            #![trigger items[i]]
            0 <= i < items.len() ==> is_integral(items[i], (depth - 1) as nat),
        Json::Object(members) => depth > 0 && forall|i: int|
            #![trigger members[i]]
            0 <= i < members.len() ==> is_integral(members[i].1, (depth - 1) as nat),
        _ => true,
    }
}

/// Whether a tree keeps its value in compact JSON: integers only, no repeated
/// name, and a nesting below 128.
pub open spec fn is_plain_tree(v: Json) -> bool {
    well_keyed(v) && is_integral(v, 127)
}

/// Whether `reading` is the tree that `text` is the compact text of, should
/// there be one.
pub open spec fn reads_compact(reading: Result<Json, Seq<char>>, text: Seq<char>) -> bool {
    forall|v: Json| #[trigger]
        is_plain_tree(v) && text == compact(v) ==> reading == Ok::<Json, Seq<char>>(v)
}

/// Whether `denoted` is the text that `literal` is the string literal of, should
/// there be one.
pub open spec fn denotes(denoted: Option<Seq<char>>, literal: Seq<char>) -> bool {
    forall|s: Seq<char>| #[trigger] quoted(s) == literal ==> denoted == Some(s)
}

// ---------------------------------------------------------------------------
// The walk over it
// ---------------------------------------------------------------------------

/// Whether a member's name at `at` was read as what it denotes.
pub open spec fn name_is_read(s: Seq<char>, at: int, open: Seq<Scope>) -> bool {
    s[at] == '"' && awaits_name(open) ==> match string_end(s, at + 1) {
        Some(end) => denotes(json_string(s.subrange(at, end)), s.subrange(at, end)),
        None => true,
    }
}

/// Whether each name that the walk passes from `at` on was read as what it
/// denotes.
pub open spec fn names_are_read(s: Seq<char>, at: int, open: Seq<Scope>) -> bool
    decreases s.len() - at,
{
    if at < 0 || at >= s.len() {
        true
    } else {
        name_is_read(s, at, open) && match step(s, at, open) {
            Step::Stop => true,
            Step::Enter(next, scopes) => at < next <= s.len() ==> names_are_read(s, next, scopes),
            Step::Value(next, scopes) => at < next <= s.len() ==> match settle(scopes) {
                Ok(settled) => names_are_read(s, next, settled),
                Err(_) => true,
            },
        }
    }
}

/// The digits of an escaped control character are no quote and no backslash.
proof fn lemma_control(c: char)
    requires
        c <= '\u{1f}',
    ensures
        hex_char(c as u32 as nat / 16) == '0' || hex_char(c as u32 as nat / 16) == '1',
        is_digit(hex_char(c as u32 as nat % 16)) || 'a' <= hex_char(c as u32 as nat % 16) <= 'f',
{
    let high = c as u32 as nat / 16;
    assert(high == 0 || high == 1);
    assert(hex_char(0) == '0' && hex_char(1) == '1');
}

proof fn lemma_escaped_end(literal: Seq<char>, at: int, s: Seq<char>)
    requires
        occurs_at(literal, escaped_text(s) + seq!['"'], at),
    ensures
        string_end(literal, at) == Some(at + escaped_text(s).len() + 1),
    decreases s.len(),
{
    if s.len() == 0 {
        assert(escaped_text(s) + seq!['"'] =~= seq!['"']);
        lemma_at(literal, at, seq!['"'], 0);
    } else {
        let first = escaped(s[0]);
        let rest = escaped_text(s.drop_first()) + seq!['"'];
        assert(escaped_text(s) + seq!['"'] =~= first + rest);
        lemma_split(literal, at, first, rest);
        lemma_escaped_end(literal, at + first.len(), s.drop_first());
        lemma_at(literal, at, first, 0);
        if first.len() == 6 {
            lemma_at(literal, at, first, 1);
            lemma_at(literal, at, first, 2);
            lemma_at(literal, at, first, 3);
            lemma_at(literal, at, first, 4);
            lemma_at(literal, at, first, 5);
            lemma_control(s[0]);
            assert(string_end(literal, at + 5) == string_end(literal, at + 6));
            assert(string_end(literal, at + 4) == string_end(literal, at + 5));
            assert(string_end(literal, at + 3) == string_end(literal, at + 4));
            assert(string_end(literal, at + 2) == string_end(literal, at + 3));
        }
    }
}

proof fn lemma_quoted(s: Seq<char>)
    ensures
        is_quoted(quoted(s)),
{
    let literal = quoted(s);
    let rest = escaped_text(s) + seq!['"'];
    assert(literal =~= seq!['"'] + rest);
    assert(literal.subrange(1, 1int + rest.len()) =~= rest);
    lemma_escaped_end(literal, 1, s);
}

proof fn lemma_all_digits_end(s: Seq<char>, at: int)
    requires
        0 <= at <= s.len(),
        forall|i: int| at <= i < s.len() ==> is_digit(#[trigger] s[i]),
    ensures
        digits_end(s, at) == s.len(),
    decreases s.len() - at,
{
    if at < s.len() {
        assert(is_digit(s[at]));
        lemma_all_digits_end(s, at + 1);
    }
}

proof fn lemma_integer_literal(i: int)
    ensures
        is_scalar(signed_decimal(i)),
{
    let magnitude = if i < 0 {
        (-i) as nat
    } else {
        i as nat
    };
    lemma_decimal_reads_back(magnitude);
    let digits = decimal(magnitude);
    let text = signed_decimal(i);
    let start = if i < 0 {
        1
    } else {
        0
    };
    assert forall|k: int| start <= k < text.len() implies is_digit(#[trigger] text[k]) by {
        assert(text[k] == digits[k - start]);
    }
    lemma_all_digits_end(text, start);
    if i >= 0 {
        assert(is_digit(text[0]));
    }
    assert(holds(text, 0, '-') == (i < 0));
    assert(number_end(text, 0) == text.len());
}

/// Whether the walk over a value that ends at `at` goes on there, with the names
/// behind it read.
spec fn passes(s: Seq<char>, from: int, at: int, open: Seq<Scope>) -> bool {
    &&& goes_on(s, at, open, repeat_from(s, from, open))
    &&& settle(open) matches Ok(settled) ==> names_are_read(s, at, settled)
}

proof fn lemma_passes(s: Seq<char>, at: int, open: Seq<Scope>, v: Json, depth: nat)
    requires
        well_keyed(v),
        is_integral(v, depth),
        occurs_at(s, compact(v), at),
        is_boundary(s, at + compact(v).len()),
        !awaits_name(open),
        names_are_read(s, at, open),
    ensures
        passes(s, at, at + compact(v).len(), open),
    decreases v, 0nat,
{
    let text = compact(v);
    let end = at + text.len();
    match v {
        Json::Null => {
            lemma_scalar_end(s, at, text);
            assert(step(s, at, open) == Step::Value(end, open));
            reveal_strlit("null");
        },
        Json::Bool(_) => {
            lemma_scalar_end(s, at, text);
            assert(step(s, at, open) == Step::Value(end, open));
            reveal_strlit("true");
            reveal_strlit("false");
        },
        Json::Number(n) => {
            match n {
                Num::PosInt(u) => {
                    lemma_integer_literal(u as int);
                    assert(signed_decimal(u as int) == text);
                },
                Num::NegInt(i) => {
                    lemma_integer_literal(i as int);
                },
                Num::Float(_) => {},
            }
            lemma_integer_nonempty(text);
            lemma_scalar_end(s, at, text);
            assert(step(s, at, open) == Step::Value(end, open));
        },
        Json::String(t) => {
            lemma_quoted(t);
            lemma_at(s, at, text, 0);
            lemma_string_end(s, at, text, 1);
            assert(step(s, at, open) == Step::Value(end, open));
        },
        Json::Array(items) => {
            let body = compact_items(items, 0);
            lemma_split(s, at, seq!['['] + body, seq![']']);
            lemma_split(s, at, seq!['['], body);
            lemma_at(s, at, seq!['['], 0);
            lemma_at(s, at + (seq!['['] + body).len(), seq![']'], 0);
            assert(step(s, at, open) == Step::Enter(at + 1, open.push(Scope::Array)));
            lemma_items_pass(s, at + 1, open, items, 0, (depth - 1) as nat);
        },
        Json::Object(members) => {
            let body = compact_members(members, 0);
            lemma_split(s, at, seq!['{'] + body, seq!['}']);
            lemma_split(s, at, seq!['{'], body);
            lemma_at(s, at, seq!['{'], 0);
            lemma_at(s, at + (seq!['{'] + body).len(), seq!['}'], 0);
            let names = first_names(members, 0);
            assert(names =~= Seq::empty());
            assert(step(s, at, open) == Step::Enter(
                at + 1,
                open.push(Scope::Object { names, pending: None }),
            ));
            assert(v == Json::Object(members));
            lemma_members_pass(s, at + 1, open, members, 0, (depth - 1) as nat);
        },
    }
}

proof fn lemma_integer_nonempty(literal: Seq<char>)
    requires
        is_scalar(literal),
    ensures
        literal.len() > 0,
{
    reveal_strlit("true");
    reveal_strlit("false");
    reveal_strlit("null");
}

proof fn lemma_items_pass(
    s: Seq<char>,
    at: int,
    open: Seq<Scope>,
    items: Seq<Json>,
    i: nat,
    depth: nat,
)
    requires
        forall|k: int|
            #![trigger items[k]]
            0 <= k < items.len() ==> well_keyed(items[k]) && is_integral(items[k], depth),
        occurs_at(s, compact_items(items, i), at),
        holds(s, at + compact_items(items, i).len(), ']'),
        names_are_read(s, at, open.push(Scope::Array)),
    ensures
        ({
            let end = at + compact_items(items, i).len() + 1;
            &&& goes_on(s, end, open, repeat_from(s, at, open.push(Scope::Array)))
            &&& settle(open) matches Ok(settled) ==> names_are_read(s, end, settled)
        }),
    decreases items, items.len() - i,
{
    let inner = open.push(Scope::Array);
    if i >= items.len() {
        assert(inner.drop_last() =~= open);
        assert(step(s, at, inner) == Step::Value(at + 1, open));
    } else {
        let item = items[i as int];
        let text = compact(item);
        let rest = compact_items(items, i + 1);
        lemma_split(s, at, separator(i) + text, rest);
        lemma_split(s, at, separator(i), text);
        lemma_skip_filler(s, at, separator(i), inner);
        lemma_skip_names(s, at, separator(i), inner);
        let start = at + separator(i).len();
        if i + 1 < items.len() {
            lemma_at(s, start + text.len(), rest, 0);
        }
        lemma_passes(s, start, inner, item, depth);
        lemma_items_pass(s, start + text.len(), open, items, i + 1, depth);
    }
}

/// The names of the first `n` members.
spec fn first_names(members: Seq<(Seq<char>, Json)>, n: nat) -> Seq<Seq<char>> {
    Seq::new(n, |i: int| members[i].0)
}

/// Skipping a separator or colon passes no name.
proof fn lemma_skip_names(s: Seq<char>, at: int, gap: Seq<char>, open: Seq<Scope>)
    requires
        occurs_at(s, gap, at),
        gap == Seq::<char>::empty() || gap == seq![','] || gap == seq![':'],
        names_are_read(s, at, open),
    ensures
        names_are_read(s, at + gap.len(), open),
{
    if gap.len() > 0 {
        lemma_at(s, at, gap, 0);
        assert(step(s, at, open) == Step::Enter(at + 1, open));
    }
}

proof fn lemma_members_pass(
    s: Seq<char>,
    at: int,
    open: Seq<Scope>,
    members: Seq<(Seq<char>, Json)>,
    i: nat,
    depth: nat,
)
    requires
        i <= members.len(),
        forall|j: int, k: int|
            0 <= j < k < members.len() ==> (#[trigger] members[j]).0 != (#[trigger] members[k]).0,
        forall|k: int|
            #![trigger members[k]]
            0 <= k < members.len() ==> well_keyed(members[k].1) && is_integral(
                members[k].1,
                depth,
            ),
        occurs_at(s, compact_members(members, i), at),
        holds(s, at + compact_members(members, i).len(), '}'),
        names_are_read(
            s,
            at,
            open.push(Scope::Object { names: first_names(members, i), pending: None }),
        ),
    ensures
        ({
            let end = at + compact_members(members, i).len() + 1;
            let inner = open.push(Scope::Object { names: first_names(members, i), pending: None });
            &&& goes_on(s, end, open, repeat_from(s, at, inner))
            &&& settle(open) matches Ok(settled) ==> names_are_read(s, end, settled)
        }),
    decreases members, members.len() - i,
{
    let names = first_names(members, i);
    let inner = open.push(Scope::Object { names, pending: None });
    if i >= members.len() {
        assert(inner.drop_last() =~= open);
        assert(step(s, at, inner) == Step::Value(at + 1, open));
    } else {
        let (name, value) = members[i as int];
        let literal = quoted(name);
        let text = compact(value);
        let rest = compact_members(members, i + 1);
        lemma_split(s, at, separator(i) + literal + seq![':'] + text, rest);
        lemma_split(s, at, separator(i) + literal + seq![':'], text);
        lemma_split(s, at, separator(i) + literal, seq![':']);
        lemma_split(s, at, separator(i), literal);
        lemma_skip_filler(s, at, separator(i), inner);
        lemma_skip_names(s, at, separator(i), inner);
        let quote = at + separator(i).len();
        lemma_quoted(name);
        lemma_at(s, quote, literal, 0);
        lemma_string_end(s, quote, literal, 1);
        let colon = quote + literal.len();
        let named = with_name(inner, name);
        assert(awaits_name(inner));
        assert(name_is_read(s, quote, inner));
        assert(quoted(name) == s.subrange(quote, colon));
        assert(step(s, quote, inner) == Step::Enter(colon, named));
        lemma_skip_filler(s, colon, seq![':'], named);
        lemma_skip_names(s, colon, seq![':'], named);
        let start = colon + 1;
        if i + 1 < members.len() {
            lemma_at(s, start + text.len(), rest, 0);
        }
        lemma_passes(s, start, named, value, depth);
        assert(named.drop_last() =~= open);
        assert(!names.contains(name)) by {
            if names.contains(name) {
                let j = choose|j: int| 0 <= j < names.len() && names[j] == name;
                assert(members[j].0 != members[i as int].0);
            }
        }
        let next = first_names(members, i + 1);
        assert(next =~= names.push(name));
        assert(open.push(Scope::Object { names: next, pending: None }) =~= named.drop_last().push(
            Scope::Object { names: names.push(name), pending: None },
        ));
        lemma_members_pass(s, start + text.len(), open, members, i + 1, depth);
    }
}

/// The walk over the compact text of a tree finds no repeated name, where each
/// name that it passes is read as what it denotes.
pub proof fn lemma_compact_has_no_repeat(v: Json)
    requires
        is_plain_tree(v),
        names_are_read(compact(v), 0, Seq::empty()),
    ensures
        repeat_from(compact(v), 0, Seq::empty()) is None,
{
    let s = compact(v);
    assert(s.subrange(0, s.len() as int) =~= s);
    lemma_passes(s, 0, Seq::empty(), v, 127);
}

} // verus!
