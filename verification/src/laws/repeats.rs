//! Which texts are literals, and how early a repeated name is found.

use vstd::prelude::*;
use crate::bindings::{json_reading, json_string};
use crate::error::Fault;
use crate::parser::document::{
    doc_text, has_repeat, is_boundary, is_document, is_quoted, is_scalar, lemma_at,
    lemma_first_repeat, lemma_skip_filler, lemma_split, lemma_string_end, lemma_walk, member_name,
    members_text, name_text, names_before, repeats, separator, solid_length, Doc, Member,
};
use crate::parser::json::{
    awaits_name, closers, digits_end, holds, json_document, repeat_from, step, string_end,
    with_name, Repeat, Scope, Step,
};
use crate::parser::without_bom;
use crate::text::occurs_at;
use crate::value::Json;

verus! {

/// Whether a text is one digit or more, and nothing else.
pub open spec fn is_digits(s: Seq<char>) -> bool {
    s.len() > 0 && forall|i: int| 0 <= i < s.len() ==> '0' <= #[trigger] s[i] <= '9'
}

/// The fraction of a number: a point and digits, or nothing.
pub open spec fn is_fraction(s: Seq<char>) -> bool {
    s.len() == 0 || s[0] == '.' && is_digits(s.drop_first())
}

/// The exponent of a number: an `e` of either case, a sign or none, and digits;
/// or nothing.
pub open spec fn is_exponent(s: Seq<char>) -> bool {
    s.len() == 0 || (s[0] == 'e' || s[0] == 'E') && (is_digits(s.drop_first()) || s.len() > 1 && (
    s[1] == '+' || s[1] == '-') && is_digits(s.skip(2)))
}

proof fn lemma_digits(s: Seq<char>, from: int, to: int)
    requires
        0 <= from <= to <= s.len(),
        forall|i: int| from <= i < to ==> '0' <= #[trigger] s[i] <= '9',
        to < s.len() ==> !('0' <= s[to] <= '9'),
    ensures
        digits_end(s, from) == to,
    decreases to - from,
{
    if from < to {
        assert('0' <= s[from] <= '9');
        lemma_digits(s, from + 1, to);
    }
}

/// Every number of the JSON grammar is one literal: a minus sign or none, digits,
/// a fraction and an exponent.
pub proof fn numbers_are_literals(
    negative: bool,
    whole: Seq<char>,
    fraction: Seq<char>,
    exponent: Seq<char>,
)
    requires
        is_digits(whole),
        is_fraction(fraction),
        is_exponent(exponent),
    ensures
        is_scalar(
            (if negative {
                seq!['-']
            } else {
                Seq::empty()
            }) + whole + fraction + exponent,
        ),
{
    let sign: Seq<char> = if negative {
        seq!['-']
    } else {
        Seq::empty()
    };
    let s = sign + whole + fraction + exponent;
    let a = sign.len() as int;
    let b = a + whole.len();
    let c = b + fraction.len();
    let n = s.len() as int;
    assert(s.subrange(a, b) =~= whole);
    assert(s.subrange(b, c) =~= fraction);
    assert(s.subrange(c, n) =~= exponent);
    assert forall|i: int| a <= i < b implies '0' <= #[trigger] s[i] <= '9' by {
        assert(s[i] == whole[i - a]);
    }
    if !negative {
        assert(s[0] == whole[0]);
    } else {
        assert(s[0] == '-');
    }
    assert(holds(s, 0, '-') == negative);
    if b < n {
        if fraction.len() > 0 {
            assert(s[b] == fraction[0]);
        } else {
            assert(s[b] == exponent[0]);
        }
    }
    lemma_digits(s, a, b);
    assert(holds(s, b, '.') <==> fraction.len() > 0);
    if c < n {
        assert(s[c] == exponent[0]);
    }
    if fraction.len() > 0 {
        assert forall|i: int| b + 1 <= i < c implies '0' <= #[trigger] s[i] <= '9' by {
            assert(s[i] == fraction.drop_first()[i - b - 1]);
        }
        lemma_digits(s, b + 1, c);
    }
    if exponent.len() > 0 {
        assert(holds(s, c, 'e') || holds(s, c, 'E'));
        assert(exponent.len() > 1 ==> s[c + 1] == exponent[1]);
        if is_digits(exponent.drop_first()) {
            assert(exponent[1] == exponent.drop_first()[0]);
            assert forall|i: int| c + 1 <= i < n implies '0' <= #[trigger] s[i] <= '9' by {
                assert(s[i] == exponent.drop_first()[i - c - 1]);
            }
            lemma_digits(s, c + 1, n);
        } else {
            assert forall|i: int| c + 2 <= i < n implies '0' <= #[trigger] s[i] <= '9' by {
                assert(s[i] == exponent.skip(2)[i - c - 2]);
            }
            lemma_digits(s, c + 2, n);
        }
    } else {
        assert(c == n);
    }
}

/// The text of a string literal's body: each unit a character that is neither a
/// quote nor a backslash, or a backslash with the character that it escapes.
pub open spec fn units_text(units: Seq<Seq<char>>) -> Seq<char>
    decreases units.len(),
{
    if units.len() == 0 {
        Seq::empty()
    } else {
        units[0] + units_text(units.drop_first())
    }
}

/// Whether a text is one unit of a string literal.
pub open spec fn is_unit(unit: Seq<char>) -> bool {
    ||| unit.len() == 1 && unit[0] != '"' && unit[0] != '\\'
    ||| unit.len() == 2 && unit[0] == '\\'
}

/// A text between quotes is one string literal where each quote and each
/// backslash in it is escaped by a backslash of its own.
pub proof fn strings_end_at_the_first_unescaped_quote(units: Seq<Seq<char>>)
    requires
        forall|i: int| 0 <= i < units.len() ==> is_unit(#[trigger] units[i]),
    ensures
        is_quoted(seq!['"'] + units_text(units) + seq!['"']),
{
    let literal = seq!['"'] + units_text(units) + seq!['"'];
    assert(literal.skip(1) =~= units_text(units) + seq!['"']);
    lemma_units(literal, 1, units);
}

proof fn lemma_units(s: Seq<char>, at: int, units: Seq<Seq<char>>)
    requires
        0 <= at <= s.len(),
        s.skip(at) == units_text(units) + seq!['"'],
        forall|i: int| 0 <= i < units.len() ==> is_unit(#[trigger] units[i]),
    ensures
        string_end(s, at) == Some(s.len() as int),
    decreases units.len(),
{
    let tail = s.skip(at);
    assert(tail.len() == s.len() - at);
    assert(tail[0] == s[at]);
    if units.len() > 0 {
        let unit = units[0];
        assert(is_unit(unit));
        let rest = units.drop_first();
        assert forall|i: int| 0 <= i < rest.len() implies is_unit(#[trigger] rest[i]) by {
            assert(rest[i] == units[i + 1]);
        }
        assert(tail == unit + units_text(rest) + seq!['"']);
        assert(tail[0] == unit[0]);
        let next = at + unit.len();
        assert(s.skip(next) =~= tail.skip(unit.len() as int));
        assert(s.skip(next) =~= units_text(rest) + seq!['"']);
        assert(string_end(s, at) == string_end(s, next));
        lemma_units(s, next, rest);
    } else {
        assert(tail =~= seq!['"']);
    }
}

// ---------------------------------------------------------------------------
// Repeats in texts that break off
// ---------------------------------------------------------------------------

/// What an object stands in: a list, or the member of another object that this
/// literal names.
pub enum Level {
    List,
    Field(Seq<char>),
}

/// The text that opens some levels, the outermost first.
pub open spec fn opening(levels: Seq<Level>) -> Seq<char>
    decreases levels.len(),
{
    if levels.len() == 0 {
        Seq::empty()
    } else {
        opening(levels.drop_last()) + match levels.last() {
            Level::List => seq!['['],
            Level::Field(name) => seq!['{'] + name + seq![':'],
        }
    }
}

/// The brackets that close some levels, the innermost first.
pub open spec fn closing(levels: Seq<Level>) -> Seq<char>
    decreases levels.len(),
{
    if levels.len() == 0 {
        Seq::empty()
    } else {
        (match levels.last() {
            Level::List => seq![']'],
            Level::Field(_) => seq!['}'],
        }) + closing(levels.drop_last())
    }
}

/// Whether the names of some levels are string literals.
pub open spec fn are_levels(levels: Seq<Level>) -> bool {
    forall|i: int|
        0 <= i < levels.len() ==> (#[trigger] levels[i] matches Level::Field(name) ==> is_quoted(
            name,
        ) && json_string(name) is Some)
}

spec fn scope_of(level: Level) -> Scope {
    match level {
        Level::List => Scope::Array,
        Level::Field(name) => Scope::Object {
            names: Seq::empty(),
            pending: Some(json_string(name)->Some_0),
        },
    }
}

spec fn scopes_of(levels: Seq<Level>) -> Seq<Scope> {
    Seq::new(levels.len(), |i: int| scope_of(levels[i]))
}

proof fn lemma_closers(levels: Seq<Level>)
    ensures
        closers(scopes_of(levels)) == closing(levels),
    decreases levels.len(),
{
    if levels.len() > 0 {
        lemma_closers(levels.drop_last());
        let open = scopes_of(levels);
        assert(open.drop_last() =~= scopes_of(levels.drop_last()));
        assert(open.last() == scope_of(levels.last()));
    }
}

proof fn lemma_opening(s: Seq<char>, levels: Seq<Level>)
    requires
        are_levels(levels),
        occurs_at(s, opening(levels), 0),
    ensures
        repeat_from(s, 0, Seq::empty()) == repeat_from(
            s,
            opening(levels).len() as int,
            scopes_of(levels),
        ),
        !awaits_name(scopes_of(levels)),
    decreases levels.len(),
{
    if levels.len() == 0 {
        assert(scopes_of(levels) =~= Seq::empty());
    } else {
        let front = levels.drop_last();
        let last = levels.last();
        assert(last == levels[levels.len() - 1]);
        assert(are_levels(front)) by {
            assert forall|i: int| 0 <= i < front.len() implies (#[trigger] front[i] matches Level::Field(
                name,
            ) ==> is_quoted(name) && json_string(name) is Some) by {
                assert(front[i] == levels[i]);
            }
        }
        let text = match last {
            Level::List => seq!['['],
            Level::Field(name) => seq!['{'] + name + seq![':'],
        };
        assert(opening(levels) == opening(front) + text);
        lemma_split(s, 0, opening(front), text);
        lemma_opening(s, front);
        let at = opening(front).len() as int;
        let open = scopes_of(front);
        lemma_at(s, at, text, 0);
        assert(scopes_of(levels) =~= open.push(scope_of(last)));
        match last {
            Level::List => {
                assert(step(s, at, open) == Step::Enter(at + 1, open.push(Scope::Array)));
                assert(repeat_from(s, at, open) == repeat_from(s, at + 1, scopes_of(levels)));
                assert(opening(levels).len() == at + 1);
            },
            Level::Field(name) => {
                let inner = open.push(Scope::Object { names: Seq::empty(), pending: None });
                assert(step(s, at, open) == Step::Enter(at + 1, inner));
                lemma_split(s, at, seq!['{'] + name, seq![':']);
                lemma_split(s, at, seq!['{'], name);
                let quote = at + 1;
                lemma_at(s, quote, name, 0);
                lemma_string_end(s, quote, name, 1);
                let named = with_name(inner, json_string(name)->Some_0);
                assert(awaits_name(inner));
                assert(s.subrange(quote, quote + name.len()) == name);
                assert(step(s, quote, inner) == Step::Enter(quote + name.len(), named));
                lemma_skip_filler(s, quote + name.len(), seq![':'], named);
                assert(inner.drop_last() =~= open);
                assert(named =~= scopes_of(levels));
                assert(repeat_from(s, at, open) == repeat_from(s, quote, inner));
                assert(repeat_from(s, quote, inner) == repeat_from(s, quote + name.len(), named));
                assert(opening(levels).len() == quote + name.len() + 1);
            },
        }
    }
}

proof fn lemma_repeated_member(
    s: Seq<char>,
    at: int,
    open: Seq<Scope>,
    members: Seq<Member>,
    i: nat,
)
    requires
        is_document(Doc::Record { gap: Seq::empty(), members }),
        occurs_at(s, members_text(members, i), at),
        is_boundary(s, at + members_text(members, i).len()),
        i < members.len(),
        forall|k: int|
            #![trigger members[k]]
            0 <= k < members.len() ==> !has_repeat(members[k].value),
        forall|k: int| 0 <= k < members.len() - 1 ==> !#[trigger] repeats(members, k),
        repeats(members, members.len() - 1),
        !(members.last().value is Spaced),
    ensures
        repeat_from(
            s,
            at,
            open.push(Scope::Object { names: names_before(members, i), pending: None }),
        ) == Some(
            Repeat {
                key: member_name(members.last()),
                end: at + members_text(members, i).len(),
                closers: seq!['}'] + closers(open),
            },
        ),
    decreases members.len() - i,
{
    let names = names_before(members, i);
    let inner = open.push(Scope::Object { names, pending: None });
    let m = members[i as int];
    let text = doc_text(m.value);
    let rest = members_text(members, i + 1);
    lemma_split(s, at, separator(i) + name_text(m) + text, rest);
    lemma_split(s, at, separator(i) + name_text(m), text);
    lemma_split(s, at, separator(i), name_text(m));
    let start = at + separator(i).len();
    lemma_split(s, start, m.before + m.name + m.after, seq![':']);
    lemma_split(s, start, m.before + m.name, m.after);
    lemma_split(s, start, m.before, m.name);
    lemma_skip_filler(s, at, separator(i), inner);
    lemma_skip_filler(s, start, m.before, inner);
    let quote = start + m.before.len();
    lemma_at(s, quote, m.name, 0);
    lemma_string_end(s, quote, m.name, 1);
    let named = with_name(inner, member_name(m));
    assert(awaits_name(inner));
    assert(s.subrange(quote, quote + m.name.len()) == m.name);
    assert(step(s, quote, inner) == Step::Enter(quote + m.name.len(), named));
    lemma_skip_filler(s, quote + m.name.len(), m.after, named);
    lemma_skip_filler(s, quote + m.name.len() + m.after.len(), seq![':'], named);
    let value = start + name_text(m).len();
    if i + 1 < members.len() {
        lemma_at(s, value + text.len(), rest, 0);
    }
    lemma_first_repeat(m.value);
    lemma_walk(s, value, named, m.value);
    assert(named.drop_last() =~= open);
    assert(names.contains(member_name(m)) <==> repeats(members, i as int)) by {
        if names.contains(member_name(m)) {
            let j = choose|j: int| 0 <= j < names.len() && names[j] == member_name(m);
            assert(member_name(members[j]) == member_name(m));
        }
        if repeats(members, i as int) {
            let j = choose|j: int|
                0 <= j < i && member_name(#[trigger] members[j]) == member_name(m);
            assert(names[j] == member_name(m));
        }
    }
    if i + 1 < members.len() {
        assert(!repeats(members, i as int));
        let next = names_before(members, i + 1);
        assert(next =~= names.push(member_name(m)));
        assert(open.push(Scope::Object { names: next, pending: None }) =~= named.drop_last().push(
            Scope::Object { names: names.push(member_name(m)), pending: None },
        ));
        lemma_repeated_member(s, value + text.len(), open, members, i + 1);
    } else {
        assert(rest.len() == 0);
        assert(solid_length(m.value) == text.len());
        assert(closers(named) == seq!['}'] + closers(open));
    }
}

/// A repeated name is reported whatever follows the repeated member: where the
/// text up to the end of that member, with every open bracket closed, is a
/// document, the text is refused for the name, also if it breaks off or goes wrong
/// later. The object may stand at any depth in lists and other objects.
pub proof fn repeats_are_found_before_later_faults(
    levels: Seq<Level>,
    members: Seq<Member>,
    rest: Seq<char>,
    input: Seq<char>,
)
    requires
        are_levels(levels),
        members.len() > 0,
        is_document(Doc::Record { gap: Seq::empty(), members }),
        forall|k: int|
            #![trigger members[k]]
            0 <= k < members.len() ==> !has_repeat(members[k].value),
        forall|k: int| 0 <= k < members.len() - 1 ==> !#[trigger] repeats(members, k),
        repeats(members, members.len() - 1),
        !(members.last().value is Spaced),
        is_boundary(rest, 0),
        without_bom(input) == opening(levels) + seq!['{'] + members_text(members, 0) + rest,
        json_reading(
            opening(levels) + seq!['{'] + members_text(members, 0) + seq!['}'] + closing(levels),
        ) is Ok,
    ensures
        json_document(input) == Err::<Json, Fault>(
            Fault::DuplicateKey { key: member_name(members.last()) },
        ),
{
    let s = without_bom(input);
    let body = members_text(members, 0);
    let open = scopes_of(levels);
    let start = opening(levels).len() as int;
    assert(s.subrange(0, s.len() as int) =~= s);
    assert(occurs_at(s, s, 0));
    lemma_split(s, 0, opening(levels) + seq!['{'] + body, rest);
    lemma_split(s, 0, opening(levels) + seq!['{'], body);
    lemma_split(s, 0, opening(levels), seq!['{']);
    lemma_opening(s, levels);
    lemma_at(s, start, seq!['{'], 0);
    let names = names_before(members, 0);
    assert(names =~= Seq::empty());
    let inner = open.push(Scope::Object { names, pending: None });
    assert(step(s, start, open) == Step::Enter(start + 1, inner));
    let end = start + 1 + body.len();
    if end < s.len() {
        assert(s[end] == rest[0]);
    }
    lemma_repeated_member(s, start + 1, open, members, 0);
    lemma_closers(levels);
    let cut = opening(levels) + seq!['{'] + body;
    assert(s.take(end) =~= cut);
    assert(cut + (seq!['}'] + closing(levels)) =~= cut + seq!['}'] + closing(levels));
}

} // verus!
