//! JSON with rejection of repeated object keys.

use vstd::prelude::*;
use crate::bindings::{json_reading, json_string, read_json, read_json_string};
use crate::detector::opens_container;
use crate::error::{CoreError, Fault};
use crate::number::{digit, is_digit};
use crate::parser::compact::{compact, is_plain_tree, lemma_compact_has_no_repeat, names_are_read};
use crate::parser::{strip_bom, without_bom, Parser};
use crate::text::{chars_of, matches_at, occurs_at, same_text, text_between, texts};
use crate::value::{Json, JsonValue};

verus! {

/// A container that is still open at some place of a document.
pub enum Scope {
    /// An array.
    Array,
    /// An object: the names of its complete members, and the name of the member
    /// whose value is awaited.
    Object { names: Seq<Seq<char>>, pending: Option<Seq<char>> },
}

/// The first member of a document whose name its object already holds.
pub struct Repeat {
    /// The repeated name.
    pub key: Seq<char>,
    /// Where the member's value ends.
    pub end: int,
    /// The brackets that close what is open there, innermost first.
    pub closers: Seq<char>,
}

/// The brackets that close the open scopes, innermost first.
pub open spec fn closers(open: Seq<Scope>) -> Seq<char>
    decreases open.len(),
{
    if open.len() == 0 {
        Seq::empty()
    } else {
        seq![
            match open.last() {
                Scope::Array => ']',
                Scope::Object { .. } => '}',
            },
        ] + closers(open.drop_last())
    }
}

/// End of the string literal whose body goes on at `at`: the index after the
/// first quote that no backslash escapes.
pub open spec fn string_end(s: Seq<char>, at: int) -> Option<int>
    decreases s.len() - at,
{
    if at < 0 || at >= s.len() {
        None
    } else if s[at] == '\\' {
        if at + 1 < s.len() {
            string_end(s, at + 2)
        } else {
            None
        }
    } else if s[at] == '"' {
        Some(at + 1)
    } else {
        string_end(s, at + 1)
    }
}

/// End of the digit run that starts at `at`.
pub open spec fn digits_end(s: Seq<char>, at: int) -> int
    decreases s.len() - at,
{
    if 0 <= at < s.len() && is_digit(s[at]) {
        digits_end(s, at + 1)
    } else {
        at
    }
}

/// Whether `s[at]` is `c`.
pub open spec fn holds(s: Seq<char>, at: int, c: char) -> bool {
    0 <= at < s.len() && s[at] == c
}

/// End of the number literal that starts at `at`.
pub open spec fn number_end(s: Seq<char>, at: int) -> int {
    let whole = digits_end(
        s,
        if holds(s, at, '-') {
            at + 1
        } else {
            at
        },
    );
    let fraction = if holds(s, whole, '.') {
        digits_end(s, whole + 1)
    } else {
        whole
    };
    if holds(s, fraction, 'e') || holds(s, fraction, 'E') {
        digits_end(
            s,
            if holds(s, fraction + 1, '+') || holds(s, fraction + 1, '-') {
                fraction + 2
            } else {
                fraction + 1
            },
        )
    } else {
        fraction
    }
}

/// End of the number or word literal that starts at `at`.
pub open spec fn scalar_end(s: Seq<char>, at: int) -> Option<int> {
    if occurs_at(s, "true"@, at) {
        Some(at + 4)
    } else if occurs_at(s, "false"@, at) {
        Some(at + 5)
    } else if occurs_at(s, "null"@, at) {
        Some(at + 4)
    } else if number_end(s, at) > at {
        Some(number_end(s, at))
    } else {
        None
    }
}

/// Whether `c` carries no value: white space or a separator.
pub open spec fn is_filler(c: char) -> bool {
    c == ' ' || c == '\t' || c == '\n' || c == '\r' || c == ',' || c == ':'
}

/// Whether a string that starts here is the name of a member.
pub open spec fn awaits_name(open: Seq<Scope>) -> bool {
    open.len() > 0 && (open.last() matches Scope::Object { pending, .. } && pending is None)
}

/// The innermost object with `key` as the name of its next member.
pub open spec fn with_name(open: Seq<Scope>, key: Seq<char>) -> Seq<Scope> {
    match open.last() {
        Scope::Object { names, .. } => open.drop_last().push(
            Scope::Object { names, pending: Some(key) },
        ),
        Scope::Array => open,
    }
}

/// What the end of a value means for the innermost scope: the scopes with the
/// awaited member complete, or the member's name where the object has it.
pub open spec fn settle(open: Seq<Scope>) -> Result<Seq<Scope>, Seq<char>> {
    if open.len() == 0 {
        Ok(open)
    } else {
        match open.last() {
            Scope::Object { names, pending: Some(key) } => if names.contains(key) {
                Err(key)
            } else {
                Ok(
                    open.drop_last().push(
                        Scope::Object { names: names.push(key), pending: None },
                    ),
                )
            },
            _ => Ok(open),
        }
    }
}

/// One step of the walk over a document.
pub enum Step {
    /// The walk goes on at this place with these scopes.
    Enter(int, Seq<Scope>),
    /// A value ended at this place; these scopes are open.
    Value(int, Seq<Scope>),
    /// The text breaks off or is no JSON from here on.
    Stop,
}

/// The token at `at` and what it does to the open scopes.
pub open spec fn step(s: Seq<char>, at: int, open: Seq<Scope>) -> Step {
    let c = s[at];
    if is_filler(c) {
        Step::Enter(at + 1, open)
    } else if c == '{' {
        Step::Enter(at + 1, open.push(Scope::Object { names: Seq::empty(), pending: None }))
    } else if c == '[' {
        Step::Enter(at + 1, open.push(Scope::Array))
    } else if c == '}' || c == ']' {
        if open.len() == 0 {
            Step::Stop
        } else {
            Step::Value(at + 1, open.drop_last())
        }
    } else if c == '"' {
        match string_end(s, at + 1) {
            None => Step::Stop,
            Some(end) => if awaits_name(open) {
                match json_string(s.subrange(at, end)) {
                    None => Step::Stop,
                    Some(key) => Step::Enter(end, with_name(open, key)),
                }
            } else {
                Step::Value(end, open)
            },
        }
    } else {
        match scalar_end(s, at) {
            None => Step::Stop,
            Some(end) => Step::Value(end, open),
        }
    }
}

/// The first repeated member at or after `at`, with `open` the scopes open
/// there.
pub open spec fn repeat_from(s: Seq<char>, at: int, open: Seq<Scope>) -> Option<Repeat>
    decreases s.len() - at,
{
    if at < 0 || at >= s.len() {
        None
    } else {
        match step(s, at, open) {
            Step::Stop => None,
            Step::Enter(next, scopes) => if at < next <= s.len() {
                repeat_from(s, next, scopes)
            } else {
                None
            },
            Step::Value(next, scopes) => if at < next <= s.len() {
                match settle(scopes) {
                    Ok(settled) => repeat_from(s, next, settled),
                    Err(key) => Some(Repeat { key, end: next, closers: closers(scopes) }),
                }
            } else {
                None
            },
        }
    }
}

/// What the JSON parser makes of a text. A member whose name its object already
/// holds fails the parse as soon as its value ends, provided that the text is
/// JSON up to there or as a whole; any other fault is the reader's own.
pub open spec fn json_document(input: Seq<char>) -> Result<Json, Fault> {
    let s = without_bom(input);
    match repeat_from(s, 0, Seq::empty()) {
        Some(repeat) if json_reading(s) is Ok || json_reading(
            s.take(repeat.end) + repeat.closers,
        ) is Ok => Err(Fault::DuplicateKey { key: repeat.key }),
        _ => match json_reading(s) {
            Ok(v) => Ok(v),
            Err(m) => Err(Fault::JsonError(m)),
        },
    }
}

/// Executable form of a [`Scope`].
enum OpenScope {
    Array,
    Object(Vec<String>, Option<String>),
}

impl View for OpenScope {
    type V = Scope;

    closed spec fn view(&self) -> Scope {
        match self {
            OpenScope::Array => Scope::Array,
            OpenScope::Object(names, pending) => Scope::Object {
                names: texts(names@),
                pending: match pending {
                    Some(key) => Some(key@),
                    None => None,
                },
            },
        }
    }
}

/// The models of a stack of scopes.
spec fn scopes(open: Seq<OpenScope>) -> Seq<Scope> {
    open.map_values(|o: OpenScope| o@)
}

/// Finds [`string_end`].
fn find_string_end(chars: &Vec<char>, from: usize) -> (r: Option<usize>)
    requires
        from <= chars@.len(),
    ensures
        match r {
            Some(end) => string_end(chars@, from as int) == Some(end as int) && from < end
                <= chars@.len(),
            None => string_end(chars@, from as int) is None,
        },
{
    let mut at: usize = from;
    while at < chars.len()
        invariant
            from <= at <= chars@.len(),
            string_end(chars@, at as int) == string_end(chars@, from as int),
        decreases chars@.len() - at,
    {
        if chars[at] == '\\' {
            if chars.len() - at < 2 {
                return None;
            }
            at = at + 2;
        } else if chars[at] == '"' {
            return Some(at + 1);
        } else {
            at = at + 1;
        }
    }
    None
}

/// Finds [`digits_end`].
fn find_digits_end(chars: &Vec<char>, from: usize) -> (r: usize)
    requires
        from <= chars@.len(),
    ensures
        r == digits_end(chars@, from as int),
        from <= r <= chars@.len(),
{
    let mut at: usize = from;
    while at < chars.len() && digit(chars[at])
        invariant
            from <= at <= chars@.len(),
            digits_end(chars@, at as int) == digits_end(chars@, from as int),
        decreases chars@.len() - at,
    {
        at = at + 1;
    }
    at
}

/// Decides [`holds`].
fn is_at(chars: &Vec<char>, at: usize, c: char) -> (r: bool)
    ensures
        r == holds(chars@, at as int, c),
{
    at < chars.len() && chars[at] == c
}

/// Finds [`number_end`].
fn find_number_end(chars: &Vec<char>, from: usize) -> (r: usize)
    requires
        from < chars.len(),
    ensures
        r == number_end(chars@, from as int),
        from <= r <= chars@.len(),
{
    let start: usize = if is_at(chars, from, '-') {
        from + 1
    } else {
        from
    };
    let whole = find_digits_end(chars, start);
    let fraction: usize = if is_at(chars, whole, '.') {
        find_digits_end(chars, whole + 1)
    } else {
        whole
    };
    if is_at(chars, fraction, 'e') || is_at(chars, fraction, 'E') {
        let sign: usize = fraction + 1;
        if is_at(chars, sign, '+') || is_at(chars, sign, '-') {
            find_digits_end(chars, sign + 1)
        } else {
            find_digits_end(chars, sign)
        }
    } else {
        fraction
    }
}

/// Finds [`scalar_end`].
fn find_scalar_end(chars: &Vec<char>, from: usize) -> (r: Option<usize>)
    requires
        from < chars.len(),
    ensures
        match r {
            Some(end) => scalar_end(chars@, from as int) == Some(end as int) && from < end
                <= chars@.len(),
            None => scalar_end(chars@, from as int) is None,
        },
{
    proof {
        reveal_strlit("true");
        reveal_strlit("false");
        reveal_strlit("null");
    }
    if matches_at(chars, &chars_of("true"), from) {
        return Some(from + 4);
    }
    if matches_at(chars, &chars_of("false"), from) {
        return Some(from + 5);
    }
    if matches_at(chars, &chars_of("null"), from) {
        return Some(from + 4);
    }
    let end = find_number_end(chars, from);
    if end > from {
        Some(end)
    } else {
        None
    }
}

/// Whether `key` is among `names`.
fn has_name(names: &Vec<String>, key: &str) -> (r: bool)
    ensures
        r == texts(names@).contains(key@),
{
    let ghost all = texts(names@);
    let mut i: usize = 0;
    while i < names.len()
        invariant
            0 <= i <= names@.len(),
            all == texts(names@),
            forall|j: int| 0 <= j < i ==> all[j] != key@,
        decreases names@.len() - i,
    {
        assert(all[i as int] == names@[i as int]@);
        if same_text(names[i].as_str(), key) {
            return true;
        }
        i = i + 1;
    }
    false
}

/// Writes [`closers`].
fn closing_brackets(open: &Vec<OpenScope>) -> (r: String)
    ensures
        r@ == closers(scopes(open@)),
{
    let ghost all = scopes(open@);
    let mut out = String::new();
    let mut left: usize = open.len();
    assert(all.take(left as int) =~= all);
    while left > 0
        invariant
            0 <= left <= open@.len(),
            all == scopes(open@),
            out@ + closers(all.take(left as int)) == closers(all),
        decreases left,
    {
        let ghost part = all.take(left as int);
        let ghost before = out@;
        assert(part.last() == open@[left - 1]@);
        assert(part.drop_last() =~= all.take(left - 1));
        match &open[left - 1] {
            OpenScope::Array => out.push(']'),
            OpenScope::Object(_, _) => out.push('}'),
        }
        assert(out@ + closers(part.drop_last()) =~= before + closers(part));
        left = left - 1;
    }
    assert(out@ =~= closers(all));
    out
}

/// Executable form of a [`Repeat`].
struct FoundRepeat {
    key: String,
    end: usize,
    closers: String,
}

/// Finds the first repeated member of a document.
fn find_repeat(chars: &Vec<char>) -> (r: Option<FoundRepeat>)
    ensures
        match r {
            Some(found) => {
                &&& found.end <= chars@.len()
                &&& repeat_from(chars@, 0, Seq::empty()) == Some(
                    Repeat { key: found.key@, end: found.end as int, closers: found.closers@ },
                )
            },
            None => repeat_from(chars@, 0, Seq::empty()) is None,
        },
        names_are_read(chars@, 0, Seq::empty()),
{
    let ghost all = chars@;
    let mut open: Vec<OpenScope> = Vec::new();
    let mut at: usize = 0;
    assert(scopes(open@) =~= Seq::empty());
    while at < chars.len()
        invariant
            0 <= at <= chars@.len(),
            all == chars@,
            repeat_from(all, at as int, scopes(open@)) == repeat_from(all, 0, Seq::empty()),
            names_are_read(all, at as int, scopes(open@)) ==> names_are_read(all, 0, Seq::empty()),
        decreases chars@.len() - at,
    {
        let c = chars[at];
        let ghost before = scopes(open@);
        let ghost here = at as int;
        let mut ends_value = false;
        if c == ' ' || c == '\t' || c == '\n' || c == '\r' || c == ',' || c == ':' {
            at = at + 1;
        } else if c == '{' {
            let scope = OpenScope::Object(Vec::new(), None);
            assert(scope@->names =~= Seq::empty());
            open.push(scope);
            assert(scopes(open@) =~= before.push(scope@));
            at = at + 1;
        } else if c == '[' {
            open.push(OpenScope::Array);
            assert(scopes(open@) =~= before.push(Scope::Array));
            at = at + 1;
        } else if c == '}' || c == ']' {
            match open.pop() {
                None => {
                    return None;
                },
                Some(_) => {
                    assert(scopes(open@) =~= before.drop_last());
                    at = at + 1;
                    ends_value = true;
                },
            }
        } else if c == '"' {
            let end = match find_string_end(chars, at + 1) {
                None => {
                    return None;
                },
                Some(end) => end,
            };
            match open.pop() {
                Some(OpenScope::Object(names, None)) => {
                    assert(before.last() == Scope::Object { names: texts(names@), pending: None });
                    let literal = text_between(chars, at, end);
                    match read_json_string(literal.as_str()) {
                        None => {
                            return None;
                        },
                        Some(key) => {
                            open.push(OpenScope::Object(names, Some(key)));
                            assert(scopes(open@) =~= with_name(before, key@));
                        },
                    }
                },
                Some(other) => {
                    assert(before.last() == other@);
                    open.push(other);
                    assert(scopes(open@) =~= before);
                    ends_value = true;
                },
                None => {
                    ends_value = true;
                },
            }
            at = end;
        } else {
            match find_scalar_end(chars, at) {
                None => {
                    return None;
                },
                Some(end) => {
                    at = end;
                    ends_value = true;
                },
            }
        }
        if ends_value {
            let ghost ended = scopes(open@);
            assert(step(all, here, before) == Step::Value(at as int, ended));
            match open.pop() {
                Some(OpenScope::Object(mut names, Some(key))) => {
                    assert(ended.last() == Scope::Object {
                        names: texts(names@),
                        pending: Some(key@),
                    });
                    if has_name(&names, key.as_str()) {
                        open.push(OpenScope::Object(names, Some(key.clone())));
                        assert(scopes(open@) =~= ended);
                        let brackets = closing_brackets(&open);
                        return Some(FoundRepeat { key, end: at, closers: brackets });
                    }
                    let ghost held = texts(names@);
                    let ghost name = key@;
                    names.push(key);
                    assert(texts(names@) =~= held.push(name));
                    open.push(OpenScope::Object(names, None));
                    assert(scopes(open@) =~= ended.drop_last().push(
                        Scope::Object { names: held.push(name), pending: None },
                    ));
                },
                Some(other) => {
                    assert(ended.last() == other@);
                    open.push(other);
                    assert(scopes(open@) =~= ended);
                },
                None => {},
            }
        } else {
            assert(step(all, here, before) == Step::Enter(at as int, scopes(open@)));
        }
    }
    None
}

/// Parses a JSON document. Objects that hold the same key more than once are
/// rejected with [`CoreError::DuplicateKey`], at any depth: keeping only one of
/// the values would silently drop data.
pub struct JsonParser;

impl Parser for JsonParser {
    open spec fn reads(&self, input: Seq<char>) -> Result<Json, Fault> {
        json_document(input)
    }

    fn parse(&self, input: &str) -> (r: Result<JsonValue, CoreError>)
        ensures
            r matches Ok(v) ==> opens_container(without_bom(input@)) ==> v@ is Array || v@ is Object,
            forall|v: Json| #[trigger]
                is_plain_tree(v) && without_bom(input@) == compact(v) ==> (r matches Ok(read)
                    && read@ == v),
    {
        let body = strip_bom(input);
        let chars = chars_of(body);
        let whole = read_json(body);
        let repeat = find_repeat(&chars);
        proof {
            assert forall|v: Json| #[trigger]
                is_plain_tree(v) && without_bom(input@) == compact(v) implies repeat is None by {
                lemma_compact_has_no_repeat(v);
            }
        }
        match repeat {
            None => {},
            Some(found) => {
                let head = text_between(&chars, 0, found.end);
                let closed = head.concat(found.closers.as_str());
                assert(closed@ =~= body@.take(found.end as int) + found.closers@);
                if whole.is_ok() || read_json(closed.as_str()).is_ok() {
                    return Err(CoreError::DuplicateKey { key: found.key });
                }
            },
        }
        match whole {
            Ok(v) => Ok(v),
            Err(m) => Err(CoreError::JsonError(m)),
        }
    }
}

} // verus!
