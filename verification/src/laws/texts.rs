//! What the text primitives do to a text.

use vstd::prelude::*;
use crate::parser::without_bom;
use crate::text::{
    is_blank, is_white_space, lemma_position, lemma_position_at, lines, position, precedes,
    trim_end_by, trim_start_by, trimmed, white,
};

verus! {

/// The white space of Unicode, character by character.
pub open spec fn is_space(c: char) -> bool {
    ||| c == '\t' || c == '\n' || c == '\u{b}' || c == '\u{c}' || c == '\r' || c == ' '
    ||| c == '\u{85}' || c == '\u{a0}' || c == '\u{1680}'
    ||| '\u{2000}' <= c <= '\u{200a}'
    ||| c == '\u{2028}' || c == '\u{2029}' || c == '\u{202f}' || c == '\u{205f}' || c == '\u{3000}'
}

/// Trimming drops white space at both ends and nothing else: what is left is a
/// part of the text with only white space around it, and neither starts nor ends
/// with any.
pub proof fn trimming_drops_white_space_only(s: Seq<char>)
    ensures
        exists|from: int, to: int|
            0 <= from <= to <= s.len() && trimmed(s) == #[trigger] s.subrange(from, to) && (forall|
                i: int,
            |
                0 <= i < from || to <= i < s.len() ==> is_space(#[trigger] s[i])) && (from < to
                ==> !is_space(s[from]) && !is_space(s[to - 1])),
        is_blank(s) <==> forall|i: int| 0 <= i < s.len() ==> is_space(#[trigger] s[i]),
{
    let front = trim_start_by(s, white());
    lemma_trim_start(s);
    let from = s.len() - front.len();
    lemma_trim_end(front);
    let to = from + trimmed(s).len();
    assert(trimmed(s) =~= s.subrange(from, to));
    assert forall|i: int| 0 <= i < from || to <= i < s.len() implies is_space(
        #[trigger] s[i],
    ) by {
        if i >= to {
            assert(s[i] == front[i - from]);
        }
    }
    if from < to {
        assert(s[from] == front[0]);
        assert(s[to - 1] == front[to - 1 - from]);
    }
    if is_blank(s) {
        assert(from == to);
    } else {
        assert(!is_space(s[from]));
    }
}

proof fn lemma_space(c: char)
    ensures
        is_white_space(c) == is_space(c),
{
}

proof fn lemma_trim_start(s: Seq<char>)
    ensures
        ({
            let rest = trim_start_by(s, white());
            let n = s.len() - rest.len();
            &&& 0 <= n <= s.len()
            &&& rest == s.skip(n)
            &&& forall|i: int| 0 <= i < n ==> is_space(#[trigger] s[i])
            &&& rest.len() > 0 ==> !is_space(rest[0])
        }),
    decreases s.len(),
{
    let rest = trim_start_by(s, white());
    if s.len() > 0 {
        lemma_space(s[0]);
        if is_white_space(s[0]) {
            lemma_trim_start(s.drop_first());
            let n = s.len() - rest.len();
            assert(rest =~= s.skip(n));
            assert forall|i: int| 0 <= i < n implies is_space(#[trigger] s[i]) by {
                if i > 0 {
                    assert(s[i] == s.drop_first()[i - 1]);
                }
            }
        } else {
            assert(s.skip(0) =~= s);
        }
    } else {
        assert(s.skip(0) =~= s);
    }
}

proof fn lemma_trim_end(s: Seq<char>)
    ensures
        ({
            let rest = trim_end_by(s, white());
            let n = rest.len() as int;
            &&& n <= s.len()
            &&& rest == s.take(n)
            &&& forall|i: int| n <= i < s.len() ==> is_space(#[trigger] s[i])
            &&& n > 0 ==> !is_space(rest[n - 1])
        }),
    decreases s.len(),
{
    let rest = trim_end_by(s, white());
    if s.len() > 0 {
        lemma_space(s.last());
        if is_white_space(s.last()) {
            let front = s.drop_last();
            lemma_trim_end(front);
            let n = rest.len() as int;
            assert(rest =~= s.take(n));
            assert forall|i: int| n <= i < s.len() implies is_space(#[trigger] s[i]) by {
                if i < front.len() {
                    assert(s[i] == front[i]);
                }
            }
        } else {
            assert(s.take(s.len() as int) =~= s);
        }
    } else {
        assert(s.take(0) =~= s);
    }
}

/// Lines end at line feeds: what stands before one is a line, without the
/// carriage return that may precede the line feed, and what stands behind it is
/// split likewise. A text without a line feed is one line, unless it is empty.
pub proof fn lines_end_at_line_feeds(line: Seq<char>, rest: Seq<char>)
    requires
        forall|i: int| 0 <= i < line.len() ==> #[trigger] line[i] != '\n',
    ensures
        lines(line + seq!['\n'] + rest) == seq![
            if line.len() > 0 && line[line.len() - 1] == '\r' {
                line.take(line.len() - 1)
            } else {
                line
            },
        ] + lines(rest),
        lines(line) == if line.len() > 0 {
            seq![line]
        } else {
            Seq::<Seq<char>>::empty()
        },
{
    let s = line + seq!['\n'] + rest;
    let end = line.len() as int;
    assert(s[end] == '\n');
    assert forall|j: int| 0 <= j < end implies s[j] != '\n' by {
        assert(s[j] == line[j]);
    }
    lemma_position_at(s, '\n', end);
    assert(s.take(end) =~= line);
    assert(s.skip(end + 1) =~= rest);
    lemma_position(line, '\n');
    if line.len() > 0 {
        assert(line.drop_last() =~= line.take(line.len() - 1));
        if position(line, '\n') < line.len() {
            assert(line[position(line, '\n')] == '\n');
        }
    }
}

/// One byte-order mark is dropped at the start of a text, and nothing else.
pub proof fn only_a_leading_mark_is_dropped(s: Seq<char>)
    ensures
        without_bom(seq!['\u{feff}'] + s) == s,
        s.len() == 0 || s[0] != '\u{feff}' ==> without_bom(s) == s,
{
    assert((seq!['\u{feff}'] + s).drop_first() =~= s);
}

/// The order of texts is that of their first differing characters; a proper
/// prefix comes first.
pub proof fn texts_are_ordered_by_first_difference(
    common: Seq<char>,
    a: Seq<char>,
    b: Seq<char>,
)
    ensures
        b.len() > 0 ==> precedes(common, common + b),
        !precedes(common + b, common),
        a.len() > 0 && b.len() > 0 && a[0] != b[0] ==> (precedes(common + a, common + b) <==> a[0]
            < b[0]),
    decreases common.len(),
{
    if common.len() > 0 {
        let rest = common.drop_first();
        texts_are_ordered_by_first_difference(rest, a, b);
        assert((common + a).drop_first() =~= rest + a);
        assert((common + b).drop_first() =~= rest + b);
    } else {
        assert(common + a =~= a);
        assert(common + b =~= b);
    }
}

} // verus!
