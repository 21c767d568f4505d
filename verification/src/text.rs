//! Text primitives shared by every parser: character buffers, Unicode
//! trimming, line splitting and searching.

use vstd::prelude::*;

verus! {

/// `String::push` appends one character.
pub assume_specification[ std::string::String::push ](s: &mut std::string::String, c: char)
    ensures
        final(s)@ == old(s)@.push(c),
;

/// The characters of `s`, in order.
pub fn chars_of(s: &str) -> (r: Vec<char>)
    ensures
        r@ == s@,
{
    let mut out: Vec<char> = Vec::new();
    for c in it: s.chars()
        invariant
            it.seq() == s@,
            out@ =~= s@.take(it.index()),
    {
        out.push(c);
    }
    assert(s@.take(s@.len() as int) =~= s@);
    out
}

/// The text made of `chars[from..to]`.
pub fn text_between(chars: &Vec<char>, from: usize, to: usize) -> (r: String)
    requires
        from <= to <= chars@.len(),
    ensures
        r@ == chars@.subrange(from as int, to as int),
{
    let mut out = String::new();
    let mut i: usize = from;
    while i < to
        invariant
            from <= i <= to <= chars@.len(),
            out@ =~= chars@.subrange(from as int, i as int),
        decreases to - i,
    {
        out.push(chars[i]);
        i = i + 1;
    }
    out
}

/// Whether two texts hold the same characters.
pub fn same_text(a: &str, b: &str) -> (r: bool)
    ensures
        r == (a@ == b@),
{
    a.to_owned() == b.to_owned()
}

/// Number of bytes that `text` takes in UTF-8.
pub open spec fn byte_len(text: Seq<char>) -> nat {
    vstd::utf8::encode_utf8(text).len()
}

/// The UTF-8 length of `s` in bytes.
pub fn bytes_in(s: &str) -> (r: usize)
    ensures
        r == byte_len(s@),
{
    s.as_bytes().len()
}

// ---------------------------------------------------------------------------
// White space and trimming
// ---------------------------------------------------------------------------

/// The Unicode `White_Space` property.
pub open spec fn is_white_space(c: char) -> bool {
    let u = c as u32;
    ||| 0x9 <= u <= 0xd
    ||| u == 0x20
    ||| u == 0x85
    ||| u == 0xa0
    ||| u == 0x1680
    ||| 0x2000 <= u <= 0x200a
    ||| u == 0x2028
    ||| u == 0x2029
    ||| u == 0x202f
    ||| u == 0x205f
    ||| u == 0x3000
}

/// Decides [`is_white_space`].
pub fn white_space(c: char) -> (r: bool)
    ensures
        r == is_white_space(c),
{
    let u: u32 = c as u32;
    (0x9 <= u && u <= 0xd) || u == 0x20 || u == 0x85 || u == 0xa0 || u == 0x1680 || (0x2000 <= u
        && u <= 0x200a) || u == 0x2028 || u == 0x2029 || u == 0x202f || u == 0x205f || u == 0x3000
}

/// The predicate [`is_white_space`] as a value.
pub open spec fn white() -> spec_fn(char) -> bool {
    |c: char| is_white_space(c)
}

/// `s` without its longest prefix of characters that satisfy `p`.
pub open spec fn trim_start_by(s: Seq<char>, p: spec_fn(char) -> bool) -> Seq<char>
    decreases s.len(),
{
    if s.len() > 0 && p(s[0]) {
        trim_start_by(s.drop_first(), p)
    } else {
        s
    }
}

/// `s` without its longest suffix of characters that satisfy `p`.
pub open spec fn trim_end_by(s: Seq<char>, p: spec_fn(char) -> bool) -> Seq<char>
    decreases s.len(),
{
    if s.len() > 0 && p(s.last()) {
        trim_end_by(s.drop_last(), p)
    } else {
        s
    }
}

/// `s` without surrounding characters that satisfy `p`.
pub open spec fn trim_by(s: Seq<char>, p: spec_fn(char) -> bool) -> Seq<char> {
    trim_end_by(trim_start_by(s, p), p)
}

/// `s` without surrounding white space.
pub open spec fn trimmed(s: Seq<char>) -> Seq<char> {
    trim_by(s, white())
}

/// Whether `s` holds nothing but white space.
pub open spec fn is_blank(s: Seq<char>) -> bool {
    trimmed(s).len() == 0
}

/// Bounds of `chars[from..to]` once surrounding white space is dropped.
pub fn trim_bounds(chars: &Vec<char>, from: usize, to: usize) -> (r: (usize, usize))
    requires
        from <= to <= chars@.len(),
    ensures
        from <= r.0 <= r.1 <= to,
        chars@.subrange(r.0 as int, r.1 as int) == trimmed(
            chars@.subrange(from as int, to as int),
        ),
{
    let ghost whole = chars@.subrange(from as int, to as int);
    let mut lo: usize = from;
    assert(chars@.subrange(lo as int, to as int) == whole);
    while lo < to && white_space(chars[lo])
        invariant
            from <= lo <= to <= chars@.len(),
            trim_start_by(chars@.subrange(lo as int, to as int), white()) == trim_start_by(
                whole,
                white(),
            ),
        decreases to - lo,
    {
        assert(chars@.subrange(lo as int, to as int).drop_first() =~= chars@.subrange(
            lo as int + 1,
            to as int,
        ));
        lo = lo + 1;
    }
    let ghost front = chars@.subrange(lo as int, to as int);
    assert(front == trim_start_by(whole, white()));
    let mut hi: usize = to;
    while hi > lo && white_space(chars[hi - 1])
        invariant
            from <= lo <= hi <= to <= chars@.len(),
            trim_end_by(chars@.subrange(lo as int, hi as int), white()) == trim_end_by(
                front,
                white(),
            ),
        decreases hi - lo,
    {
        assert(chars@.subrange(lo as int, hi as int).drop_last() =~= chars@.subrange(
            lo as int,
            hi as int - 1,
        ));
        hi = hi - 1;
    }
    (lo, hi)
}

/// `s` without surrounding white space.
pub fn trim(s: &str) -> (r: String)
    ensures
        r@ == trimmed(s@),
{
    let chars = chars_of(s);
    let (lo, hi) = trim_bounds(&chars, 0, chars.len());
    assert(chars@.subrange(0, chars@.len() as int) =~= chars@);
    text_between(&chars, lo, hi)
}

// ---------------------------------------------------------------------------
// Searching
// ---------------------------------------------------------------------------

/// Index of the first `c` in `s`, or the length of `s`.
pub open spec fn position(s: Seq<char>, c: char) -> int
    decreases s.len(),
{
    if s.len() == 0 || s[0] == c {
        0
    } else {
        1 + position(s.drop_first(), c)
    }
}

/// `position` is the least index that holds `c`.
pub proof fn lemma_position(s: Seq<char>, c: char)
    ensures
        0 <= position(s, c) <= s.len(),
        position(s, c) < s.len() ==> s[position(s, c)] == c,
        forall|j: int| 0 <= j < position(s, c) ==> s[j] != c,
        position(s, c) < s.len() <==> s.contains(c),
    decreases s.len(),
{
    if s.len() > 0 && s[0] != c {
        let rest = s.drop_first();
        lemma_position(rest, c);
        assert forall|j: int| 0 <= j < position(s, c) implies s[j] != c by {
            if j > 0 {
                assert(rest[j - 1] == s[j]);
            }
        }
        if s.contains(c) {
            let k = choose|k: int| 0 <= k < s.len() && s[k] == c;
            assert(rest[k - 1] == c);
        }
        if position(rest, c) < rest.len() {
            assert(s[position(rest, c) + 1] == c);
        }
    }
}

/// An index that holds `c`, with none before it, is the position of `c`.
pub proof fn lemma_position_at(s: Seq<char>, c: char, at: int)
    requires
        0 <= at <= s.len(),
        at < s.len() ==> s[at] == c,
        forall|j: int| 0 <= j < at ==> s[j] != c,
    ensures
        position(s, c) == at,
{
    lemma_position(s, c);
}

/// Index of the first `c` in `chars[from..to]`, or `to`.
pub fn find_char(chars: &Vec<char>, from: usize, to: usize, c: char) -> (r: usize)
    requires
        from <= to <= chars@.len(),
    ensures
        from <= r <= to,
        r - from == position(chars@.subrange(from as int, to as int), c),
{
    let ghost part = chars@.subrange(from as int, to as int);
    let mut at: usize = from;
    while at < to && chars[at] != c
        invariant
            from <= at <= to <= chars@.len(),
            part == chars@.subrange(from as int, to as int),
            forall|j: int| 0 <= j < at - from ==> part[j] != c,
        decreases to - at,
    {
        assert(part[at - from] == chars@[at as int]);
        at = at + 1;
    }
    proof {
        if at < to {
            assert(part[at - from] == chars@[at as int]);
        }
        lemma_position_at(part, c, at - from);
    }
    at
}

/// Whether `c` occurs in `chars[from..to]`.
pub fn contains_char(chars: &Vec<char>, from: usize, to: usize, c: char) -> (r: bool)
    requires
        from <= to <= chars@.len(),
    ensures
        r == chars@.subrange(from as int, to as int).contains(c),
{
    let ghost part = chars@.subrange(from as int, to as int);
    let mut i: usize = from;
    while i < to
        invariant
            from <= i <= to <= chars@.len(),
            part == chars@.subrange(from as int, to as int),
            forall|j: int| 0 <= j < i - from ==> part[j] != c,
        decreases to - i,
    {
        if chars[i] == c {
            assert(part[i - from] == c);
            return true;
        }
        i = i + 1;
    }
    false
}

/// Whether `needle` starts at index `at` of `s`.
pub open spec fn occurs_at(s: Seq<char>, needle: Seq<char>, at: int) -> bool {
    0 <= at && at + needle.len() <= s.len() && s.subrange(at, at + needle.len()) == needle
}

/// Whether `needle` occurs anywhere in `s`.
pub open spec fn contains_text(s: Seq<char>, needle: Seq<char>) -> bool {
    exists|at: int| occurs_at(s, needle, at)
}

/// Decides [`occurs_at`].
pub fn matches_at(chars: &Vec<char>, needle: &Vec<char>, at: usize) -> (r: bool)
    ensures
        r == occurs_at(chars@, needle@, at as int),
{
    if at > chars.len() || needle.len() > chars.len() - at {
        return false;
    }
    let ghost part = chars@.subrange(at as int, at + needle@.len());
    let mut i: usize = 0;
    while i < needle.len()
        invariant
            0 <= i <= needle@.len(),
            at + needle@.len() <= chars.len(),
            part == chars@.subrange(at as int, at + needle@.len()),
            forall|j: int| 0 <= j < i ==> part[j] == needle@[j],
        decreases needle@.len() - i,
    {
        assert(part[i as int] == chars@[at + i]);
        if chars[at + i] != needle[i] {
            return false;
        }
        i = i + 1;
    }
    assert(part =~= needle@);
    true
}

/// Least index at or after `from` where `needle` starts.
pub fn find_text(chars: &Vec<char>, needle: &Vec<char>, from: usize) -> (r: Option<usize>)
    requires
        from <= chars@.len(),
    ensures
        match r {
            Some(at) => {
                &&& from <= at
                &&& occurs_at(chars@, needle@, at as int)
                &&& forall|j: int| from <= j < at ==> !occurs_at(chars@, needle@, j)
            },
            None => forall|j: int| from <= j ==> !occurs_at(chars@, needle@, j),
        },
{
    let mut at: usize = from;
    loop
        invariant
            from <= at <= chars@.len(),
            forall|j: int| from <= j < at ==> !occurs_at(chars@, needle@, j),
        decreases chars@.len() - at,
    {
        if matches_at(chars, needle, at) {
            return Some(at);
        }
        if at == chars.len() {
            return None;
        }
        at = at + 1;
    }
}

/// Least index from `at` on where `needle` starts.
pub open spec fn find_from(s: Seq<char>, needle: Seq<char>, at: int) -> Option<int>
    decreases s.len() - at + 1,
{
    if at < 0 || at > s.len() {
        None
    } else if occurs_at(s, needle, at) {
        Some(at)
    } else {
        find_from(s, needle, at + 1)
    }
}

/// A place where `needle` starts, with none before it, is the one found.
pub proof fn lemma_find_from(s: Seq<char>, needle: Seq<char>, from: int, at: int)
    requires
        0 <= from <= at,
        occurs_at(s, needle, at),
        forall|j: int| from <= j < at ==> !occurs_at(s, needle, j),
    ensures
        find_from(s, needle, from) == Some(at),
    decreases at - from,
{
    if from < at {
        lemma_find_from(s, needle, from + 1, at);
    }
}

/// Where `needle` starts nowhere, nothing is found.
pub proof fn lemma_find_nothing(s: Seq<char>, needle: Seq<char>, from: int)
    requires
        0 <= from,
        forall|j: int| from <= j ==> !occurs_at(s, needle, j),
    ensures
        find_from(s, needle, from) is None,
    decreases s.len() - from + 1,
{
    if from <= s.len() {
        lemma_find_nothing(s, needle, from + 1);
    }
}

/// Finds the first occurrence of `needle` in `s`.
pub fn find_first(chars: &Vec<char>, needle: &str) -> (r: Option<usize>)
    ensures
        match r {
            Some(at) => find_from(chars@, needle@, 0) == Some(at as int) && at + needle@.len()
                <= chars@.len(),
            None => find_from(chars@, needle@, 0) is None,
        },
{
    let sought = chars_of(needle);
    match find_text(chars, &sought, 0) {
        Some(at) => {
            proof {
                lemma_find_from(chars@, needle@, 0, at as int);
            }
            Some(at)
        },
        None => {
            proof {
                lemma_find_nothing(chars@, needle@, 0);
            }
            None
        },
    }
}

/// Whether `needle` occurs in `s`.
pub fn has_text(s: &str, needle: &str) -> (r: bool)
    ensures
        r == contains_text(s@, needle@),
{
    let chars = chars_of(s);
    let sought = chars_of(needle);
    match find_text(&chars, &sought, 0) {
        Some(_) => true,
        None => {
            assert forall|at: int| !occurs_at(s@, needle@, at) by {
                if at >= 0 {
                    assert(!occurs_at(chars@, sought@, at));
                }
            }
            false
        },
    }
}

// ---------------------------------------------------------------------------
// Lines
// ---------------------------------------------------------------------------

/// `line` without a final carriage return.
pub open spec fn without_cr(line: Seq<char>) -> Seq<char> {
    if line.len() > 0 && line.last() == '\r' {
        line.drop_last()
    } else {
        line
    }
}

/// The lines of `s`: split after each line feed, the ending (`\n` or `\r\n`)
/// dropped, no empty line after a final ending.
pub open spec fn lines(s: Seq<char>) -> Seq<Seq<char>>
    decreases s.len(),
{
    let end = position(s, '\n');
    if s.len() == 0 {
        Seq::empty()
    } else if 0 <= end < s.len() {
        seq![without_cr(s.take(end))] + lines(s.skip(end + 1))
    } else {
        seq![s]
    }
}

/// Texts joined by a character.
pub open spec fn joined_by(parts: Seq<Seq<char>>, c: char) -> Seq<char>
    decreases parts.len(),
{
    if parts.len() == 0 {
        Seq::empty()
    } else if parts.len() == 1 {
        parts[0]
    } else {
        parts[0] + seq![c] + joined_by(parts.drop_first(), c)
    }
}

/// The models of a run of texts.
pub open spec fn texts(items: Seq<String>) -> Seq<Seq<char>> {
    items.map_values(|s: String| s@)
}

/// The model of an optional text.
pub open spec fn optional(text: Option<String>) -> Option<Seq<char>> {
    match text {
        Some(t) => Some(t@),
        None => None,
    }
}

/// The lines of `s`.
pub fn split_lines(s: &str) -> (r: Vec<String>)
    ensures
        texts(r@) == lines(s@),
{
    let chars = chars_of(s);
    let ghost all = chars@;
    let mut out: Vec<String> = Vec::new();
    let mut start: usize = 0;
    let mut i: usize = 0;
    assert(all.skip(0) =~= all);
    assert(texts(out@) + lines(all) =~= lines(all));
    while i < chars.len()
        invariant
            0 <= start <= i <= chars@.len(),
            all == chars@,
            texts(out@) + lines(all.skip(start as int)) == lines(all),
            forall|j: int| start <= j < i ==> all[j] != '\n',
        decreases chars@.len() - i,
    {
        if chars[i] == '\n' {
            let end: usize = if i > start && chars[i - 1] == '\r' {
                i - 1
            } else {
                i
            };
            let line = text_between(&chars, start, end);
            let ghost tail = all.skip(start as int);
            let ghost before = texts(out@);
            proof {
                lemma_position_at(tail, '\n', i - start);
                assert(tail.take(i - start) =~= all.subrange(start as int, i as int));
                assert(line@ =~= without_cr(tail.take(i - start)));
                assert(tail.skip(i - start + 1) =~= all.skip(i + 1));
            }
            out.push(line);
            proof {
                assert(texts(out@) =~= before.push(line@));
                assert(texts(out@) + lines(all.skip(i + 1)) =~= before + (seq![line@] + lines(
                    all.skip(i + 1),
                )));
            }
            start = i + 1;
        }
        i = i + 1;
    }
    if start < chars.len() {
        let line = text_between(&chars, start, chars.len());
        let ghost tail = all.skip(start as int);
        let ghost before = texts(out@);
        proof {
            lemma_position_at(tail, '\n', tail.len() as int);
            assert(line@ =~= tail);
        }
        out.push(line);
        assert(texts(out@) =~= before + seq![line@]);
    } else {
        assert(lines(all.skip(start as int)) =~= Seq::<Seq<char>>::empty());
        assert(texts(out@) =~= lines(all));
    }
    out
}

// ---------------------------------------------------------------------------
// Order
// ---------------------------------------------------------------------------

/// Whether `a` comes strictly before `b` in lexicographic order.
pub open spec fn precedes(a: Seq<char>, b: Seq<char>) -> bool
    decreases a.len(),
{
    if b.len() == 0 {
        false
    } else if a.len() == 0 {
        true
    } else if a[0] == b[0] {
        precedes(a.drop_first(), b.drop_first())
    } else {
        a[0] < b[0]
    }
}

/// Decides [`precedes`].
pub fn comes_before(a: &str, b: &str) -> (r: bool)
    ensures
        r == precedes(a@, b@),
{
    let left = chars_of(a);
    let right = chars_of(b);
    let mut i: usize = 0;
    assert(left@.skip(0) =~= left@);
    assert(right@.skip(0) =~= right@);
    loop
        invariant
            0 <= i <= left@.len(),
            i <= right@.len(),
            left@ == a@,
            right@ == b@,
            precedes(left@.skip(i as int), right@.skip(i as int)) == precedes(left@, right@),
        decreases left@.len() - i,
    {
        let ghost s = left@.skip(i as int);
        let ghost t = right@.skip(i as int);
        if i == right.len() {
            return false;
        }
        if i == left.len() {
            return true;
        }
        assert(s[0] == left@[i as int]);
        assert(t[0] == right@[i as int]);
        if left[i] != right[i] {
            return left[i] < right[i];
        }
        assert(s.drop_first() =~= left@.skip(i + 1));
        assert(t.drop_first() =~= right@.skip(i + 1));
        i = i + 1;
    }
}

/// Texts that agree up to an index are ordered by the characters there.
pub proof fn lemma_precedes_at(a: Seq<char>, b: Seq<char>, k: int)
    requires
        0 <= k < a.len(),
        k < b.len(),
        forall|j: int| 0 <= j < k ==> a[j] == b[j],
        a[k] < b[k],
    ensures
        precedes(a, b),
    decreases k,
{
    if k > 0 {
        let s = a.drop_first();
        let t = b.drop_first();
        assert(a[0] == b[0]);
        assert forall|j: int| 0 <= j < k - 1 implies s[j] == t[j] by {
            assert(s[j] == a[j + 1]);
            assert(t[j] == b[j + 1]);
        }
        lemma_precedes_at(s, t, k - 1);
    }
}

/// No text comes before itself.
pub proof fn lemma_not_before_itself(a: Seq<char>)
    ensures
        !precedes(a, a),
    decreases a.len(),
{
    if a.len() > 0 {
        lemma_not_before_itself(a.drop_first());
    }
}

/// The order of texts is transitive.
pub proof fn lemma_precedes_transitive(a: Seq<char>, b: Seq<char>, c: Seq<char>)
    requires
        precedes(a, b),
        precedes(b, c),
    ensures
        precedes(a, c),
    decreases a.len(),
{
    if a.len() > 0 && b.len() > 0 && c.len() > 0 && a[0] == b[0] && b[0] == c[0] {
        lemma_precedes_transitive(a.drop_first(), b.drop_first(), c.drop_first());
    }
}

} // verus!
