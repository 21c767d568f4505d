//! Facts about filtered sequences.

use vstd::prelude::*;

verus! {

/// Filtering one more item keeps it exactly where it satisfies the predicate.
pub proof fn lemma_filter_push<A>(s: Seq<A>, x: A, p: spec_fn(A) -> bool)
    ensures
        s.push(x).filter(p) == if p(x) {
            s.filter(p).push(x)
        } else {
            s.filter(p)
        },
{
    reveal(Seq::filter);
    assert(s.push(x).drop_last() =~= s);
}

/// What a prefix keeps comes first in what the whole keeps.
pub proof fn lemma_filter_prefix<A>(s: Seq<A>, n: int, p: spec_fn(A) -> bool)
    requires
        0 <= n <= s.len(),
    ensures
        s.take(n).filter(p).len() <= s.filter(p).len(),
        forall|j: int|
            0 <= j < s.take(n).filter(p).len() ==> s.filter(p)[j] == s.take(n).filter(p)[j],
    decreases s.len() - n,
{
    if n < s.len() {
        lemma_filter_prefix(s, n + 1, p);
        assert(s.take(n + 1) =~= s.take(n).push(s[n]));
        lemma_filter_push(s.take(n), s[n], p);
        let small = s.take(n).filter(p);
        let big = s.take(n + 1).filter(p);
        assert forall|j: int| 0 <= j < small.len() implies s.filter(p)[j] == small[j] by {
            assert(big[j] == small[j]);
        }
    } else {
        assert(s.take(n) =~= s);
    }
}

/// Filtering an empty sequence keeps nothing.
pub proof fn lemma_filter_empty<A>(p: spec_fn(A) -> bool)
    ensures
        Seq::<A>::empty().filter(p) == Seq::<A>::empty(),
{
    reveal(Seq::filter);
}

} // verus!
