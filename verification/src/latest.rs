//! The most recent entry of a list that satisfies a predicate.
use vstd::prelude::*;

verus! {

/// Length of the prefix of `s` that ends with the last entry satisfying `p`; 0 when there is
/// no such entry.
pub open spec fn prefix_through<A>(s: Seq<A>, p: spec_fn(A) -> bool) -> nat
    decreases s.len(),
{
    if s.len() == 0 {
        0
    } else if p(s.last()) {
        s.len()
    } else {
        prefix_through(s.drop_last(), p)
    }
}

/// A position that satisfies `p`, with nothing satisfying `p` behind it, is where the prefix ends.
pub proof fn lemma_prefix_through_is<A>(s: Seq<A>, p: spec_fn(A) -> bool, k: nat)
    requires
        k <= s.len(),
        k > 0 ==> p(s[k - 1]),
        forall|j: int| k <= j < s.len() ==> !p(#[trigger] s[j]),
    ensures
        prefix_through(s, p) == k,
    decreases s.len(),
{
    if k < s.len() {
        assert(!p(s[s.len() - 1]));
        let t = s.drop_last();
        assert(k > 0 ==> t[k - 1] == s[k - 1]);
        assert forall|j: int| k <= j < t.len() implies !p(#[trigger] t[j]) by {
            assert(t[j] == s[j]);
        }
        lemma_prefix_through_is(t, p, k);
    }
}

/// What the prefix is: its end satisfies `p`, nothing behind it does.
pub proof fn lemma_prefix_through<A>(s: Seq<A>, p: spec_fn(A) -> bool)
    ensures
        prefix_through(s, p) <= s.len(),
        prefix_through(s, p) > 0 ==> p(s[prefix_through(s, p) - 1]),
        forall|j: int| prefix_through(s, p) <= j < s.len() ==> !p(#[trigger] s[j]),
    decreases s.len(),
{
    if s.len() > 0 && !p(s.last()) {
        let t = s.drop_last();
        lemma_prefix_through(t, p);
        assert forall|j: int| prefix_through(s, p) <= j < s.len() implies !p(#[trigger] s[j]) by {
            if j < t.len() {
                assert(t[j] == s[j]);
            }
        }
    }
}

} // verus!
