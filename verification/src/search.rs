//! Finding the first element of a sequence that satisfies a predicate.

use vstd::prelude::*;

verus! {

/// Index of the first element of `s` that satisfies `p`, or `s.len()` where
/// no element does.
pub open spec fn first_index<A>(s: Seq<A>, p: spec_fn(A) -> bool) -> int
    decreases s.len(),
{
    if s.len() == 0 {
        0
    } else if p(s[0]) {
        0
    } else {
        1 + first_index(s.drop_first(), p)
    }
}

/// Whether `i` is the place of the first element of `s` that satisfies `p`
/// (`s.len()` where none does).
pub open spec fn is_first_index<A>(s: Seq<A>, p: spec_fn(A) -> bool, i: int) -> bool {
    &&& 0 <= i <= s.len()
    &&& forall|j: int| 0 <= j < i ==> !p(#[trigger] s[j])
    &&& i < s.len() ==> p(s[i])
}

/// `first_index` is a first index.
pub proof fn lemma_first_index<A>(s: Seq<A>, p: spec_fn(A) -> bool)
    ensures
        is_first_index(s, p, first_index(s, p)),
    decreases s.len(),
{
    if s.len() != 0 && !p(s[0]) {
        let t = s.drop_first();
        lemma_first_index(t, p);
        let r = first_index(t, p);
        assert forall|j: int| 0 <= j < r + 1 implies !p(#[trigger] s[j]) by {
            if j > 0 {
                assert(s[j] == t[j - 1]);
            }
        }
        if r + 1 < s.len() {
            assert(s[r + 1] == t[r]);
        }
    }
}

/// There is only one first index.
pub proof fn lemma_first_index_unique<A>(s: Seq<A>, p: spec_fn(A) -> bool, i: int)
    requires
        is_first_index(s, p, i),
    ensures
        i == first_index(s, p),
{
    lemma_first_index(s, p);
    let r = first_index(s, p);
    if i < r {
        assert(p(s[i]));
    } else if r < i {
        assert(p(s[r]));
    }
}

} // verus!
