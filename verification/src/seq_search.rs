//! Least-position search over sequences, shared by the registries and the
//! typeahead matcher.
use vstd::prelude::*;

verus! {

/// The first position in `s` where `p` holds, or `s.len()`.
pub open spec fn first_index<A>(s: Seq<A>, p: spec_fn(A) -> bool) -> int
    decreases s.len(),
{
    if s.len() == 0 {
        0
    } else if p(s[0]) {
        0
    } else {
        1 + first_index(s.drop_first(), p)
    }
}

/// `first_index` is the least position where `p` holds, or the length.
pub proof fn lemma_first_index_props<A>(s: Seq<A>, p: spec_fn(A) -> bool)
    ensures
        0 <= first_index(s, p) <= s.len(),
        first_index(s, p) < s.len() ==> p(s[first_index(s, p)]),
        forall|j: int| 0 <= j < first_index(s, p) ==> !p(#[trigger] s[j]),
    decreases s.len(),
{
    if s.len() > 0 && !p(s[0]) {
        lemma_first_index_props(s.drop_first(), p);
        assert forall|j: int| 0 <= j < first_index(s, p) implies !p(#[trigger] s[j]) by {
            if j > 0 {
                assert(s[j] == s.drop_first()[j - 1]);
            }
        }
    }
}

/// A position below which `p` never holds and at which it holds (or the
/// length) is `first_index`.
pub proof fn lemma_first_index_is<A>(s: Seq<A>, p: spec_fn(A) -> bool, k: int)
    requires
        0 <= k <= s.len(),
        k < s.len() ==> p(s[k]),
        forall|j: int| 0 <= j < k ==> !p(#[trigger] s[j]),
    ensures
        first_index(s, p) == k,
    decreases s.len(),
{
    if s.len() > 0 && k > 0 {
        assert(!p(s[0]));
        assert forall|j: int| 0 <= j < k - 1 implies !p(#[trigger] s.drop_first()[j]) by {
            assert(s.drop_first()[j] == s[j + 1]);
        }
        lemma_first_index_is(s.drop_first(), p, k - 1);
    }
}

} // verus!
