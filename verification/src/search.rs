//! The first element of a sequence that satisfies a predicate.

use vstd::prelude::*;

verus! {

/// The index of the first element of `s` that satisfies `p`.
pub open spec fn first_index<T>(s: Seq<T>, p: spec_fn(T) -> bool) -> Option<int>
    decreases s.len(),
{
    if s.len() == 0 {
        None
    } else if p(s[0]) {
        Some(0)
    } else {
        match first_index(s.drop_first(), p) {
            Some(i) => Some(i + 1),
            None => None,
        }
    }
}

/// A left-to-right scan that has passed `i` elements failing `p` finds the
/// first index: `i` if it satisfies `p`, none if the scan is complete.
pub proof fn lemma_first_index<T>(s: Seq<T>, p: spec_fn(T) -> bool, i: int)
    requires
        0 <= i <= s.len(),
        forall|j: int| 0 <= j < i ==> !p(#[trigger] s[j]),
    ensures
        i < s.len() && p(s[i]) ==> first_index(s, p) == Some(i),
        i == s.len() ==> first_index(s, p) is None,
    decreases i,
{
    if i > 0 {
        let t = s.drop_first();
        assert(!p(s[0]));
        assert forall|j: int| 0 <= j < i - 1 implies !p(#[trigger] t[j]) by {
            assert(t[j] == s[j + 1]);
        }
        lemma_first_index(t, p, i - 1);
    }
}

/// The first index satisfies `p` and no earlier element does.
pub proof fn lemma_first_index_found<T>(s: Seq<T>, p: spec_fn(T) -> bool)
    ensures
        first_index(s, p) matches Some(i) ==> 0 <= i < s.len() && p(s[i]) && forall|j: int|
            0 <= j < i ==> !p(#[trigger] s[j]),
        first_index(s, p) is None ==> forall|j: int| 0 <= j < s.len() ==> !p(#[trigger] s[j]),
    decreases s.len(),
{
    if s.len() > 0 {
        let t = s.drop_first();
        lemma_first_index_found(t, p);
        assert forall|j: int| 1 <= j < s.len() implies s[j] == #[trigger] t[j - 1] by {}
        if !p(s[0]) {
            if first_index(t, p) is None {
                assert forall|j: int| 0 <= j < s.len() implies !p(#[trigger] s[j]) by {
                    if j > 0 {
                        assert(s[j] == t[j - 1]);
                    }
                }
            } else {
                let k = first_index(t, p)->0;
                assert forall|j: int| 0 <= j < k + 1 implies !p(#[trigger] s[j]) by {
                    if j > 0 {
                        assert(s[j] == t[j - 1]);
                    }
                }
            }
        }
    }
}

} // verus!
