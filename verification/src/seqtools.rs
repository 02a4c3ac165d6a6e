//! Generic helpers over sequences used by the engine's specifications.

use vstd::prelude::*;

verus! {

/// The first element of `s` satisfying `p`, searched from the front.
pub open spec fn find_first<T>(s: Seq<T>, p: spec_fn(T) -> bool) -> Option<T>
    decreases s.len(),
{
    if s.len() == 0 {
        None
    } else if p(s[0]) {
        Some(s[0])
    } else {
        find_first(s.drop_first(), p)
    }
}

/// When `s[i]` matches and nothing before it does, the search finds `s[i]`.
pub proof fn lemma_find_first_hit<T>(s: Seq<T>, p: spec_fn(T) -> bool, i: int)
    requires
        0 <= i < s.len(),
        p(s[i]),
        forall|k: int| 0 <= k < i ==> !p(s[k]),
    ensures
        find_first(s, p) == Some(s[i]),
    decreases i,
{
    if i == 0 {
    } else {
        assert(!p(s[0]));
        lemma_find_first_hit(s.drop_first(), p, i - 1);
    }
}

/// When nothing matches, the search finds nothing.
pub proof fn lemma_find_first_none<T>(s: Seq<T>, p: spec_fn(T) -> bool)
    requires
        forall|k: int| 0 <= k < s.len() ==> !p(s[k]),
    ensures
        find_first(s, p) is None,
    decreases s.len(),
{
    if s.len() > 0 {
        lemma_find_first_none(s.drop_first(), p);
    }
}

} // verus!
