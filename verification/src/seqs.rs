//! First-match search over sequences, the way `Iterator::find` and
//! `Iterator::find_map` walk them: front to back, stopping at the first hit.
use vstd::prelude::*;

verus! {

/// Index of the first element of `s` that satisfies `p`, or -1 when none does.
pub open spec fn first_index<T>(s: Seq<T>, p: spec_fn(T) -> bool) -> int
    decreases s.len(),
{
    if s.len() == 0 {
        -1
    } else if p(s[0]) {
        0
    } else {
        let r = first_index(s.drop_first(), p);
        if r < 0 {
            -1
        } else {
            r + 1
        }
    }
}

pub proof fn lemma_first_index<T>(s: Seq<T>, p: spec_fn(T) -> bool)
    ensures
        -1 <= first_index(s, p) < s.len(),
        first_index(s, p) >= 0 ==> p(s[first_index(s, p)]),
        forall|j: int|
            0 <= j < s.len() && (first_index(s, p) < 0 || j < first_index(s, p)) ==> !p(s[j]),
    decreases s.len(),
{
    if s.len() > 0 && !p(s[0]) {
        lemma_first_index(s.drop_first(), p);
        assert forall|j: int|
            0 <= j < s.len() && (first_index(s, p) < 0 || j < first_index(s, p)) implies !p(
            s[j],
        ) by {
            if j > 0 {
                assert(s[j] == s.drop_first()[j - 1]);
            }
        }
    }
}

/// The first hit of a front-to-back scan is the one `first_index` names.
pub proof fn lemma_first_index_at<T>(s: Seq<T>, p: spec_fn(T) -> bool, k: int)
    requires
        0 <= k <= s.len(),
        forall|j: int| 0 <= j < k ==> !p(s[j]),
        k < s.len() ==> p(s[k]),
    ensures
        first_index(s, p) == if k < s.len() {
            k
        } else {
            -1
        },
{
    lemma_first_index(s, p);
    let r = first_index(s, p);
    if r >= 0 && k < s.len() && r < k {
        assert(!p(s[r]));
    }
}

} // verus!
