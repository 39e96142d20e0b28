//! Searches over sequences, stated once and reused by the scans of this crate.

use vstd::prelude::*;

verus! {

/// The first index at or after `i` whose element satisfies `pred`.
pub open spec fn first_from<A>(s: Seq<A>, pred: spec_fn(A) -> bool, i: int) -> Option<int>
    decreases s.len() - i,
{
    if i < 0 || i >= s.len() {
        None
    } else if pred(s[i]) {
        Some(i)
    } else {
        first_from(s, pred, i + 1)
    }
}

/// The last index before `i` whose element satisfies `pred`.
pub open spec fn last_before<A>(s: Seq<A>, pred: spec_fn(A) -> bool, i: int) -> Option<int>
    decreases i,
{
    if i <= 0 || i > s.len() {
        None
    } else if pred(s[i - 1]) {
        Some(i - 1)
    } else {
        last_before(s, pred, i - 1)
    }
}

/// A found index satisfies the predicate and nothing before it (from `i`) does.
pub proof fn lemma_first_from<A>(s: Seq<A>, pred: spec_fn(A) -> bool, i: int)
    requires
        0 <= i,
    ensures
        first_from(s, pred, i) matches Some(k) ==> i <= k < s.len() && pred(s[k]) && forall|j: int|
            i <= j < k ==> !pred(#[trigger] s[j]),
        first_from(s, pred, i) is None ==> forall|j: int| i <= j < s.len() ==> !pred(#[trigger] s[j]),
    decreases s.len() - i,
{
    if i < s.len() && !pred(s[i]) {
        lemma_first_from(s, pred, i + 1);
    }
}

/// A found index satisfies the predicate and nothing after it (before `i`) does.
pub proof fn lemma_last_before<A>(s: Seq<A>, pred: spec_fn(A) -> bool, i: int)
    requires
        i <= s.len(),
    ensures
        last_before(s, pred, i) matches Some(k) ==> 0 <= k < i && pred(s[k]) && forall|j: int|
            k < j < i ==> !pred(#[trigger] s[j]),
        last_before(s, pred, i) is None ==> forall|j: int| 0 <= j < i ==> !pred(#[trigger] s[j]),
    decreases i,
{
    if i > 0 && !pred(s[i - 1]) {
        lemma_last_before(s, pred, i - 1);
    }
}

/// The first satisfying index is determined by where the predicate first holds.
pub proof fn lemma_first_from_at<A>(s: Seq<A>, pred: spec_fn(A) -> bool, i: int, k: int)
    requires
        0 <= i <= k <= s.len(),
        forall|j: int| i <= j < k ==> !pred(#[trigger] s[j]),
        k < s.len() ==> pred(s[k]),
    ensures
        first_from(s, pred, i) == (if k < s.len() {
            Some(k)
        } else {
            None::<int>
        }),
    decreases k - i,
{
    if i < k {
        lemma_first_from_at(s, pred, i + 1, k);
    }
}

} // verus!
