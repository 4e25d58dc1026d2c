//! Facts about the elements that a filter keeps.

use vstd::prelude::*;

verus! {

/// A predicate that holds of fewer elements keeps fewer of them, and
/// strictly fewer when it drops an element that the other keeps.
pub proof fn lemma_filter_narrower<A>(
    s: Seq<A>,
    wide: spec_fn(A) -> bool,
    narrow: spec_fn(A) -> bool,
)
    requires
        forall|x: A| #[trigger] narrow(x) ==> wide(x),
    ensures
        s.filter(narrow).len() <= s.filter(wide).len(),
        (exists|i: int| 0 <= i < s.len() && wide(#[trigger] s[i]) && !narrow(s[i])) ==> s.filter(
            narrow,
        ).len() < s.filter(wide).len(),
    decreases s.len(),
{
    reveal(Seq::filter);
    if s.len() > 0 {
        let front = s.drop_last();
        lemma_filter_narrower(front, wide, narrow);
        if exists|i: int| 0 <= i < s.len() && wide(#[trigger] s[i]) && !narrow(s[i]) {
            let i = choose|i: int| 0 <= i < s.len() && wide(#[trigger] s[i]) && !narrow(s[i]);
            if i < s.len() - 1 {
                assert(front[i] == s[i]);
            }
        }
    }
}

/// Every element that a filter keeps is an element of the sequence that
/// satisfies the predicate.
pub proof fn lemma_filter_member<A>(s: Seq<A>, keep: spec_fn(A) -> bool, k: int)
    requires
        0 <= k < s.filter(keep).len(),
    ensures
        keep(s.filter(keep)[k]),
        exists|i: int| 0 <= i < s.len() && #[trigger] s[i] == s.filter(keep)[k],
{
    s.lemma_filter_contains_rev(keep, s.filter(keep)[k]);
}

/// A filter keeps the elements in their order: if a key tells all elements
/// of a sequence apart, it tells apart those that a filter keeps.
pub proof fn lemma_filter_distinct<A, K>(s: Seq<A>, keep: spec_fn(A) -> bool, key: spec_fn(A) -> K)
    requires
        forall|i: int, j: int|
            0 <= i < j < s.len() ==> key(#[trigger] s[i]) != key(#[trigger] s[j]),
    ensures
        forall|i: int, j: int|
            0 <= i < j < s.filter(keep).len() ==> key(#[trigger] s.filter(keep)[i]) != key(
                #[trigger] s.filter(keep)[j],
            ),
    decreases s.len(),
{
    reveal(Seq::filter);
    if s.len() > 0 {
        let front = s.drop_last();
        lemma_filter_distinct(front, keep, key);
        let kept = s.filter(keep);
        assert forall|i: int, j: int| 0 <= i < j < kept.len() implies key(#[trigger] kept[i])
            != key(#[trigger] kept[j]) by {
            if j >= front.filter(keep).len() {
                lemma_filter_member(front, keep, i);
            }
        }
    }
}

} // verus!
