//! The first position in a sequence at which a condition holds.

use vstd::prelude::*;

verus! {

/// The first position at which `pred` holds, if any.
pub open spec fn find_index<T>(s: Seq<T>, pred: spec_fn(T) -> bool) -> Option<int>
    decreases s.len(),
{
    if s.len() == 0 {
        None
    } else if pred(s[0]) {
        Some(0)
    } else {
        match find_index(s.drop_first(), pred) {
            Some(i) => Some(i + 1),
            None => None,
        }
    }
}

/// `find_index` gives the first position at which the condition holds, and
/// nothing exactly when it holds nowhere.
pub proof fn lemma_find_index<T>(s: Seq<T>, pred: spec_fn(T) -> bool)
    ensures
        match find_index(s, pred) {
            Some(i) => 0 <= i < s.len() && pred(s[i]) && forall|j: int| 0 <= j < i ==> !pred(#[trigger] s[j]),
            None => forall|j: int| 0 <= j < s.len() ==> !pred(#[trigger] s[j]),
        },
    decreases s.len(),
{
    if s.len() > 0 && !pred(s[0]) {
        let t = s.drop_first();
        lemma_find_index(t, pred);
        assert forall|j: int| 1 <= j < s.len() implies s[j] == t[j - 1] by {}
        match find_index(t, pred) {
            Some(i) => {
                assert forall|j: int| 0 <= j < i + 1 implies !pred(#[trigger] s[j]) by {
                    if j > 0 {
                        assert(s[j] == t[j - 1]);
                    }
                }
            },
            None => {
                assert forall|j: int| 0 <= j < s.len() implies !pred(#[trigger] s[j]) by {
                    if j > 0 {
                        assert(s[j] == t[j - 1]);
                    }
                }
            },
        }
    }
}

/// A position at which the condition holds, with no such position before
/// it, is the one that `find_index` gives.
pub proof fn lemma_find_index_is<T>(s: Seq<T>, pred: spec_fn(T) -> bool, i: int)
    requires
        0 <= i < s.len(),
        pred(s[i]),
        forall|j: int| 0 <= j < i ==> !pred(#[trigger] s[j]),
    ensures
        find_index(s, pred) == Some(i),
{
    lemma_find_index(s, pred);
    match find_index(s, pred) {
        Some(k) => {
            if k < i {
                assert(!pred(s[k]));
            } else if k > i {
                assert(!pred(s[i]));
            }
        },
        None => {
            assert(!pred(s[i]));
        },
    }
}

/// Where the condition holds nowhere, `find_index` gives nothing.
pub proof fn lemma_find_index_none<T>(s: Seq<T>, pred: spec_fn(T) -> bool)
    requires
        forall|j: int| 0 <= j < s.len() ==> !pred(#[trigger] s[j]),
    ensures
        find_index(s, pred) is None,
{
    lemma_find_index(s, pred);
    if let Some(k) = find_index(s, pred) {
        assert(!pred(s[k]));
    }
}

} // verus!
