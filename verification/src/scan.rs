//! Searching a sequence for the first element with some property.

use vstd::prelude::*;

verus! {

/// The first index at or after `from` whose element satisfies `pred`.
pub open spec fn first_index<A>(s: Seq<A>, from: int, pred: spec_fn(A) -> bool) -> Option<int>
    decreases s.len() - from,
{
    if from < 0 || from >= s.len() {
        None
    } else if pred(s[from]) {
        Some(from)
    } else {
        first_index(s, from + 1, pred)
    }
}

/// What `first_index` returns, said without recursion.
pub proof fn lemma_first_index<A>(s: Seq<A>, from: int, pred: spec_fn(A) -> bool)
    requires
        0 <= from,
    ensures
        match first_index(s, from, pred) {
            Some(i) => from <= i < s.len() && pred(s[i]) && forall|j: int|
                from <= j < i ==> !pred(#[trigger] s[j]),
            None => forall|j: int| from <= j < s.len() ==> !pred(#[trigger] s[j]),
        },
    decreases s.len() - from,
{
    if from < s.len() && !pred(s[from]) {
        lemma_first_index(s, from + 1, pred);
    }
}

/// An index that satisfies `pred`, with none before it that does, is the one
/// `first_index` returns.
pub proof fn lemma_first_index_is<A>(s: Seq<A>, from: int, pred: spec_fn(A) -> bool, i: int)
    requires
        0 <= from <= i < s.len(),
        pred(s[i]),
        forall|j: int| from <= j < i ==> !pred(#[trigger] s[j]),
    ensures
        first_index(s, from, pred) == Some(i),
    decreases i - from,
{
    if from < i {
        assert(!pred(s[from]));
        lemma_first_index_is(s, from + 1, pred, i);
    }
}

/// Where no element from `from` on satisfies `pred`, `first_index` finds none.
pub proof fn lemma_first_index_none<A>(s: Seq<A>, from: int, pred: spec_fn(A) -> bool)
    requires
        0 <= from,
        forall|j: int| from <= j < s.len() ==> !pred(#[trigger] s[j]),
    ensures
        first_index(s, from, pred) is None,
    decreases s.len() - from,
{
    if from < s.len() {
        assert(!pred(s[from]));
        lemma_first_index_none(s, from + 1, pred);
    }
}

} // verus!
