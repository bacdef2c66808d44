//! Small general lemmas about `Seq::filter`, shared by the reconciliation
//! engine and the diff report.

use vstd::prelude::*;

verus! {

/// Filtering a sequence extended by one element keeps the filtered prefix
/// and appends the new element exactly when it satisfies the predicate.
pub proof fn lemma_filter_push<A>(s: Seq<A>, x: A, pred: spec_fn(A) -> bool)
    ensures
        s.push(x).filter(pred) == (if pred(x) {
            s.filter(pred).push(x)
        } else {
            s.filter(pred)
        }),
{
    reveal(Seq::filter);
    assert(s.push(x).drop_last() =~= s);
    assert(s.push(x).last() == x);
}

/// An element is in the filtered sequence exactly when it is in the original
/// and satisfies the predicate.
pub proof fn lemma_filter_membership<A>(s: Seq<A>, pred: spec_fn(A) -> bool, x: A)
    ensures
        s.filter(pred).contains(x) <==> (s.contains(x) && pred(x)),
    decreases s.len(),
{
    reveal(Seq::filter);
    if s.len() == 0 {
    } else {
        let dl = s.drop_last();
        let init = dl.filter(pred);
        let f = s.filter(pred);
        lemma_filter_membership(dl, pred, x);
        if s.contains(x) && pred(x) {
            let i = choose|i: int| 0 <= i < s.len() && s[i] == x;
            if i == s.len() - 1 {
                assert(f[f.len() - 1] == x);
            } else {
                assert(dl[i] == x);
                let j = choose|j: int| 0 <= j < init.len() && init[j] == x;
                assert(f[j] == x);
            }
        }
        if f.contains(x) {
            let j = choose|j: int| 0 <= j < f.len() && f[j] == x;
            if pred(s.last()) && j == f.len() - 1 {
                assert(s[s.len() - 1] == x);
            } else {
                assert(init[j] == x);
                let i = choose|i: int| 0 <= i < dl.len() && dl[i] == x;
                assert(s[i] == x);
            }
        }
    }
}

/// If no element satisfies the predicate, the filtered sequence is empty.
pub proof fn lemma_filter_empty<A>(s: Seq<A>, pred: spec_fn(A) -> bool)
    requires
        forall|i: int| 0 <= i < s.len() ==> !pred(s[i]),
    ensures
        s.filter(pred) == Seq::<A>::empty(),
    decreases s.len(),
{
    reveal(Seq::filter);
    if s.len() == 0 {
    } else {
        let dl = s.drop_last();
        assert forall|i: int| 0 <= i < dl.len() implies !pred(dl[i]) by {
            assert(dl[i] == s[i]);
        }
        lemma_filter_empty(dl, pred);
        assert(!pred(s[s.len() - 1]));
    }
}

/// If every element satisfies the predicate, filtering changes nothing.
pub proof fn lemma_filter_all_true<A>(s: Seq<A>, pred: spec_fn(A) -> bool)
    requires
        forall|i: int| 0 <= i < s.len() ==> pred(s[i]),
    ensures
        s.filter(pred) == s,
    decreases s.len(),
{
    reveal(Seq::filter);
    if s.len() == 0 {
        assert(s.filter(pred) =~= s);
    } else {
        let dl = s.drop_last();
        assert forall|i: int| 0 <= i < dl.len() implies pred(dl[i]) by {
            assert(dl[i] == s[i]);
        }
        lemma_filter_all_true(dl, pred);
        assert(pred(s[s.len() - 1]));
        assert(dl.push(s.last()) =~= s);
    }
}

/// Filtering keeps pairwise-distinct elements pairwise distinct.
pub proof fn lemma_filter_distinct<A>(s: Seq<A>, pred: spec_fn(A) -> bool)
    requires
        forall|i: int, j: int| 0 <= i < j < s.len() ==> s[i] != s[j],
    ensures
        forall|i: int, j: int|
            0 <= i < j < s.filter(pred).len() ==> s.filter(pred)[i] != s.filter(pred)[j],
    decreases s.len(),
{
    reveal(Seq::filter);
    if s.len() == 0 {
    } else {
        let dl = s.drop_last();
        let init = dl.filter(pred);
        let f = s.filter(pred);
        assert forall|i: int, j: int| 0 <= i < j < dl.len() implies dl[i] != dl[j] by {
            assert(dl[i] == s[i]);
            assert(dl[j] == s[j]);
        }
        lemma_filter_distinct(dl, pred);
        assert forall|i: int, j: int| 0 <= i < j < f.len() implies f[i] != f[j] by {
            if pred(s.last()) && j == f.len() - 1 {
                assert(f[i] == init[i]);
                assert(init.contains(init[i]));
                lemma_filter_membership(dl, pred, init[i]);
                let m = choose|m: int| 0 <= m < dl.len() && dl[m] == init[i];
                assert(s[m] == init[i]);
                assert(s[s.len() - 1] == f[j]);
            } else {
                assert(f[i] == init[i]);
                assert(f[j] == init[j]);
            }
        }
    }
}

} // verus!
