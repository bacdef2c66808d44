//! Plain helpers over lists of package names.

use vstd::prelude::*;

verus! {

/// No name occurs twice.
pub open spec fn distinct(s: Seq<Seq<char>>) -> bool {
    forall|i: int, j: int| 0 <= i < j < s.len() ==> s[i] != s[j]
}

/// The list with every repeated name dropped, keeping first occurrences in
/// their original order.
pub open spec fn dedup_first(s: Seq<Seq<char>>) -> Seq<Seq<char>>
    decreases s.len(),
{
    if s.len() == 0 {
        Seq::empty()
    } else {
        let init = dedup_first(s.drop_last());
        if init.contains(s.last()) {
            init
        } else {
            init.push(s.last())
        }
    }
}

/// Deduplication yields a distinct list with exactly the names of the input.
pub proof fn lemma_dedup_first(s: Seq<Seq<char>>)
    ensures
        distinct(dedup_first(s)),
        forall|k: Seq<char>| #[trigger] dedup_first(s).contains(k) == s.contains(k),
    decreases s.len(),
{
    if s.len() == 0 {
        assert forall|k: Seq<char>| #[trigger] dedup_first(s).contains(k) == s.contains(k) by {
            if s.contains(k) {
                let i = choose|i: int| 0 <= i < s.len() && s[i] == k;
            }
        }
    } else {
        lemma_dedup_first(s.drop_last());
        let init = dedup_first(s.drop_last());
        let d = dedup_first(s);
        assert forall|k: Seq<char>| #[trigger] d.contains(k) == s.contains(k) by {
            if d.contains(k) {
                if init.contains(k) {
                    assert(s.drop_last().contains(k));
                    let i = choose|i: int| 0 <= i < s.drop_last().len() && s.drop_last()[i] == k;
                    assert(s[i] == k);
                } else {
                    assert(k == s.last());
                    assert(s[s.len() - 1] == k);
                }
            }
            if s.contains(k) {
                let i = choose|i: int| 0 <= i < s.len() && s[i] == k;
                if i < s.len() - 1 {
                    assert(s.drop_last()[i] == k);
                    assert(init.contains(k));
                    if !init.contains(s.last()) {
                        assert(d[choose|j: int| 0 <= j < init.len() && init[j] == k] == k);
                    }
                } else {
                    if init.contains(s.last()) {
                        assert(d.contains(k));
                    } else {
                        assert(d[d.len() - 1] == k);
                    }
                }
            }
        }
        if !init.contains(s.last()) {
            assert forall|i: int, j: int| 0 <= i < j < d.len() implies d[i] != d[j] by {
                if j < d.len() - 1 {
                    assert(init[i] != init[j]);
                } else {
                    assert(d[j] == s.last());
                    assert(init[i] == d[i]);
                    assert(init.contains(d[i]));
                }
            }
        }
    }
}

/// Linear membership test over a name list.
pub fn contains_name(v: &Vec<String>, name: &String) -> (r: bool)
    ensures
        r == v.deep_view().contains(name@),
{
    let n = v.len();
    let mut i: usize = 0;
    while i < n
        invariant
            n == v.len(),
            i <= n,
            forall|j: int| 0 <= j < i ==> v.deep_view()[j] != name@,
        decreases n - i,
    {
        if v[i] == *name {
            assert(v.deep_view()[i as int] == name@);
            return true;
        }
        i = i + 1;
    }
    false
}

/// Drop repeated names, keeping first occurrences in order.
pub fn dedup(v: &Vec<String>) -> (r: Vec<String>)
    ensures
        r.deep_view() == dedup_first(v.deep_view()),
        distinct(r.deep_view()),
        forall|k: Seq<char>| #[trigger] r.deep_view().contains(k) == v.deep_view().contains(k),
{
    let n = v.len();
    let mut out: Vec<String> = Vec::new();
    let mut i: usize = 0;
    while i < n
        invariant
            n == v.len(),
            i <= n,
            out.deep_view() == dedup_first(v.deep_view().take(i as int)),
        decreases n - i,
    {
        proof {
            assert(v.deep_view().take(i + 1).drop_last() =~= v.deep_view().take(i as int));
            assert(v.deep_view().take(i + 1).last() == v.deep_view()[i as int]);
        }
        if !contains_name(&out, &v[i]) {
            out.push(v[i].clone());
        }
        proof {
            assert(out.deep_view() =~= dedup_first(v.deep_view().take(i + 1)));
        }
        i = i + 1;
    }
    proof {
        assert(v.deep_view().take(n as int) =~= v.deep_view());
        lemma_dedup_first(v.deep_view());
    }
    out
}

} // verus!
