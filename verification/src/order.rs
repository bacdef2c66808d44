//! Lexicographic order on package names, and a verified sort.
//!
//! Listings shown to a human are sorted by identifier.  The order is
//! code-point lexicographic: a proper prefix comes first, otherwise the
//! first differing character decides.

use vstd::prelude::*;
use vstd::multiset::Multiset;
use vstd::relations::{sorted_by, total_ordering};
use vstd::seq_lib::lemma_sorted_unique;

verus! {

/// Code-point lexicographic order: is `a` at or before `b`?
pub open spec fn lex_le(a: Seq<char>, b: Seq<char>) -> bool
    decreases a.len(),
{
    if a.len() == 0 {
        true
    } else if b.len() == 0 {
        false
    } else if a[0] == b[0] {
        lex_le(a.skip(1), b.skip(1))
    } else {
        (a[0] as int) < (b[0] as int)
    }
}

/// The order as a relation value, for `sorted_by`.
pub open spec fn lex_leq() -> spec_fn(Seq<char>, Seq<char>) -> bool {
    |a: Seq<char>, b: Seq<char>| lex_le(a, b)
}

pub proof fn lemma_lex_le_reflexive(a: Seq<char>)
    ensures
        lex_le(a, a),
    decreases a.len(),
{
    if a.len() > 0 {
        lemma_lex_le_reflexive(a.skip(1));
    }
}

pub proof fn lemma_lex_le_antisymmetric(a: Seq<char>, b: Seq<char>)
    requires
        lex_le(a, b),
        lex_le(b, a),
    ensures
        a == b,
    decreases a.len(),
{
    if a.len() == 0 {
        assert(b.len() == 0);
        assert(a =~= b);
    } else {
        assert(b.len() > 0);
        if a[0] == b[0] {
            lemma_lex_le_antisymmetric(a.skip(1), b.skip(1));
            assert(a.skip(1).len() == b.skip(1).len());
            assert(a.len() == b.len());
            assert forall|j: int| 0 <= j < a.len() implies a[j] == b[j] by {
                if j > 0 {
                    assert(a.skip(1)[j - 1] == b.skip(1)[j - 1]);
                }
            }
            assert(a =~= b);
        }
    }
}

pub proof fn lemma_lex_le_transitive(a: Seq<char>, b: Seq<char>, c: Seq<char>)
    requires
        lex_le(a, b),
        lex_le(b, c),
    ensures
        lex_le(a, c),
    decreases a.len(),
{
    if a.len() == 0 {
    } else {
        assert(b.len() > 0);
        assert(c.len() > 0);
        if a[0] == b[0] && b[0] == c[0] {
            lemma_lex_le_transitive(a.skip(1), b.skip(1), c.skip(1));
        }
    }
}

pub proof fn lemma_lex_le_connected(a: Seq<char>, b: Seq<char>)
    ensures
        lex_le(a, b) || lex_le(b, a),
    decreases a.len(),
{
    if a.len() > 0 && b.len() > 0 && a[0] == b[0] {
        lemma_lex_le_connected(a.skip(1), b.skip(1));
    }
}

/// The lexicographic order is total: every listing has exactly one sorted
/// arrangement.
pub proof fn lemma_lex_total_ordering()
    ensures
        total_ordering(lex_leq()),
{
    let leq = lex_leq();
    assert forall|a: Seq<char>| #[trigger] leq(a, a) by {
        lemma_lex_le_reflexive(a);
    }
    assert forall|a: Seq<char>, b: Seq<char>| #[trigger] leq(a, b) && #[trigger] leq(b, a)
        implies a == b by {
        lemma_lex_le_antisymmetric(a, b);
    }
    assert forall|a: Seq<char>, b: Seq<char>, c: Seq<char>|
        #[trigger] leq(a, b) && #[trigger] leq(b, c) implies leq(a, c) by {
        lemma_lex_le_transitive(a, b, c);
    }
    assert forall|a: Seq<char>, b: Seq<char>| #[trigger] leq(a, b) || #[trigger] leq(b, a) by {
        lemma_lex_le_connected(a, b);
    }
}

/// Is `a` at or before `b` in the lexicographic order?
pub fn str_le(a: &String, b: &String) -> (r: bool)
    ensures
        r == lex_le(a@, b@),
{
    let alen = a.as_str().unicode_len();
    let blen = b.as_str().unicode_len();
    let mut i: usize = 0;
    proof {
        assert(a@.skip(0) =~= a@);
        assert(b@.skip(0) =~= b@);
    }
    #[verifier::loop_isolation(false)]
    loop
        invariant
            i <= alen,
            i <= blen,
            alen == a@.len(),
            blen == b@.len(),
            forall|j: int| 0 <= j < i ==> a@[j] == b@[j],
            lex_le(a@, b@) == lex_le(a@.skip(i as int), b@.skip(i as int)),
        decreases alen - i,
    {
        if i == alen {
            assert(a@.skip(i as int).len() == 0);
            return true;
        }
        if i == blen {
            assert(b@.skip(i as int).len() == 0);
            assert(a@.skip(i as int).len() > 0);
            return false;
        }
        let ca = a.as_str().get_char(i);
        let cb = b.as_str().get_char(i);
        proof {
            assert(a@.skip(i as int)[0] == a@[i as int]);
            assert(b@.skip(i as int)[0] == b@[i as int]);
        }
        if ca != cb {
            proof {
                assert(((ca as u32) < (cb as u32)) == ((ca as int) < (cb as int)));
            }
            return (ca as u32) < (cb as u32);
        }
        proof {
            assert(a@.skip(i as int).skip(1) =~= a@.skip(i + 1));
            assert(b@.skip(i as int).skip(1) =~= b@.skip(i + 1));
        }
        i = i + 1;
    }
}

/// Sort a listing of names into lexicographic order.  The result is the
/// unique sorted arrangement of exactly the given names.
pub fn sort_names(v: Vec<String>) -> (r: Vec<String>)
    ensures
        r.deep_view().to_multiset() == v.deep_view().to_multiset(),
        sorted_by(r.deep_view(), lex_leq()),
        r.deep_view() == v.deep_view().sort_by(lex_leq()),
{
    broadcast use vstd::seq_lib::group_to_multiset_ensures;

    let ghost orig = v.deep_view();
    let mut src = v;
    let mut out: Vec<String> = Vec::new();
    #[verifier::loop_isolation(false)]
    while src.len() > 0
        invariant
            out.deep_view().to_multiset().add(src.deep_view().to_multiset())
                =~= orig.to_multiset(),
            sorted_by(out.deep_view(), lex_leq()),
            forall|i: int, j: int|
                0 <= i < out.deep_view().len() && 0 <= j < src.deep_view().len() ==> lex_le(
                    #[trigger] out.deep_view()[i],
                    #[trigger] src.deep_view()[j],
                ),
        decreases src.len(),
    {
        let n = src.len();
        let mut best: usize = 0;
        let mut j: usize = 1;
        proof {
            lemma_lex_le_reflexive(src.deep_view()[0]);
        }
        #[verifier::loop_isolation(false)]
        while j < n
            invariant
                best < n,
                j <= n,
                n == src.len(),
                forall|m: int| 0 <= m < j ==> lex_le(src.deep_view()[best as int], #[trigger] src.deep_view()[m]),
            decreases n - j,
        {
            if str_le(&src[j], &src[best]) {
                proof {
                    assert forall|m: int|
                        0 <= m < j + 1 implies lex_le(
                        src.deep_view()[j as int],
                        #[trigger] src.deep_view()[m],
                    ) by {
                        if m < j {
                            lemma_lex_le_transitive(
                                src.deep_view()[j as int],
                                src.deep_view()[best as int],
                                src.deep_view()[m],
                            );
                        } else {
                            lemma_lex_le_reflexive(src.deep_view()[j as int]);
                        }
                    }
                }
                best = j;
            } else {
                proof {
                    lemma_lex_le_connected(src.deep_view()[j as int], src.deep_view()[best as int]);
                }
            }
            j = j + 1;
        }
        let ghost src_before = src.deep_view();
        let x = src.remove(best);
        proof {
            assert(src.deep_view() =~= src_before.remove(best as int));
            assert(src_before.remove(best as int).to_multiset() =~= src_before.to_multiset()
                .remove(src_before[best as int]));
        }
        let ghost out_before = out.deep_view();
        out.push(x);
        proof {
            assert(out.deep_view() =~= out_before.push(x@));
            assert(out_before.push(x@).to_multiset() =~= out_before.to_multiset().insert(x@));
            assert(out.deep_view().to_multiset().add(src.deep_view().to_multiset())
                =~= orig.to_multiset());
            assert forall|i: int, j2: int|
                0 <= i < out.deep_view().len() && 0 <= j2 < src.deep_view().len() implies lex_le(
                #[trigger] out.deep_view()[i],
                #[trigger] src.deep_view()[j2],
            ) by {
                let sj = if j2 < best { j2 } else { j2 + 1 };
                assert(src.deep_view()[j2] == src_before[sj]);
                if i < out_before.len() {
                    assert(out.deep_view()[i] == out_before[i]);
                    assert(lex_le(out_before[i], src_before[sj]));
                } else {
                    assert(out.deep_view()[i] == x@);
                    assert(x@ == src_before[best as int]);
                    assert(lex_le(src_before[best as int], src_before[sj]));
                }
            }
            assert forall|i: int, j2: int|
                0 <= i < j2 < out.deep_view().len() implies lex_le(
                #[trigger] out.deep_view()[i],
                #[trigger] out.deep_view()[j2],
            ) by {
                if j2 == out.deep_view().len() - 1 {
                    assert(out.deep_view()[j2] == x@);
                    assert(out.deep_view()[i] == out_before[i]);
                    assert(src_before[best as int] == x@);
                    assert(lex_le(out_before[i], src_before[best as int]));
                } else {
                    assert(out.deep_view()[i] == out_before[i]);
                    assert(out.deep_view()[j2] == out_before[j2]);
                    assert(lex_leq()(out_before[i], out_before[j2]));
                }
            }
        }
    }
    proof {
        assert(src.deep_view().to_multiset() =~= Multiset::<Seq<char>>::empty());
        assert(out.deep_view().to_multiset() =~= orig.to_multiset());
        lemma_lex_total_ordering();
        orig.lemma_sort_by_ensures(lex_leq());
        lemma_sorted_unique(out.deep_view(), orig.sort_by(lex_leq()), lex_leq());
    }
    out
}

/// Two sorted listings of the same names are the same listing.
pub proof fn lemma_sorted_names_unique(x: Seq<Seq<char>>, y: Seq<Seq<char>>)
    requires
        sorted_by(x, lex_leq()),
        sorted_by(y, lex_leq()),
        x.to_multiset() == y.to_multiset(),
    ensures
        x == y,
{
    lemma_lex_total_ordering();
    lemma_sorted_unique(x, y, lex_leq());
}

} // verus!
