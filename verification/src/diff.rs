//! The diff report: where the desired state and the observed classification
//! disagree.
//!
//! The plain report lists only classification transitions for managed
//! packages.  The "all" report adds managed-explicit packages that are not
//! installed at all, and installed-explicit packages that are not managed.
//! Unmanaged packages installed as dependencies are deliberately
//! noise-suppressed: they never appear, in either report.

use crate::observed::{ObservedState, ObservedView};
use crate::reconcile::{keys_of, wants_install};
use crate::seqs;
use crate::state::{has_key, lookup, PackageStates, StateSeq};
use vstd::prelude::*;

verus! {

/// What one diff entry reports about its package.
#[derive(Clone, Copy, Debug, PartialEq, Eq, Structural)]
pub enum DiffKind {
    /// Managed explicit, currently installed as a dependency.
    ShouldBeExplicit,
    /// Managed dependency-only, currently installed as explicit.
    ShouldBeDependency,
    /// Managed explicit, but not installed at all.
    NotInstalled,
    /// Installed as explicit, but not managed.
    Unmanaged,
}

/// Mathematical content of a [`DiffEntry`].
pub struct DiffEntryView {
    pub name: Seq<char>,
    pub kind: DiffKind,
}

/// One line of the diff report.
#[derive(Debug, Clone)]
pub struct DiffEntry {
    pub name: String,
    pub kind: DiffKind,
}

impl View for DiffEntry {
    type V = DiffEntryView;

    open spec fn view(&self) -> DiffEntryView {
        DiffEntryView { name: self.name@, kind: self.kind }
    }
}

impl DeepView for DiffEntry {
    type V = DiffEntryView;

    open spec fn deep_view(&self) -> DiffEntryView {
        self@
    }
}

/// Does the report list a transition for `k`?  Managed explicit but
/// installed as a dependency, or managed dependency-only but installed as
/// explicit.
pub open spec fn has_transition(d: StateSeq, o: ObservedView, k: Seq<char>) -> bool {
    has_key(d, k) && (if lookup(d, k).explicit {
        o.deps.contains(k)
    } else {
        o.explicit.contains(k)
    })
}

/// The transition entries, in desired-state order.
pub open spec fn transition_entries(d: StateSeq, o: ObservedView) -> Seq<DiffEntryView> {
    keys_of(d).filter(|k: Seq<char>| has_transition(d, o, k)).map_values(
        |k: Seq<char>| DiffEntryView {
            name: k,
            kind: if lookup(d, k).explicit {
                DiffKind::ShouldBeExplicit
            } else {
                DiffKind::ShouldBeDependency
            },
        },
    )
}

/// The managed-explicit-but-not-installed entries, in desired-state order.
pub open spec fn not_installed_entries(d: StateSeq, o: ObservedView) -> Seq<DiffEntryView> {
    keys_of(d).filter(|k: Seq<char>| wants_install(d, o, k)).map_values(
        |k: Seq<char>| DiffEntryView { name: k, kind: DiffKind::NotInstalled },
    )
}

/// The installed-explicit-but-unmanaged entries, in observed order.
pub open spec fn unmanaged_entries(d: StateSeq, o: ObservedView) -> Seq<DiffEntryView> {
    o.explicit.filter(|k: Seq<char>| !has_key(d, k)).map_values(
        |k: Seq<char>| DiffEntryView { name: k, kind: DiffKind::Unmanaged },
    )
}

/// The whole report: transitions always; the not-installed and unmanaged
/// entries only in the "all" report.
pub open spec fn diff_spec(d: StateSeq, o: ObservedView, all: bool) -> Seq<DiffEntryView> {
    if all {
        transition_entries(d, o) + not_installed_entries(d, o) + unmanaged_entries(d, o)
    } else {
        transition_entries(d, o)
    }
}

/// Compute the diff report of a desired state against an observed snapshot.
pub fn diff(desired: &PackageStates, observed: &ObservedState, all: bool) -> (r: Vec<DiffEntry>)
    requires
        desired.wf(),
    ensures
        r.deep_view() == diff_spec(desired@, observed@, all),
{
    let ghost d = desired@;
    let ghost o = observed@;
    let n = desired.len();

    let mut out: Vec<DiffEntry> = Vec::new();
    let ghost trans_pred = |k: Seq<char>| has_transition(d, o, k);
    let ghost trans_map = |k: Seq<char>| DiffEntryView {
        name: k,
        kind: if lookup(d, k).explicit {
            DiffKind::ShouldBeExplicit
        } else {
            DiffKind::ShouldBeDependency
        },
    };
    let mut i: usize = 0;
    #[verifier::loop_isolation(false)]
    while i < n
        invariant
            i <= n,
            out.deep_view() == keys_of(d).take(i as int).filter(trans_pred).map_values(trans_map),
        decreases n - i,
    {
        let name = desired.name_at(i);
        let st = desired.state_at(i);
        proof {
            crate::state::lemma_key_index(d, d[i as int].0, i as int);
            seqs::lemma_filter_push(keys_of(d).take(i as int), keys_of(d)[i as int], trans_pred);
            assert(keys_of(d).take(i as int).push(keys_of(d)[i as int]) =~= keys_of(d).take(i + 1));
        }
        if st.explicit {
            if observed.is_dep(name) {
                out.push(DiffEntry { name: name.clone(), kind: DiffKind::ShouldBeExplicit });
            }
        } else {
            if observed.is_explicit(name) {
                out.push(DiffEntry { name: name.clone(), kind: DiffKind::ShouldBeDependency });
            }
        }
        proof {
            let k = keys_of(d)[i as int];
            let f_prev = keys_of(d).take(i as int).filter(trans_pred);
            if trans_pred(k) {
                assert(keys_of(d).take(i + 1).filter(trans_pred) == f_prev.push(k));
                assert(f_prev.push(k).map_values(trans_map) =~= f_prev.map_values(
                    trans_map,
                ).push(trans_map(k)));
            } else {
                assert(keys_of(d).take(i + 1).filter(trans_pred) == f_prev);
            }
            assert(out.deep_view() =~= keys_of(d).take(i + 1).filter(trans_pred).map_values(
                trans_map,
            ));
        }
        i = i + 1;
    }
    proof {
        assert(keys_of(d).take(n as int) =~= keys_of(d));
        assert(out.deep_view() == transition_entries(d, o));
    }

    if all {
        let ghost done_trans = transition_entries(d, o);
        let ghost miss_pred = |k: Seq<char>| wants_install(d, o, k);
        let ghost miss_map = |k: Seq<char>| DiffEntryView { name: k, kind: DiffKind::NotInstalled };
        let mut i: usize = 0;
        #[verifier::loop_isolation(false)]
        while i < n
            invariant
                i <= n,
                out.deep_view() == done_trans + keys_of(d).take(i as int).filter(
                    miss_pred,
                ).map_values(miss_map),
            decreases n - i,
        {
            let name = desired.name_at(i);
            let st = desired.state_at(i);
            proof {
                crate::state::lemma_key_index(d, d[i as int].0, i as int);
                seqs::lemma_filter_push(keys_of(d).take(i as int), keys_of(d)[i as int], miss_pred);
                assert(keys_of(d).take(i as int).push(keys_of(d)[i as int]) =~= keys_of(d).take(
                    i + 1,
                ));
            }
            if st.explicit && !observed.is_installed(name) {
                out.push(DiffEntry { name: name.clone(), kind: DiffKind::NotInstalled });
            }
            proof {
                let k = keys_of(d)[i as int];
                let f_prev = keys_of(d).take(i as int).filter(miss_pred);
                if miss_pred(k) {
                    assert(keys_of(d).take(i + 1).filter(miss_pred) == f_prev.push(k));
                    assert(f_prev.push(k).map_values(miss_map) =~= f_prev.map_values(
                        miss_map,
                    ).push(miss_map(k)));
                    assert((done_trans + f_prev.map_values(miss_map)).push(miss_map(k)) =~= done_trans
                        + f_prev.map_values(miss_map).push(miss_map(k)));
                } else {
                    assert(keys_of(d).take(i + 1).filter(miss_pred) == f_prev);
                }
                assert(out.deep_view() =~= done_trans + keys_of(d).take(i + 1).filter(
                    miss_pred,
                ).map_values(miss_map));
            }
            i = i + 1;
        }
        proof {
            assert(keys_of(d).take(n as int) =~= keys_of(d));
            assert(out.deep_view() == done_trans + not_installed_entries(d, o));
        }

        let ghost done_miss = done_trans + not_installed_entries(d, o);
        let ghost unman_pred = |k: Seq<char>| !has_key(d, k);
        let ghost unman_map = |k: Seq<char>| DiffEntryView { name: k, kind: DiffKind::Unmanaged };
        let m = observed.explicit_len();
        let mut i: usize = 0;
        #[verifier::loop_isolation(false)]
        while i < m
            invariant
                i <= m,
                out.deep_view() == done_miss + o.explicit.take(i as int).filter(
                    unman_pred,
                ).map_values(unman_map),
            decreases m - i,
        {
            let name = observed.explicit_at(i);
            proof {
                seqs::lemma_filter_push(o.explicit.take(i as int), o.explicit[i as int], unman_pred);
                assert(o.explicit.take(i as int).push(o.explicit[i as int]) =~= o.explicit.take(
                    i + 1,
                ));
            }
            if !desired.contains_key(name) {
                out.push(DiffEntry { name: name.clone(), kind: DiffKind::Unmanaged });
            }
            proof {
                let k = o.explicit[i as int];
                let f_prev = o.explicit.take(i as int).filter(unman_pred);
                if unman_pred(k) {
                    assert(o.explicit.take(i + 1).filter(unman_pred) == f_prev.push(k));
                    assert(f_prev.push(k).map_values(unman_map) =~= f_prev.map_values(
                        unman_map,
                    ).push(unman_map(k)));
                    assert((done_miss + f_prev.map_values(unman_map)).push(unman_map(k)) =~= done_miss
                        + f_prev.map_values(unman_map).push(unman_map(k)));
                } else {
                    assert(o.explicit.take(i + 1).filter(unman_pred) == f_prev);
                }
                assert(out.deep_view() =~= done_miss + o.explicit.take(i + 1).filter(
                    unman_pred,
                ).map_values(unman_map));
            }
            i = i + 1;
        }
        proof {
            assert(o.explicit.take(m as int) =~= o.explicit);
            assert(out.deep_view() =~= diff_spec(d, o, all));
        }
    }
    out
}

/// Diff suppression: a package that is dependency-only on both sides —
/// absent from the desired state, and installed as a dependency — never
/// appears in the report, with or without "all".
pub proof fn lemma_diff_suppression(d: StateSeq, o: ObservedView, k: Seq<char>, all: bool)
    requires
        !has_key(d, k),
        o.deps.contains(k),
        !o.explicit.contains(k),
    ensures
        forall|i: int|
            0 <= i < diff_spec(d, o, all).len() ==> #[trigger] diff_spec(d, o, all)[i].name != k,
{
    let trans = transition_entries(d, o);
    let miss = not_installed_entries(d, o);
    let unman = unmanaged_entries(d, o);
    let trans_pred = |k: Seq<char>| has_transition(d, o, k);
    let miss_pred = |k: Seq<char>| wants_install(d, o, k);
    let unman_pred = |k: Seq<char>| !has_key(d, k);
    assert forall|i: int| 0 <= i < trans.len() implies trans[i].name != k by {
        let f = keys_of(d).filter(trans_pred);
        assert(trans[i].name == f[i]);
        assert(f.contains(f[i]));
        seqs::lemma_filter_membership(keys_of(d), trans_pred, f[i]);
    }
    assert forall|i: int| 0 <= i < miss.len() implies miss[i].name != k by {
        let f = keys_of(d).filter(miss_pred);
        assert(miss[i].name == f[i]);
        assert(f.contains(f[i]));
        seqs::lemma_filter_membership(keys_of(d), miss_pred, f[i]);
    }
    assert forall|i: int| 0 <= i < unman.len() implies unman[i].name != k by {
        let f = o.explicit.filter(unman_pred);
        assert(unman[i].name == f[i]);
        assert(f.contains(f[i]));
        seqs::lemma_filter_membership(o.explicit, unman_pred, f[i]);
    }
    assert forall|i: int|
        0 <= i < diff_spec(d, o, all).len() implies #[trigger] diff_spec(d, o, all)[i].name
        != k by {
        if all {
            if i < trans.len() {
                assert(diff_spec(d, o, all)[i] == trans[i]);
            } else if i < trans.len() + miss.len() {
                assert(diff_spec(d, o, all)[i] == miss[i - trans.len()]);
            } else {
                assert(diff_spec(d, o, all)[i] == unman[i - trans.len() - miss.len()]);
            }
        } else {
            assert(diff_spec(d, o, all)[i] == trans[i]);
        }
    }
}

} // verus!
