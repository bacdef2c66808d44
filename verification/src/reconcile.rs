//! The reconciliation engine: pure planning of the actions that converge the
//! package manager's state to the desired state, under a policy.
//!
//! A plan is three batches of package names.  When a plan is carried out,
//! the install and mark-as-dependency batches are performed before the
//! remove batch, each as one batched call to the package manager, and a
//! failed batch aborts the rest of the plan.

use crate::observed::{installed, ObservedState, ObservedView};
use crate::seqs;
use crate::state::{has_key, lookup, unique_keys, PackageStates, StateSeq};
use vstd::prelude::*;

verus! {

/// Which kinds of convergence a reconciliation run may perform.  Marking an
/// already-installed package as a dependency is never gated: it is not
/// destructive and not a net-new install.
#[derive(Clone, Copy, Debug, PartialEq, Eq, Structural)]
pub struct Policy {
    pub installs: bool,
    pub uninstalls: bool,
}

impl Policy {
    /// Full bidirectional sync: installs and uninstalls both permitted.
    pub open spec fn full_sync_spec() -> Policy {
        Policy { installs: true, uninstalls: true }
    }

    /// The policy selected by the command-line flags.  Requesting installs
    /// and uninstalls together is the same as requesting a full sync: this
    /// is a normalization rule, not a fourth mode.
    pub open spec fn from_flags_spec(with_install: bool, with_uninstall: bool, sync: bool) -> Policy {
        if sync || (with_install && with_uninstall) {
            Policy::full_sync_spec()
        } else {
            Policy { installs: with_install, uninstalls: with_uninstall }
        }
    }

    pub fn full_sync() -> (r: Policy)
        ensures
            r == Policy::full_sync_spec(),
    {
        Policy { installs: true, uninstalls: true }
    }

    pub fn from_flags(with_install: bool, with_uninstall: bool, sync: bool) -> (r: Policy)
        ensures
            r == Policy::from_flags_spec(with_install, with_uninstall, sync),
    {
        if sync || (with_install && with_uninstall) {
            Policy::full_sync()
        } else {
            Policy { installs: with_install, uninstalls: with_uninstall }
        }
    }
}

/// Mathematical content of an [`ActionPlan`].
pub struct PlanView {
    pub to_install_explicit: Seq<Seq<char>>,
    pub to_mark_as_dependency: Seq<Seq<char>>,
    pub to_remove: Seq<Seq<char>>,
}

/// The actions that converge observed state to desired state: three batches
/// of package names, to be carried out install-and-mark first, remove last.
pub struct ActionPlan {
    pub to_install_explicit: Vec<String>,
    pub to_mark_as_dependency: Vec<String>,
    pub to_remove: Vec<String>,
}

impl View for ActionPlan {
    type V = PlanView;

    open spec fn view(&self) -> PlanView {
        PlanView {
            to_install_explicit: self.to_install_explicit.deep_view(),
            to_mark_as_dependency: self.to_mark_as_dependency.deep_view(),
            to_remove: self.to_remove.deep_view(),
        }
    }
}

impl ActionPlan {
    /// Does the plan ask for no action at all?
    pub fn is_empty(&self) -> (r: bool)
        ensures
            r == (self@.to_install_explicit.len() == 0 && self@.to_mark_as_dependency.len() == 0
                && self@.to_remove.len() == 0),
    {
        self.to_install_explicit.is_empty() && self.to_mark_as_dependency.is_empty()
            && self.to_remove.is_empty()
    }
}

/// Should `k` be installed anew as explicit?  Desired explicit, and not
/// installed at all.
pub open spec fn wants_install(d: StateSeq, o: ObservedView, k: Seq<char>) -> bool {
    has_key(d, k) && lookup(d, k).explicit && !installed(o, k)
}

/// Should `k` be (re)marked as a dependency?  Desired dependency-only, and
/// currently installed, whatever the manager's current classification.
pub open spec fn wants_mark(d: StateSeq, o: ObservedView, k: Seq<char>) -> bool {
    has_key(d, k) && !lookup(d, k).explicit && installed(o, k)
}

/// Should `k` be removed?  Installed, and not managed at all.  A managed
/// dependency-only package is never a removal candidate.
pub open spec fn wants_remove(d: StateSeq, o: ObservedView, k: Seq<char>) -> bool {
    installed(o, k) && !has_key(d, k)
}

/// The names of the desired-state entries, in storage order.
pub open spec fn keys_of(d: StateSeq) -> Seq<Seq<char>> {
    d.map_values(|e: (Seq<char>, crate::state::PackageStateView)| e.0)
}

/// The install batch: desired names, in order, that want installing.
pub open spec fn install_batch(d: StateSeq, o: ObservedView) -> Seq<Seq<char>> {
    keys_of(d).filter(|k: Seq<char>| wants_install(d, o, k))
}

/// The mark-as-dependency batch: desired names, in order, that want marking.
pub open spec fn mark_batch(d: StateSeq, o: ObservedView) -> Seq<Seq<char>> {
    keys_of(d).filter(|k: Seq<char>| wants_mark(d, o, k))
}

/// The remove batch: installed names with no desired entry; names from the
/// explicit list first, then dependency-only names not already listed.
pub open spec fn remove_batch(d: StateSeq, o: ObservedView) -> Seq<Seq<char>> {
    o.explicit.filter(|k: Seq<char>| !has_key(d, k)) + o.deps.filter(
        |k: Seq<char>| !has_key(d, k) && !o.explicit.contains(k),
    )
}

/// The whole plan under a policy: the mark batch is always computed, the
/// other two only when the policy permits them.
pub open spec fn plan_spec(d: StateSeq, o: ObservedView, policy: Policy) -> PlanView {
    PlanView {
        to_install_explicit: if policy.installs {
            install_batch(d, o)
        } else {
            Seq::empty()
        },
        to_mark_as_dependency: mark_batch(d, o),
        to_remove: if policy.uninstalls {
            remove_batch(d, o)
        } else {
            Seq::empty()
        },
    }
}

/// Compute the action plan for a desired state against an observed snapshot
/// under a policy.
pub fn plan(desired: &PackageStates, observed: &ObservedState, policy: Policy) -> (r: ActionPlan)
    requires
        desired.wf(),
    ensures
        r@ == plan_spec(desired@, observed@, policy),
{
    let ghost d = desired@;
    let ghost o = observed@;
    let n = desired.len();

    let mut to_install_explicit: Vec<String> = Vec::new();
    let ghost install_pred = |k: Seq<char>| wants_install(d, o, k);
    if policy.installs {
        let mut i: usize = 0;
        #[verifier::loop_isolation(false)]
        while i < n
            invariant
                i <= n,
                to_install_explicit.deep_view() == keys_of(d).take(i as int).filter(install_pred),
            decreases n - i,
        {
            let name = desired.name_at(i);
            let st = desired.state_at(i);
            proof {
                crate::state::lemma_key_index(d, d[i as int].0, i as int);
                seqs::lemma_filter_push(keys_of(d).take(i as int), keys_of(d)[i as int], install_pred);
                assert(keys_of(d).take(i as int).push(keys_of(d)[i as int]) =~= keys_of(d).take(
                    i + 1,
                ));
            }
            if st.explicit && !observed.is_installed(name) {
                to_install_explicit.push(name.clone());
            }
            proof {
                assert(to_install_explicit.deep_view() =~= keys_of(d).take(i + 1).filter(
                    install_pred,
                ));
            }
            i = i + 1;
        }
        proof {
            assert(keys_of(d).take(n as int) =~= keys_of(d));
        }
    }

    let mut to_mark_as_dependency: Vec<String> = Vec::new();
    let ghost mark_pred = |k: Seq<char>| wants_mark(d, o, k);
    let mut i: usize = 0;
    #[verifier::loop_isolation(false)]
    while i < n
        invariant
            i <= n,
            to_mark_as_dependency.deep_view() == keys_of(d).take(i as int).filter(mark_pred),
        decreases n - i,
    {
        let name = desired.name_at(i);
        let st = desired.state_at(i);
        proof {
            crate::state::lemma_key_index(d, d[i as int].0, i as int);
            assert(keys_of(d).take(i + 1).drop_last() =~= keys_of(d).take(i as int));
            seqs::lemma_filter_push(keys_of(d).take(i as int), keys_of(d)[i as int], mark_pred);
            assert(keys_of(d).take(i as int).push(keys_of(d)[i as int]) =~= keys_of(d).take(i + 1));
        }
        if !st.explicit && observed.is_installed(name) {
            to_mark_as_dependency.push(name.clone());
        }
        proof {
            assert(to_mark_as_dependency.deep_view() =~= keys_of(d).take(i + 1).filter(mark_pred));
        }
        i = i + 1;
    }
    proof {
        assert(keys_of(d).take(n as int) =~= keys_of(d));
    }

    let mut to_remove: Vec<String> = Vec::new();
    let ghost rem_explicit_pred = |k: Seq<char>| !has_key(d, k);
    let ghost rem_deps_pred = |k: Seq<char>| !has_key(d, k) && !o.explicit.contains(k);
    if policy.uninstalls {
        let m = observed.explicit_len();
        let mut i: usize = 0;
        #[verifier::loop_isolation(false)]
        while i < m
            invariant
                i <= m,
                to_remove.deep_view() == o.explicit.take(i as int).filter(rem_explicit_pred),
            decreases m - i,
        {
            let name = observed.explicit_at(i);
            proof {
                assert(o.explicit.take(i + 1).drop_last() =~= o.explicit.take(i as int));
                seqs::lemma_filter_push(o.explicit.take(i as int), o.explicit[i as int], rem_explicit_pred);
                assert(o.explicit.take(i as int).push(o.explicit[i as int]) =~= o.explicit.take(
                    i + 1,
                ));
            }
            if !desired.contains_key(name) {
                to_remove.push(name.clone());
            }
            proof {
                assert(to_remove.deep_view() =~= o.explicit.take(i + 1).filter(rem_explicit_pred));
            }
            i = i + 1;
        }
        proof {
            assert(o.explicit.take(m as int) =~= o.explicit);
        }
        let ghost from_explicit = o.explicit.filter(rem_explicit_pred);
        let m2 = observed.deps_len();
        let mut i: usize = 0;
        #[verifier::loop_isolation(false)]
        while i < m2
            invariant
                i <= m2,
                to_remove.deep_view() == from_explicit + o.deps.take(i as int).filter(rem_deps_pred),
            decreases m2 - i,
        {
            let name = observed.deps_at(i);
            proof {
                assert(o.deps.take(i + 1).drop_last() =~= o.deps.take(i as int));
                seqs::lemma_filter_push(o.deps.take(i as int), o.deps[i as int], rem_deps_pred);
                assert(o.deps.take(i as int).push(o.deps[i as int]) =~= o.deps.take(i + 1));
            }
            let ghost prev = o.deps.take(i as int).filter(rem_deps_pred);
            if !desired.contains_key(name) && !observed.is_explicit(name) {
                to_remove.push(name.clone());
                proof {
                    assert(to_remove.deep_view() =~= (from_explicit + prev).push(name@));
                    assert((from_explicit + prev).push(name@) =~= from_explicit + prev.push(
                        name@,
                    ));
                }
            }
            proof {
                assert(to_remove.deep_view() =~= from_explicit + o.deps.take(i + 1).filter(
                    rem_deps_pred,
                ));
            }
            i = i + 1;
        }
        proof {
            assert(o.deps.take(m2 as int) =~= o.deps);
        }
    }

    let r = ActionPlan { to_install_explicit, to_mark_as_dependency, to_remove };
    proof {
        assert(r@.to_install_explicit =~= plan_spec(d, o, policy).to_install_explicit);
        assert(r@.to_remove =~= plan_spec(d, o, policy).to_remove);
    }
    r
}

/// A name stands in the install batch exactly when it is desired explicit
/// and not installed at all.
pub proof fn lemma_install_batch_membership(d: StateSeq, o: ObservedView, k: Seq<char>)
    ensures
        install_batch(d, o).contains(k) == wants_install(d, o, k),
{
    seqs::lemma_filter_membership(keys_of(d), |k: Seq<char>| wants_install(d, o, k), k);
    if wants_install(d, o, k) {
        let i = choose|i: int| 0 <= i < d.len() && d[i].0 == k;
        assert(keys_of(d)[i] == k);
        assert(keys_of(d).contains(k));
    }
}

/// A name stands in the mark batch exactly when it is desired
/// dependency-only and currently installed.
pub proof fn lemma_mark_batch_membership(d: StateSeq, o: ObservedView, k: Seq<char>)
    ensures
        mark_batch(d, o).contains(k) == wants_mark(d, o, k),
{
    seqs::lemma_filter_membership(keys_of(d), |k: Seq<char>| wants_mark(d, o, k), k);
    if wants_mark(d, o, k) {
        let i = choose|i: int| 0 <= i < d.len() && d[i].0 == k;
        assert(keys_of(d)[i] == k);
        assert(keys_of(d).contains(k));
    }
}

/// A name stands in the remove batch exactly when it is installed and not
/// managed at all.
pub proof fn lemma_remove_batch_membership(d: StateSeq, o: ObservedView, k: Seq<char>)
    ensures
        remove_batch(d, o).contains(k) == wants_remove(d, o, k),
{
    let p1 = |k: Seq<char>| !has_key(d, k);
    let p2 = |k: Seq<char>| !has_key(d, k) && !o.explicit.contains(k);
    let a = o.explicit.filter(p1);
    let b = o.deps.filter(p2);
    seqs::lemma_filter_membership(o.explicit, p1, k);
    seqs::lemma_filter_membership(o.deps, p2, k);
    if wants_remove(d, o, k) {
        if o.explicit.contains(k) {
            let i = choose|i: int| 0 <= i < a.len() && a[i] == k;
            assert((a + b)[i] == k);
        } else {
            assert(o.deps.contains(k));
            let i = choose|i: int| 0 <= i < b.len() && b[i] == k;
            assert((a + b)[a.len() + i] == k);
        }
        assert(remove_batch(d, o).contains(k));
    }
    if remove_batch(d, o).contains(k) {
        let i = choose|i: int| 0 <= i < (a + b).len() && (a + b)[i] == k;
        if i < a.len() {
            assert(a[i] == k);
            assert(a.contains(k));
        } else {
            assert(b[i - a.len()] == k);
            assert(b.contains(k));
        }
    }
}

/// Policy monotonicity: the install batch is non-empty only when the policy
/// permits installs, the remove batch only when it permits uninstalls, and
/// the mark-as-dependency batch does not depend on the policy at all.
pub proof fn lemma_policy_monotonicity(d: StateSeq, o: ObservedView, policy: Policy)
    ensures
        !policy.installs ==> plan_spec(d, o, policy).to_install_explicit.len() == 0,
        !policy.uninstalls ==> plan_spec(d, o, policy).to_remove.len() == 0,
        plan_spec(d, o, policy).to_mark_as_dependency == plan_spec(
            d,
            o,
            Policy::full_sync_spec(),
        ).to_mark_as_dependency,
{
}

/// Normalization: selecting installs and uninstalls together is the full
/// sync, and the sync switch alone forces it, whatever the other flags; the
/// resulting plans are identical.
pub proof fn lemma_full_sync_normalization(d: StateSeq, o: ObservedView)
    ensures
        plan_spec(d, o, Policy::from_flags_spec(true, true, false)) == plan_spec(
            d,
            o,
            Policy::full_sync_spec(),
        ),
        forall|wi: bool, wu: bool|
            plan_spec(d, o, #[trigger] Policy::from_flags_spec(wi, wu, true)) == plan_spec(
                d,
                o,
                Policy::full_sync_spec(),
            ),
{
}

/// An observed snapshot as it stands after the full-sync plan for `(d, o)`
/// has been carried out: installed names joined by the install batch, the
/// marked names moved to the dependency side, the removed names gone.
pub open spec fn plan_applied(d: StateSeq, o: ObservedView, o2: ObservedView) -> bool {
    &&& forall|k: Seq<char>|
        #[trigger] o2.explicit.contains(k) <==> ((o.explicit.contains(k) && !wants_mark(d, o, k)
            && !wants_remove(d, o, k)) || wants_install(d, o, k))
    &&& forall|k: Seq<char>|
        #[trigger] o2.deps.contains(k) <==> ((o.deps.contains(k) && !wants_remove(d, o, k))
            || wants_mark(d, o, k))
}

/// Plan idempotence: once the full-sync plan has been carried out,
/// replanning asks for no install and no removal, the mark-as-dependency
/// batch names the same packages as before (re-marking an installed
/// dependency is never gated), and carrying the new plan out changes the
/// observed state no further — converging once is stable.
pub proof fn lemma_plan_idempotence(d: StateSeq, o: ObservedView, o2: ObservedView)
    requires
        unique_keys(d),
        plan_applied(d, o, o2),
    ensures
        plan_spec(d, o2, Policy::full_sync_spec()).to_install_explicit == Seq::<Seq<char>>::empty(),
        plan_spec(d, o2, Policy::full_sync_spec()).to_remove == Seq::<Seq<char>>::empty(),
        forall|k: Seq<char>| #[trigger] wants_mark(d, o2, k) == wants_mark(d, o, k),
        plan_applied(d, o2, o2),
{
    // Every managed name is installed afterwards when desired explicit,
    // and every installed name is managed.
    assert forall|k: Seq<char>|
        has_key(d, k) && lookup(d, k).explicit implies installed(o2, k) by {
        if installed(o, k) {
            if o.explicit.contains(k) {
                assert(o2.explicit.contains(k));
            } else {
                assert(o.deps.contains(k));
                assert(o2.deps.contains(k));
            }
        } else {
            assert(wants_install(d, o, k));
            assert(o2.explicit.contains(k));
        }
    }
    assert forall|k: Seq<char>| installed(o2, k) implies has_key(d, k) by {
        if o2.explicit.contains(k) {
        } else {
            assert(o2.deps.contains(k));
        }
    }
    assert forall|k: Seq<char>| #[trigger] wants_mark(d, o2, k) == wants_mark(d, o, k) by {
        if has_key(d, k) && !lookup(d, k).explicit {
            if installed(o, k) {
                if o.explicit.contains(k) {
                    assert(wants_mark(d, o, k));
                    assert(o2.deps.contains(k));
                } else {
                    assert(o.deps.contains(k));
                    assert(o2.deps.contains(k));
                }
            } else {
                assert(!o2.explicit.contains(k));
                assert(!o2.deps.contains(k));
            }
        }
    }
    let install_pred = |k: Seq<char>| wants_install(d, o2, k);
    assert forall|i: int| 0 <= i < keys_of(d).len() implies !install_pred(keys_of(d)[i]) by {
        assert(keys_of(d)[i] == d[i].0);
    }
    seqs::lemma_filter_empty(keys_of(d), install_pred);
    let p1 = |k: Seq<char>| !has_key(d, k);
    let p2 = |k: Seq<char>| !has_key(d, k) && !o2.explicit.contains(k);
    assert forall|i: int| 0 <= i < o2.explicit.len() implies !p1(o2.explicit[i]) by {
        assert(o2.explicit.contains(o2.explicit[i]));
        assert(installed(o2, o2.explicit[i]));
    }
    seqs::lemma_filter_empty(o2.explicit, p1);
    assert forall|i: int| 0 <= i < o2.deps.len() implies !p2(o2.deps[i]) by {
        assert(o2.deps.contains(o2.deps[i]));
        assert(installed(o2, o2.deps[i]));
    }
    seqs::lemma_filter_empty(o2.deps, p2);
    assert(remove_batch(d, o2) =~= Seq::<Seq<char>>::empty());
    // The stabilized snapshot is its own successor.
    assert forall|k: Seq<char>| #[trigger] wants_install(d, o2, k) == false by {
    }
    assert forall|k: Seq<char>| #[trigger] wants_remove(d, o2, k) == false by {
        if installed(o2, k) {
        }
    }
    assert forall|k: Seq<char>|
        #[trigger] o2.explicit.contains(k) implies !wants_mark(d, o2, k) by {
        if o.explicit.contains(k) && !wants_mark(d, o, k) && !wants_remove(d, o, k) {
            if has_key(d, k) && !lookup(d, k).explicit {
                assert(installed(o, k));
                assert(wants_mark(d, o, k));
            }
        } else {
            assert(wants_install(d, o, k));
        }
    }
    assert forall|k: Seq<char>| #[trigger] wants_mark(d, o2, k) implies o2.deps.contains(k) by {
        assert(wants_mark(d, o, k));
    }
}

/// No batch of a plan names a package twice, provided the observed lists do
/// not either.
pub proof fn lemma_plan_batches_distinct(d: StateSeq, o: ObservedView, policy: Policy)
    requires
        unique_keys(d),
        crate::names::distinct(o.explicit),
        crate::names::distinct(o.deps),
    ensures
        crate::names::distinct(plan_spec(d, o, policy).to_install_explicit),
        crate::names::distinct(plan_spec(d, o, policy).to_mark_as_dependency),
        crate::names::distinct(plan_spec(d, o, policy).to_remove),
{
    assert forall|i: int, j: int|
        0 <= i < j < keys_of(d).len() implies keys_of(d)[i] != keys_of(d)[j] by {
        assert(keys_of(d)[i] == d[i].0);
        assert(keys_of(d)[j] == d[j].0);
    }
    seqs::lemma_filter_distinct(keys_of(d), |k: Seq<char>| wants_install(d, o, k));
    seqs::lemma_filter_distinct(keys_of(d), |k: Seq<char>| wants_mark(d, o, k));
    let p1 = |k: Seq<char>| !has_key(d, k);
    let p2 = |k: Seq<char>| !has_key(d, k) && !o.explicit.contains(k);
    let a = o.explicit.filter(p1);
    let b = o.deps.filter(p2);
    seqs::lemma_filter_distinct(o.explicit, p1);
    seqs::lemma_filter_distinct(o.deps, p2);
    assert forall|i: int, j: int| 0 <= i < j < (a + b).len() implies (a + b)[i] != (a + b)[j] by {
        if i < a.len() && j >= a.len() {
            assert((a + b)[i] == a[i]);
            assert((a + b)[j] == b[j - a.len()]);
            assert(a.contains(a[i]));
            seqs::lemma_filter_membership(o.explicit, p1, a[i]);
            assert(b.contains(b[j - a.len()]));
            seqs::lemma_filter_membership(o.deps, p2, b[j - a.len()]);
        }
    }
}

/// Plan under the separate install/uninstall switches.
pub fn apply(
    desired: &PackageStates,
    observed: &ObservedState,
    with_install: bool,
    with_uninstall: bool,
) -> (r: ActionPlan)
    requires
        desired.wf(),
    ensures
        r@ == plan_spec(
            desired@,
            observed@,
            (Policy { installs: with_install, uninstalls: with_uninstall }),
        ),
{
    plan(desired, observed, Policy { installs: with_install, uninstalls: with_uninstall })
}

/// Plan a full bidirectional sync.
pub fn apply_sync(desired: &PackageStates, observed: &ObservedState) -> (r: ActionPlan)
    requires
        desired.wf(),
    ensures
        r@ == plan_spec(desired@, observed@, Policy::full_sync_spec()),
{
    plan(desired, observed, Policy::full_sync())
}

/// Plan under the command-line flags, normalizing install-and-uninstall
/// together to a full sync.
pub fn run(
    desired: &PackageStates,
    observed: &ObservedState,
    with_install: bool,
    with_uninstall: bool,
    sync: bool,
) -> (r: ActionPlan)
    requires
        desired.wf(),
    ensures
        r@ == plan_spec(
            desired@,
            observed@,
            Policy::from_flags_spec(with_install, with_uninstall, sync),
        ),
{
    if sync || (with_install && with_uninstall) {
        apply_sync(desired, observed)
    } else {
        apply(desired, observed, with_install, with_uninstall)
    }
}

} // verus!
