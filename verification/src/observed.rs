//! The observed state: the classification that the system's package manager
//! reports at one instant.
//!
//! Two name lists — packages the manager considers explicitly requested, and
//! packages present only as dependencies.  Their union is the installed set
//! for this design; neither list is assumed to exclude the other.  The state
//! is rebuilt fresh for every reconciliation and never persisted.

use crate::names;
use vstd::prelude::*;

verus! {

/// Mathematical content of an [`ObservedState`]: the two name lists, in
/// their stored order.
pub struct ObservedView {
    pub explicit: Seq<Seq<char>>,
    pub deps: Seq<Seq<char>>,
}

/// Is `k` installed at all under this snapshot?
pub open spec fn installed(o: ObservedView, k: Seq<char>) -> bool {
    o.explicit.contains(k) || o.deps.contains(k)
}

/// A snapshot of the package manager's classification, with each list free
/// of repeated names.
pub struct ObservedState {
    explicit: Vec<String>,
    deps: Vec<String>,
}

impl View for ObservedState {
    type V = ObservedView;

    closed spec fn view(&self) -> ObservedView {
        ObservedView { explicit: self.explicit.deep_view(), deps: self.deps.deep_view() }
    }
}

impl ObservedState {
    /// Well-formed: no name occurs twice within a list.
    pub open spec fn wf(self) -> bool {
        names::distinct(self@.explicit) && names::distinct(self@.deps)
    }

    /// Build a snapshot from raw name lists, dropping repeated names and
    /// keeping first occurrences in order.
    pub fn from_lists(explicit: &Vec<String>, deps: &Vec<String>) -> (r: ObservedState)
        ensures
            r.wf(),
            r@.explicit == names::dedup_first(explicit.deep_view()),
            r@.deps == names::dedup_first(deps.deep_view()),
            forall|k: Seq<char>|
                #[trigger] r@.explicit.contains(k) == explicit.deep_view().contains(k),
            forall|k: Seq<char>| #[trigger] r@.deps.contains(k) == deps.deep_view().contains(k),
    {
        ObservedState { explicit: names::dedup(explicit), deps: names::dedup(deps) }
    }

    /// Does the manager consider `name` explicitly requested?
    pub fn is_explicit(&self, name: &String) -> (r: bool)
        ensures
            r == self@.explicit.contains(name@),
    {
        names::contains_name(&self.explicit, name)
    }

    /// Is `name` present only as a dependency?
    pub fn is_dep(&self, name: &String) -> (r: bool)
        ensures
            r == self@.deps.contains(name@),
    {
        names::contains_name(&self.deps, name)
    }

    /// Is `name` installed at all?
    pub fn is_installed(&self, name: &String) -> (r: bool)
        ensures
            r == installed(self@, name@),
    {
        self.is_explicit(name) || self.is_dep(name)
    }

    pub fn explicit_len(&self) -> (n: usize)
        ensures
            n == self@.explicit.len(),
    {
        self.explicit.len()
    }

    /// The explicitly-installed name at `i`, in stored order.
    pub fn explicit_at(&self, i: usize) -> (r: &String)
        requires
            i < self@.explicit.len(),
        ensures
            r@ == self@.explicit[i as int],
    {
        &self.explicit[i]
    }

    pub fn deps_len(&self) -> (n: usize)
        ensures
            n == self@.deps.len(),
    {
        self.deps.len()
    }

    /// The dependency-only name at `i`, in stored order.
    pub fn deps_at(&self, i: usize) -> (r: &String)
        requires
            i < self@.deps.len(),
        ensures
            r@ == self@.deps[i as int],
    {
        &self.deps[i]
    }
}

} // verus!
