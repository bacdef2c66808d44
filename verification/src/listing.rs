//! The listing and query selections: which package names each listing
//! command shows, sorted for a human reader.

use crate::error::MoreeError;
use crate::names;
use crate::order::{lex_leq, sort_names};
use crate::reconcile::keys_of;
use crate::seqs;
use crate::state::{has_key, lookup, PackageStates, StateSeq};
use vstd::prelude::*;
use vstd::relations::sorted_by;

verus! {

/// The names a query with the given flags selects: explicitly managed,
/// managed as dependencies, or all managed names.
pub open spec fn query_selection_spec(d: StateSeq, explicit: bool, deps: bool) -> Seq<Seq<char>> {
    keys_of(d).filter(
        |k: Seq<char>| if explicit {
            lookup(d, k).explicit
        } else if deps {
            !lookup(d, k).explicit
        } else {
            true
        },
    )
}

/// The managed-explicit names: packages the user affirmed installing.
pub open spec fn managed_selection(d: StateSeq) -> Seq<Seq<char>> {
    query_selection_spec(d, true, false)
}

/// The installed-explicit names with no desired entry, repeats dropped.
pub open spec fn unmanaged_selection(d: StateSeq, installed: Seq<Seq<char>>) -> Seq<Seq<char>> {
    names::dedup_first(installed).filter(|k: Seq<char>| !has_key(d, k))
}

/// Collect the desired-state names that satisfy `pred` applied to each
/// entry's record, in storage order.
fn filter_names(states: &PackageStates, explicit: bool, deps: bool) -> (r: Vec<String>)
    requires
        states.wf(),
    ensures
        r.deep_view() == query_selection_spec(states@, explicit, deps),
{
    let ghost d = states@;
    let ghost pred = |k: Seq<char>| if explicit {
        lookup(d, k).explicit
    } else if deps {
        !lookup(d, k).explicit
    } else {
        true
    };
    let n = states.len();
    let mut out: Vec<String> = Vec::new();
    let mut i: usize = 0;
    #[verifier::loop_isolation(false)]
    while i < n
        invariant
            i <= n,
            out.deep_view() == keys_of(d).take(i as int).filter(pred),
        decreases n - i,
    {
        let name = states.name_at(i);
        let st = states.state_at(i);
        proof {
            crate::state::lemma_key_index(d, d[i as int].0, i as int);
            seqs::lemma_filter_push(keys_of(d).take(i as int), keys_of(d)[i as int], pred);
            assert(keys_of(d).take(i as int).push(keys_of(d)[i as int]) =~= keys_of(d).take(i + 1));
        }
        let keep = if explicit {
            st.explicit
        } else if deps {
            !st.explicit
        } else {
            true
        };
        if keep {
            out.push(name.clone());
        }
        proof {
            assert(out.deep_view() =~= keys_of(d).take(i + 1).filter(pred));
        }
        i = i + 1;
    }
    proof {
        assert(keys_of(d).take(n as int) =~= keys_of(d));
    }
    out
}

/// The managed-explicit names, sorted: what the managed listing prints.
pub fn managed_names(states: &PackageStates) -> (r: Vec<String>)
    requires
        states.wf(),
    ensures
        r.deep_view() == managed_selection(states@).sort_by(lex_leq()),
        r.deep_view().to_multiset() == managed_selection(states@).to_multiset(),
        sorted_by(r.deep_view(), lex_leq()),
{
    sort_names(filter_names(states, true, false))
}

/// The names a query selects, sorted.  The explicit and dependency filters
/// are mutually exclusive; giving both is an input error, and nothing is
/// computed.
pub fn query_selection(states: &PackageStates, explicit: bool, deps: bool) -> (r: Result<
    Vec<String>,
    MoreeError,
>)
    requires
        states.wf(),
    ensures
        (r is Err) == (explicit && deps),
        r matches Err(e) ==> e matches MoreeError::ConflictingFlags,
        r matches Ok(v) ==> v.deep_view() == query_selection_spec(states@, explicit, deps).sort_by(
            lex_leq(),
        ) && v.deep_view().to_multiset() == query_selection_spec(
            states@,
            explicit,
            deps,
        ).to_multiset() && sorted_by(v.deep_view(), lex_leq()),
{
    if explicit && deps {
        Err(MoreeError::ConflictingFlags)
    } else {
        Ok(sort_names(filter_names(states, explicit, deps)))
    }
}

/// The installed-explicit names that are not managed at all, sorted: what
/// the unmanaged listing prints.
pub fn unmanaged_names(states: &PackageStates, installed_explicit: &Vec<String>) -> (r: Vec<
    String,
>)
    requires
        states.wf(),
    ensures
        r.deep_view() == unmanaged_selection(states@, installed_explicit.deep_view()).sort_by(
            lex_leq(),
        ),
        r.deep_view().to_multiset() == unmanaged_selection(
            states@,
            installed_explicit.deep_view(),
        ).to_multiset(),
        sorted_by(r.deep_view(), lex_leq()),
{
    let ghost d = states@;
    let deduped = names::dedup(installed_explicit);
    let ghost inst = deduped.deep_view();
    let ghost pred = |k: Seq<char>| !has_key(d, k);
    let n = deduped.len();
    let mut out: Vec<String> = Vec::new();
    let mut i: usize = 0;
    #[verifier::loop_isolation(false)]
    while i < n
        invariant
            i <= n,
            out.deep_view() == inst.take(i as int).filter(pred),
        decreases n - i,
    {
        let name = &deduped[i];
        proof {
            seqs::lemma_filter_push(inst.take(i as int), inst[i as int], pred);
            assert(inst.take(i as int).push(inst[i as int]) =~= inst.take(i + 1));
        }
        if !states.contains_key(name) {
            out.push(name.clone());
        }
        proof {
            assert(out.deep_view() =~= inst.take(i + 1).filter(pred));
        }
        i = i + 1;
    }
    proof {
        assert(inst.take(n as int) =~= inst);
    }
    sort_names(out)
}

} // verus!
