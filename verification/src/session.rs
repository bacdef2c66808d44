//! The interactive classification session: a deterministic walk over a
//! candidate package list that builds the desired state from per-package
//! answers.
//!
//! The caller owns the prompting; the library owns every decision.  The
//! session is replayable: the same starting state, candidate list and
//! answers always produce the same resulting state and outcome, and a
//! session that was quit, saved, and started over converges to the state a
//! single uninterrupted session would have produced.

use crate::error::MoreeError;
use crate::names;
use crate::seqs;
use crate::state::{
    has_key, lookup, normalize_memo, unique_keys, upsert, PackageState, PackageStateView,
    PackageStates, StateSeq,
};
use vstd::prelude::*;

verus! {

/// Mathematical content of an [`Answer`].
pub enum AnswerView {
    Yes { memo: Option<Seq<char>> },
    No,
    Skip,
    Quit,
}

/// One per-package answer: the user affirms the explicit installation
/// (optionally with a memo), denies it, skips the package, or quits the
/// session.
#[derive(Debug, Clone)]
pub enum Answer {
    Yes { memo: Option<String> },
    No,
    Skip,
    Quit,
}

impl View for Answer {
    type V = AnswerView;

    open spec fn view(&self) -> AnswerView {
        match self {
            Answer::Yes { memo } => AnswerView::Yes { memo: memo.deep_view() },
            Answer::No => AnswerView::No,
            Answer::Skip => AnswerView::Skip,
            Answer::Quit => AnswerView::Quit,
        }
    }
}

impl DeepView for Answer {
    type V = AnswerView;

    open spec fn deep_view(&self) -> AnswerView {
        self@
    }
}

/// How a session ended: every candidate was consumed, or the user quit
/// while the candidate at `index` was being prompted.  Quitting is a normal
/// terminal path, not a failure.
#[derive(Clone, Copy, Debug, PartialEq, Eq, Structural)]
pub enum SessionOutcome {
    Completed,
    QuitAt { index: usize },
}

/// The record written by an affirmative answer: explicit, with the memo
/// normalized.
pub open spec fn yes_record(memo: Option<Seq<char>>) -> PackageStateView {
    PackageStateView { explicit: true, memo: normalize_memo(memo) }
}

/// The record written by a negative answer: a managed dependency, no memo.
pub open spec fn no_record() -> PackageStateView {
    PackageStateView { explicit: false, memo: None }
}

/// The session, as a function: walk the candidates from index `i`; skip a
/// candidate already affirmed explicit without consuming its answer's
/// content; otherwise write what the answer says and go on, or stop at a
/// quit.  Returns the resulting state and the outcome.
pub open spec fn session_spec(
    s: StateSeq,
    c: Seq<Seq<char>>,
    a: Seq<AnswerView>,
    i: int,
) -> (StateSeq, SessionOutcome)
    decreases c.len() - i,
{
    if i < 0 || i >= c.len() {
        (s, SessionOutcome::Completed)
    } else {
        let k = c[i];
        if has_key(s, k) && lookup(s, k).explicit {
            session_spec(s, c, a, i + 1)
        } else {
            match a[i] {
                AnswerView::Yes { memo } => session_spec(upsert(s, k, yes_record(memo)), c, a, i + 1),
                AnswerView::No => session_spec(upsert(s, k, no_record()), c, a, i + 1),
                AnswerView::Skip => session_spec(s, c, a, i + 1),
                AnswerView::Quit => (s, SessionOutcome::QuitAt { index: i as usize }),
            }
        }
    }
}

fn clone_memo(memo: &Option<String>) -> (r: Option<String>)
    ensures
        r.deep_view() == memo.deep_view(),
{
    match memo {
        Some(m) => Some(m.clone()),
        None => None,
    }
}

/// Run one classification session over `candidates`, reading the answer for
/// candidate `i` from `answers[i]`.  The state is mutated in memory whatever
/// the outcome; whether it is persisted afterwards is the caller's decision
/// (see [`save_decision`]).
pub fn run_session(
    states: &mut PackageStates,
    candidates: &Vec<String>,
    answers: &Vec<Answer>,
) -> (outcome: SessionOutcome)
    requires
        old(states).wf(),
        answers@.len() == candidates@.len(),
    ensures
        final(states).wf(),
        final(states)@ == session_spec(
            old(states)@,
            candidates.deep_view(),
            answers.deep_view(),
            0,
        ).0,
        outcome == session_spec(old(states)@, candidates.deep_view(), answers.deep_view(), 0).1,
{
    let ghost s0 = states@;
    let ghost cv = candidates.deep_view();
    let ghost av = answers.deep_view();
    let n = candidates.len();
    let mut i: usize = 0;
    #[verifier::loop_isolation(false)]
    while i < n
        invariant
            i <= n,
            states.wf(),
            session_spec(s0, cv, av, 0) == session_spec(states@, cv, av, i as int),
        decreases n - i,
    {
        let name = &candidates[i];
        assert(name@ == cv[i as int]);
        if !states.is_explicit(name) {
            match &answers[i] {
                Answer::Yes { memo } => {
                    let st = PackageState::new(true, clone_memo(memo));
                    states.insert(name.clone(), st);
                },
                Answer::No => {
                    let st = PackageState::new(false, None);
                    states.insert(name.clone(), st);
                },
                Answer::Skip => {},
                Answer::Quit => {
                    proof {
                        assert(av[i as int] == answers@[i as int]@);
                        assert(session_spec(states@, cv, av, i as int) == (
                            states@,
                            SessionOutcome::QuitAt { index: i },
                        ));
                    }
                    return SessionOutcome::QuitAt { index: i };
                },
            }
        }
        proof {
            assert(av[i as int] == answers@[i as int]@);
            assert(session_spec(s0, cv, av, 0) == session_spec(states@, cv, av, i + 1));
        }
        i = i + 1;
    }
    SessionOutcome::Completed
}

/// A session keeps the desired state's keys pairwise distinct.
pub proof fn lemma_session_wf(s: StateSeq, c: Seq<Seq<char>>, a: Seq<AnswerView>, i: int)
    requires
        unique_keys(s),
    ensures
        unique_keys(session_spec(s, c, a, i).0),
    decreases c.len() - i,
{
    if i < 0 || i >= c.len() {
    } else {
        let k0 = c[i];
        if has_key(s, k0) && lookup(s, k0).explicit {
            lemma_session_wf(s, c, a, i + 1);
        } else {
            match a[i] {
                AnswerView::Yes { memo } => {
                    crate::state::lemma_upsert(s, k0, yes_record(memo));
                    lemma_session_wf(upsert(s, k0, yes_record(memo)), c, a, i + 1);
                },
                AnswerView::No => {
                    crate::state::lemma_upsert(s, k0, no_record());
                    lemma_session_wf(upsert(s, k0, no_record()), c, a, i + 1);
                },
                AnswerView::Skip => {
                    lemma_session_wf(s, c, a, i + 1);
                },
                AnswerView::Quit => {},
            }
        }
    }
}

/// A package already affirmed explicit stays managed and explicit through
/// the rest of a session: later answers can never reach it again.
pub proof fn lemma_session_preserves_explicit(
    s: StateSeq,
    c: Seq<Seq<char>>,
    a: Seq<AnswerView>,
    i: int,
    k: Seq<char>,
)
    requires
        unique_keys(s),
        has_key(s, k),
        lookup(s, k).explicit,
    ensures
        has_key(session_spec(s, c, a, i).0, k),
        lookup(session_spec(s, c, a, i).0, k).explicit,
    decreases c.len() - i,
{
    if i < 0 || i >= c.len() {
    } else {
        let k0 = c[i];
        if has_key(s, k0) && lookup(s, k0).explicit {
            lemma_session_preserves_explicit(s, c, a, i + 1, k);
        } else {
            assert(k0 != k);
            match a[i] {
                AnswerView::Yes { memo } => {
                    crate::state::lemma_upsert(s, k0, yes_record(memo));
                    lemma_session_preserves_explicit(upsert(s, k0, yes_record(memo)), c, a, i + 1, k);
                },
                AnswerView::No => {
                    crate::state::lemma_upsert(s, k0, no_record());
                    lemma_session_preserves_explicit(upsert(s, k0, no_record()), c, a, i + 1, k);
                },
                AnswerView::Skip => {
                    lemma_session_preserves_explicit(s, c, a, i + 1, k);
                },
                AnswerView::Quit => {},
            }
        }
    }
}

/// A package recorded as a plain managed dependency keeps exactly that
/// record through a session unless some answer affirms it explicit.
pub proof fn lemma_session_dep_record(
    s: StateSeq,
    c: Seq<Seq<char>>,
    a: Seq<AnswerView>,
    i: int,
    k: Seq<char>,
)
    requires
        unique_keys(s),
        has_key(s, k),
        lookup(s, k) == no_record(),
    ensures
        has_key(session_spec(s, c, a, i).0, k),
        lookup(session_spec(s, c, a, i).0, k).explicit || lookup(session_spec(s, c, a, i).0, k)
            == no_record(),
    decreases c.len() - i,
{
    if i < 0 || i >= c.len() {
    } else {
        let k0 = c[i];
        if has_key(s, k0) && lookup(s, k0).explicit {
            lemma_session_dep_record(s, c, a, i + 1, k);
        } else {
            match a[i] {
                AnswerView::Yes { memo } => {
                    let s2 = upsert(s, k0, yes_record(memo));
                    crate::state::lemma_upsert(s, k0, yes_record(memo));
                    if k0 == k {
                        lemma_session_preserves_explicit(s2, c, a, i + 1, k);
                    } else {
                        lemma_session_dep_record(s2, c, a, i + 1, k);
                    }
                },
                AnswerView::No => {
                    let s2 = upsert(s, k0, no_record());
                    crate::state::lemma_upsert(s, k0, no_record());
                    lemma_session_dep_record(s2, c, a, i + 1, k);
                },
                AnswerView::Skip => {
                    lemma_session_dep_record(s, c, a, i + 1, k);
                },
                AnswerView::Quit => {},
            }
        }
    }
}

/// A quit outcome names a candidate index at or after where the walk began.
pub proof fn lemma_session_quit_index(s: StateSeq, c: Seq<Seq<char>>, a: Seq<AnswerView>, i: int)
    requires
        0 <= i,
        c.len() <= usize::MAX,
    ensures
        session_spec(s, c, a, i).1 matches SessionOutcome::QuitAt { index } ==> i <= index
            < c.len(),
    decreases c.len() - i,
{
    if i < 0 || i >= c.len() {
    } else {
        let k0 = c[i];
        if has_key(s, k0) && lookup(s, k0).explicit {
            lemma_session_quit_index(s, c, a, i + 1);
        } else {
            match a[i] {
                AnswerView::Yes { memo } => {
                    lemma_session_quit_index(upsert(s, k0, yes_record(memo)), c, a, i + 1);
                },
                AnswerView::No => {
                    lemma_session_quit_index(upsert(s, k0, no_record()), c, a, i + 1);
                },
                AnswerView::Skip => {
                    lemma_session_quit_index(s, c, a, i + 1);
                },
                AnswerView::Quit => {},
            }
        }
    }
}

/// The induction behind session resumability, walking from index `i`.
proof fn lemma_resume_from(
    s: StateSeq,
    c: Seq<Seq<char>>,
    a: Seq<AnswerView>,
    b: Seq<AnswerView>,
    i: int,
    q: int,
)
    requires
        unique_keys(s),
        c.len() <= usize::MAX,
        0 <= i <= q < c.len(),
        forall|j: int| i <= j < q ==> a[j] == b[j],
        session_spec(s, c, a, i).1 == (SessionOutcome::QuitAt { index: q as usize }),
    ensures
        session_spec(session_spec(s, c, a, i).0, c, b, i) == session_spec(s, c, b, i),
    decreases q - i,
{
    let s1 = session_spec(s, c, a, i).0;
    let k = c[i];
    if has_key(s, k) && lookup(s, k).explicit {
        if i == q {
            lemma_session_quit_index(s, c, a, i + 1);
            assert(false);
        } else {
            lemma_resume_from(s, c, a, b, i + 1, q);
            lemma_session_preserves_explicit(s, c, a, i + 1, k);
            assert(session_spec(s1, c, b, i) == session_spec(s1, c, b, i + 1));
            assert(session_spec(s, c, b, i) == session_spec(s, c, b, i + 1));
        }
    } else {
        if i == q {
            match a[i] {
                AnswerView::Yes { memo } => {
                    lemma_session_quit_index(upsert(s, k, yes_record(memo)), c, a, i + 1);
                    assert(false);
                },
                AnswerView::No => {
                    lemma_session_quit_index(upsert(s, k, no_record()), c, a, i + 1);
                    assert(false);
                },
                AnswerView::Skip => {
                    lemma_session_quit_index(s, c, a, i + 1);
                    assert(false);
                },
                AnswerView::Quit => {
                    assert(s1 == s);
                },
            }
        } else {
            assert(a[i] == b[i]);
            match a[i] {
                AnswerView::Yes { memo } => {
                    let s2 = upsert(s, k, yes_record(memo));
                    crate::state::lemma_upsert(s, k, yes_record(memo));
                    lemma_resume_from(s2, c, a, b, i + 1, q);
                    lemma_session_preserves_explicit(s2, c, a, i + 1, k);
                    assert(session_spec(s1, c, b, i) == session_spec(s1, c, b, i + 1));
                    assert(session_spec(s, c, b, i) == session_spec(s2, c, b, i + 1));
                },
                AnswerView::No => {
                    let s2 = upsert(s, k, no_record());
                    crate::state::lemma_upsert(s, k, no_record());
                    lemma_resume_from(s2, c, a, b, i + 1, q);
                    lemma_session_wf(s2, c, a, i + 1);
                    lemma_session_dep_record(s2, c, a, i + 1, k);
                    if has_key(s1, k) && lookup(s1, k).explicit {
                        assert(session_spec(s1, c, b, i) == session_spec(s1, c, b, i + 1));
                    } else {
                        assert(lookup(s1, k) == no_record());
                        crate::state::lemma_upsert_identity(s1, k);
                        assert(upsert(s1, k, no_record()) == s1);
                        assert(session_spec(s1, c, b, i) == session_spec(s1, c, b, i + 1));
                    }
                    assert(session_spec(s, c, b, i) == session_spec(s2, c, b, i + 1));
                },
                AnswerView::Skip => {
                    lemma_resume_from(s, c, a, b, i + 1, q);
                    assert(session_spec(s1, c, b, i) == session_spec(s1, c, b, i + 1));
                    assert(session_spec(s, c, b, i) == session_spec(s, c, b, i + 1));
                },
                AnswerView::Quit => {
                    assert(i as usize == q as usize);
                    assert(false);
                },
            }
        }
    }
}

/// Session resumability: when a session over `c` with answers `a` is quit
/// at candidate `q` and its state kept, a fresh session from that state
/// whose answers agree with `a` before `q` ends in exactly the state and
/// outcome that one uninterrupted session with the new answers would have
/// produced.  Quitting, saving, and picking the walk up later loses
/// nothing.
pub proof fn lemma_session_resumability(
    s: StateSeq,
    c: Seq<Seq<char>>,
    a: Seq<AnswerView>,
    b: Seq<AnswerView>,
    q: int,
)
    requires
        unique_keys(s),
        c.len() <= usize::MAX,
        0 <= q < c.len(),
        forall|j: int| 0 <= j < q ==> a[j] == b[j],
        session_spec(s, c, a, 0).1 == (SessionOutcome::QuitAt { index: q as usize }),
    ensures
        session_spec(session_spec(s, c, a, 0).0, c, b, 0) == session_spec(s, c, b, 0),
{
    lemma_resume_from(s, c, a, b, 0, q);
}

/// Whether the state is persisted at the end of a session: always after a
/// completed walk; after a quit, only when the user chose to save.  Earlier
/// per-package writes stay in memory either way.
pub fn save_decision(outcome: &SessionOutcome, save_on_quit: bool) -> (r: bool)
    ensures
        r == (match outcome {
            SessionOutcome::Completed => true,
            SessionOutcome::QuitAt { .. } => save_on_quit,
        }),
{
    match outcome {
        SessionOutcome::Completed => true,
        SessionOutcome::QuitAt { .. } => save_on_quit,
    }
}

/// The requested names that are not installed, in request order.
pub open spec fn missing_from(req: Seq<Seq<char>>, inst: Seq<Seq<char>>) -> Seq<Seq<char>> {
    req.filter(|k: Seq<char>| !inst.contains(k))
}

/// Verify a caller-supplied candidate list against the installed set before
/// a session starts.  Succeeds with the whole list exactly when every
/// requested package is installed; fails — before any prompt — with every
/// missing package enumerated otherwise.
pub fn check_candidates(requested: &Vec<String>, installed: &Vec<String>) -> (r: Result<
    Vec<String>,
    MoreeError,
>)
    ensures
        (r is Ok) == (missing_from(requested.deep_view(), installed.deep_view()).len() == 0),
        r matches Ok(v) ==> v.deep_view() == requested.deep_view(),
        r matches Err(e) ==> e matches MoreeError::NotInstalled { missing }
            && missing.deep_view() == missing_from(requested.deep_view(), installed.deep_view()),
{
    let ghost req = requested.deep_view();
    let ghost inst = installed.deep_view();
    let ghost miss_pred = |k: Seq<char>| !inst.contains(k);
    let n = requested.len();
    let mut ok: Vec<String> = Vec::new();
    let mut missing: Vec<String> = Vec::new();
    let mut i: usize = 0;
    #[verifier::loop_isolation(false)]
    while i < n
        invariant
            i <= n,
            ok.deep_view() == req.take(i as int).filter(|k: Seq<char>| inst.contains(k)),
            missing.deep_view() == req.take(i as int).filter(miss_pred),
        decreases n - i,
    {
        let name = &requested[i];
        proof {
            seqs::lemma_filter_push(req.take(i as int), req[i as int], miss_pred);
            seqs::lemma_filter_push(
                req.take(i as int),
                req[i as int],
                |k: Seq<char>| inst.contains(k),
            );
            assert(req.take(i as int).push(req[i as int]) =~= req.take(i + 1));
        }
        if names::contains_name(installed, name) {
            ok.push(name.clone());
        } else {
            missing.push(name.clone());
        }
        proof {
            assert(ok.deep_view() =~= req.take(i + 1).filter(|k: Seq<char>| inst.contains(k)));
            assert(missing.deep_view() =~= req.take(i + 1).filter(miss_pred));
        }
        i = i + 1;
    }
    proof {
        assert(req.take(n as int) =~= req);
    }
    if missing.is_empty() {
        proof {
            assert forall|j: int| 0 <= j < req.len() implies inst.contains(req[j]) by {
                if !inst.contains(req[j]) {
                    assert(req.contains(req[j]));
                    seqs::lemma_filter_membership(req, miss_pred, req[j]);
                }
            }
            seqs::lemma_filter_all_true(req, |k: Seq<char>| inst.contains(k));
        }
        Ok(ok)
    } else {
        Err(MoreeError::NotInstalled { missing })
    }
}

/// The candidate list of a session: the caller-supplied names, checked
/// against the installed set, or — when none were supplied — the whole
/// observed-explicit list.
pub fn select_candidates(requested: &Vec<String>, installed_explicit: &Vec<String>) -> (r: Result<
    Vec<String>,
    MoreeError,
>)
    ensures
        requested.deep_view().len() == 0 ==> (r matches Ok(v) && v.deep_view()
            == installed_explicit.deep_view()),
        requested.deep_view().len() > 0 ==> {
            &&& (r is Ok) == (missing_from(
                requested.deep_view(),
                installed_explicit.deep_view(),
            ).len() == 0)
            &&& (r matches Ok(v) ==> v.deep_view() == requested.deep_view())
            &&& (r matches Err(e) ==> e matches MoreeError::NotInstalled { missing }
                && missing.deep_view() == missing_from(
                requested.deep_view(),
                installed_explicit.deep_view(),
            ))
        },
{
    if requested.is_empty() {
        let mut all: Vec<String> = Vec::new();
        let n = installed_explicit.len();
        let mut i: usize = 0;
        #[verifier::loop_isolation(false)]
        while i < n
            invariant
                i <= n,
                all.deep_view() == installed_explicit.deep_view().take(i as int),
            decreases n - i,
        {
            all.push(installed_explicit[i].clone());
            proof {
                assert(all.deep_view() =~= installed_explicit.deep_view().take(i + 1));
            }
            i = i + 1;
        }
        proof {
            assert(installed_explicit.deep_view().take(n as int) =~= installed_explicit.deep_view());
        }
        Ok(all)
    } else {
        check_candidates(requested, installed_explicit)
    }
}

} // verus!
