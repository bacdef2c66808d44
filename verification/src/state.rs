//! The desired state: a mapping from package name to the user's recorded
//! intent for that package.
//!
//! The mapping is held as a vector of entries with pairwise distinct keys so
//! that iteration is deterministic; its mathematical content is the sequence
//! of (name, record) pairs given by the view.

use vstd::prelude::*;

verus! {

/// Mathematical content of a [`PackageState`].
pub struct PackageStateView {
    pub explicit: bool,
    pub memo: Option<Seq<char>>,
}

/// The recorded intent for one package: whether the user affirms an explicit
/// installation, and an optional free-text memo saying why.
///
/// An absent memo and an empty memo mean the same thing; write paths
/// normalize the empty string to absence (see [`normalize_memo`]).
#[derive(Debug, Clone, PartialEq, Eq)]
pub struct PackageState {
    pub explicit: bool,
    pub memo: Option<String>,
}

impl View for PackageState {
    type V = PackageStateView;

    open spec fn view(&self) -> PackageStateView {
        PackageStateView { explicit: self.explicit, memo: self.memo.deep_view() }
    }
}

/// An empty memo carries no information: it is recorded as absence.
pub open spec fn normalize_memo(memo: Option<Seq<char>>) -> Option<Seq<char>> {
    match memo {
        Some(m) => if m.len() == 0 {
            None
        } else {
            Some(m)
        },
        None => None,
    }
}

impl PackageState {
    /// Build a record, normalizing an empty memo to absence.
    pub fn new(explicit: bool, memo: Option<String>) -> (r: PackageState)
        ensures
            r@ == (PackageStateView { explicit, memo: normalize_memo(memo.deep_view()) }),
    {
        let memo = match memo {
            Some(m) => if m.as_str().is_empty() {
                None
            } else {
                Some(m)
            },
            None => None,
        };
        PackageState { explicit, memo }
    }
}

/// Writing an empty-string memo and writing an absent memo produce the same
/// record: both normalize to an absent memo.
pub proof fn lemma_memo_normalization(explicit: bool)
    ensures
        normalize_memo(Some(Seq::<char>::empty())) == normalize_memo(None),
        (PackageStateView { explicit, memo: normalize_memo(Some(Seq::<char>::empty())) })
            == (PackageStateView { explicit, memo: None::<Seq<char>> }),
{
}

/// The view of a desired state: name/record pairs in storage order.
pub type StateSeq = Seq<(Seq<char>, PackageStateView)>;

/// Does some entry of `s` carry the key `k`?
pub open spec fn has_key(s: StateSeq, k: Seq<char>) -> bool {
    exists|i: int| 0 <= i < s.len() && s[i].0 == k
}

/// The index of the entry carrying `k` (meaningful when `has_key` and the
/// keys are pairwise distinct).
pub open spec fn key_index(s: StateSeq, k: Seq<char>) -> int {
    choose|i: int| 0 <= i < s.len() && s[i].0 == k
}

/// The record stored under `k`.
pub open spec fn lookup(s: StateSeq, k: Seq<char>) -> PackageStateView {
    s[key_index(s, k)].1
}

/// No two entries carry the same key.
pub open spec fn unique_keys(s: StateSeq) -> bool {
    forall|i: int, j: int| 0 <= i < j < s.len() ==> s[i].0 != s[j].0
}

/// Store `v` under `k`: in place when `k` is present, appended otherwise.
pub open spec fn upsert(s: StateSeq, k: Seq<char>, v: PackageStateView) -> StateSeq {
    if has_key(s, k) {
        s.update(key_index(s, k), (k, v))
    } else {
        s.push((k, v))
    }
}

/// With pairwise distinct keys, the entry found at `i` is the one entry
/// carrying its key.
pub proof fn lemma_key_index(s: StateSeq, k: Seq<char>, i: int)
    requires
        unique_keys(s),
        0 <= i < s.len(),
        s[i].0 == k,
    ensures
        has_key(s, k),
        key_index(s, k) == i,
{
    assert(has_key(s, k));
    let j = key_index(s, k);
    if i < j {
        assert(s[i].0 != s[j].0);
    } else if j < i {
        assert(s[j].0 != s[i].0);
    }
}

/// An upsert keeps keys pairwise distinct, stores `v` under `k`, and leaves
/// every other key bound as before.
pub proof fn lemma_upsert(s: StateSeq, k: Seq<char>, v: PackageStateView)
    requires
        unique_keys(s),
    ensures
        unique_keys(upsert(s, k, v)),
        has_key(upsert(s, k, v), k),
        lookup(upsert(s, k, v), k) == v,
        forall|k2: Seq<char>|
            k2 != k ==> has_key(upsert(s, k, v), k2) == has_key(s, k2),
        forall|k2: Seq<char>|
            k2 != k && has_key(s, k2) ==> lookup(upsert(s, k, v), k2) == lookup(s, k2),
{
    let t = upsert(s, k, v);
    if has_key(s, k) {
        let i = key_index(s, k);
        assert(t[i].0 == k);
        lemma_key_index(t, k, i);
        assert forall|k2: Seq<char>| k2 != k implies has_key(t, k2) == has_key(s, k2) by {
            if has_key(s, k2) {
                let j = key_index(s, k2);
                assert(t[j].0 == k2);
            }
            if has_key(t, k2) {
                let j = key_index(t, k2);
                assert(s[j].0 == k2);
            }
        }
        assert forall|k2: Seq<char>| k2 != k && has_key(s, k2) implies lookup(t, k2) == lookup(
            s,
            k2,
        ) by {
            let j = key_index(s, k2);
            lemma_key_index(s, k2, j);
            assert(t[j].0 == k2);
            lemma_key_index(t, k2, j);
        }
    } else {
        let i = s.len() as int;
        assert(t[i].0 == k);
        lemma_key_index(t, k, i);
        assert forall|k2: Seq<char>| k2 != k implies has_key(t, k2) == has_key(s, k2) by {
            if has_key(s, k2) {
                let j = key_index(s, k2);
                assert(t[j].0 == k2);
            }
            if has_key(t, k2) {
                let j = key_index(t, k2);
                assert(s[j].0 == k2);
            }
        }
        assert forall|k2: Seq<char>| k2 != k && has_key(s, k2) implies lookup(t, k2) == lookup(
            s,
            k2,
        ) by {
            let j = key_index(s, k2);
            lemma_key_index(s, k2, j);
            assert(t[j].0 == k2);
            lemma_key_index(t, k2, j);
        }
    }
}

/// Storing under a key the very record it already carries changes nothing.
pub proof fn lemma_upsert_identity(s: StateSeq, k: Seq<char>)
    requires
        unique_keys(s),
        has_key(s, k),
    ensures
        upsert(s, k, lookup(s, k)) == s,
{
    let i = key_index(s, k);
    assert(s[i] == (k, lookup(s, k)));
    assert(s.update(i, (k, lookup(s, k))) =~= s);
}

/// The desired state: intent records keyed by package name, keys pairwise
/// distinct, iteration order the storage order.
pub struct PackageStates {
    entries: Vec<(String, PackageState)>,
}

impl View for PackageStates {
    type V = StateSeq;

    closed spec fn view(&self) -> StateSeq {
        self.entries@.map_values(|e: (String, PackageState)| (e.0@, e.1@))
    }
}

impl PackageStates {
    /// Well-formed: no package name occurs twice.
    pub open spec fn wf(self) -> bool {
        unique_keys(self@)
    }

    /// The empty desired state, as on first run.
    pub fn new() -> (r: PackageStates)
        ensures
            r@ =~= Seq::<(Seq<char>, PackageStateView)>::empty(),
            r.wf(),
    {
        PackageStates { entries: Vec::new() }
    }

    pub fn len(&self) -> (n: usize)
        ensures
            n == self@.len(),
    {
        self.entries.len()
    }

    /// The name of the entry at `i`, in storage order.
    pub fn name_at(&self, i: usize) -> (r: &String)
        requires
            i < self@.len(),
        ensures
            r@ == self@[i as int].0,
    {
        &self.entries[i].0
    }

    /// The record of the entry at `i`, in storage order.
    pub fn state_at(&self, i: usize) -> (r: &PackageState)
        requires
            i < self@.len(),
        ensures
            r@ == self@[i as int].1,
    {
        &self.entries[i].1
    }

    /// The index of `name`'s entry, when there is one.
    fn find(&self, name: &String) -> (r: Option<usize>)
        requires
            self.wf(),
        ensures
            match r {
                Some(i) => {
                    &&& i < self@.len()
                    &&& self@[i as int].0 == name@
                    &&& has_key(self@, name@)
                    &&& key_index(self@, name@) == i
                },
                None => !has_key(self@, name@),
            },
    {
        let n = self.entries.len();
        let mut i: usize = 0;
        while i < n
            invariant
                n == self@.len(),
                i <= n,
                self.wf(),
                forall|j: int| 0 <= j < i ==> self@[j].0 != name@,
            decreases n - i,
        {
            if self.entries[i].0 == *name {
                proof {
                    lemma_key_index(self@, name@, i as int);
                }
                return Some(i);
            }
            i = i + 1;
        }
        None
    }

    /// Is `name` managed at all?
    pub fn contains_key(&self, name: &String) -> (r: bool)
        requires
            self.wf(),
        ensures
            r == has_key(self@, name@),
    {
        self.find(name).is_some()
    }

    /// The record stored under `name`, when there is one.
    pub fn get(&self, name: &String) -> (r: Option<&PackageState>)
        requires
            self.wf(),
        ensures
            match r {
                Some(st) => has_key(self@, name@) && st@ == lookup(self@, name@),
                None => !has_key(self@, name@),
            },
    {
        match self.find(name) {
            Some(i) => Some(&self.entries[i].1),
            None => None,
        }
    }

    /// Does the desired state affirm `name` as explicitly installed?
    pub fn is_explicit(&self, name: &String) -> (r: bool)
        requires
            self.wf(),
        ensures
            r == (has_key(self@, name@) && lookup(self@, name@).explicit),
    {
        match self.get(name) {
            Some(st) => st.explicit,
            None => false,
        }
    }

    /// Store `st` under `name`: updated in place when managed already,
    /// appended otherwise.
    pub fn insert(&mut self, name: String, st: PackageState)
        requires
            old(self).wf(),
        ensures
            final(self).wf(),
            final(self)@ == upsert(old(self)@, name@, st@),
    {
        proof {
            lemma_upsert(old(self)@, name@, st@);
        }
        match self.find(&name) {
            Some(i) => {
                self.entries.remove(i);
                self.entries.insert(i, (name, st));
                assert(self@ =~= upsert(old(self)@, name@, st@));
            },
            None => {
                self.entries.push((name, st));
                assert(self@ =~= upsert(old(self)@, name@, st@));
            },
        }
    }

    /// Rewrite the explicit flag of a managed package, keeping its memo.
    pub fn set_explicit(&mut self, name: &String, explicit: bool)
        requires
            old(self).wf(),
            has_key(old(self)@, name@),
        ensures
            final(self).wf(),
            final(self)@ == upsert(
                old(self)@,
                name@,
                (PackageStateView { explicit, memo: lookup(old(self)@, name@).memo }),
            ),
    {
        let memo = match self.get(name) {
            Some(st) => st.memo.clone(),
            None => None,
        };
        self.insert(name.clone(), PackageState { explicit, memo });
    }

    /// Rewrite the memo of a managed package, keeping its explicit flag;
    /// an empty memo normalizes to absence.
    pub fn set_memo(&mut self, name: &String, memo: Option<String>)
        requires
            old(self).wf(),
            has_key(old(self)@, name@),
        ensures
            final(self).wf(),
            final(self)@ == upsert(
                old(self)@,
                name@,
                (PackageStateView {
                    explicit: lookup(old(self)@, name@).explicit,
                    memo: normalize_memo(memo.deep_view()),
                }),
            ),
    {
        let explicit = match self.get(name) {
            Some(st) => st.explicit,
            None => false,
        };
        let st = PackageState::new(explicit, memo);
        self.insert(name.clone(), st);
    }
}

} // verus!
