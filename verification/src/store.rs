//! The leader-resident session store: an in-memory table keyed by session
//! identifier, with insert-or-overwrite updates and pure lookups.
//!
//! The store's whole behaviour is pinned by the spec-level transition
//! functions `spec_upsert`, `spec_update` and `spec_lookup`; the public proof
//! functions at the bottom state the store laws over those functions.

use vstd::prelude::*;
use crate::session::{Session, SessionView, new_session_view};

verus! {

/// Whether some entry of `s` carries the identifier `id`.
pub open spec fn has_id(s: Seq<SessionView>, id: u128) -> bool {
    exists|i: int| 0 <= i < s.len() && s[i].id == id
}

/// The index of the entry carrying `id` (meaningful only when `has_id`).
pub open spec fn idx_of(s: Seq<SessionView>, id: u128) -> int {
    choose|i: int| 0 <= i < s.len() && s[i].id == id
}

/// Pure lookup: the entry stored under `id`, if any.
pub open spec fn spec_lookup(s: Seq<SessionView>, id: u128) -> Option<SessionView> {
    if has_id(s, id) {
        Some(s[idx_of(s, id)])
    } else {
        None
    }
}

/// Insert-or-overwrite of a whole entry, keyed by its `id`.
pub open spec fn spec_upsert(s: Seq<SessionView>, v: SessionView) -> Seq<SessionView> {
    if has_id(s, v.id) {
        s.update(idx_of(s, v.id), v)
    } else {
        s.push(v)
    }
}

/// The entry an update stores: the incoming session wholesale, except that
/// the `created_at` of an already-stored session is preserved and
/// `last_active` is stamped to `now`.
pub open spec fn updated_view(s: Seq<SessionView>, v: SessionView, now: i64) -> SessionView {
    SessionView {
        id: v.id,
        created_at: if has_id(s, v.id) {
            spec_lookup(s, v.id)->Some_0.created_at
        } else {
            v.created_at
        },
        last_active: now,
        messages: v.messages,
    }
}

/// The whole-store effect of one update call.
pub open spec fn spec_update(s: Seq<SessionView>, v: SessionView, now: i64) -> Seq<SessionView> {
    spec_upsert(s, updated_view(s, v, now))
}

/// Session identifiers are unique within the store.
pub open spec fn unique_ids(s: Seq<SessionView>) -> bool {
    forall|i: int, j: int| 0 <= i < j < s.len() ==> s[i].id != s[j].id
}

/// In a table with unique identifiers, an entry is the one its own
/// identifier looks up.
pub proof fn lemma_idx_of_entry(s: Seq<SessionView>, i: int)
    requires
        unique_ids(s),
        0 <= i < s.len(),
    ensures
        has_id(s, s[i].id),
        idx_of(s, s[i].id) == i,
        spec_lookup(s, s[i].id) == Some(s[i]),
{
    assert(has_id(s, s[i].id));
    let j = idx_of(s, s[i].id);
    assert(0 <= j < s.len() && s[j].id == s[i].id);
    if i < j {
        assert(s[i].id != s[j].id);
    } else if j < i {
        assert(s[j].id != s[i].id);
    }
}

/// The in-memory session table. The identifiers of its entries are pairwise
/// distinct; every operation preserves that.
pub struct SessionStore {
    entries: Vec<Session>,
}

impl View for SessionStore {
    type V = Seq<SessionView>;

    closed spec fn view(&self) -> Seq<SessionView> {
        self.entries@.map_values(|s: Session| s@)
    }
}

impl SessionStore {
    pub open spec fn wf(&self) -> bool {
        unique_ids(self@)
    }

    /// An empty store, as a fresh leader starts with.
    pub fn new() -> (r: SessionStore)
        ensures
            r@ == Seq::<SessionView>::empty(),
            r.wf(),
    {
        let r = SessionStore { entries: Vec::new() };
        assert(r@ =~= Seq::<SessionView>::empty());
        r
    }

    /// Index of the entry carrying `id`, if any.
    fn position_of(&self, id: u128) -> (r: Option<usize>)
        requires
            self.wf(),
        ensures
            match r {
                Some(p) => p < self@.len() && self@[p as int].id == id && has_id(self@, id)
                    && idx_of(self@, id) == p,
                None => !has_id(self@, id),
            },
    {
        let mut i: usize = 0;
        while i < self.entries.len()
            invariant
                self.wf(),
                i <= self@.len(),
                self@.len() == self.entries@.len(),
                forall|k: int| 0 <= k < i ==> self@[k].id != id,
            decreases self.entries.len() - i,
        {
            assert(self@[i as int] == self.entries@[i as int]@);
            if self.entries[i].id == id {
                proof {
                    lemma_idx_of_entry(self@, i as int);
                }
                return Some(i);
            }
            i = i + 1;
        }
        None
    }

    /// Creates the session for a fresh identifier and stores it, overwriting
    /// any entry that already carried the same identifier. Returns the new
    /// session.
    pub fn get_or_create(&mut self, id: u128, now: i64) -> (r: Session)
        requires
            old(self).wf(),
        ensures
            final(self)@ == spec_upsert(old(self)@, new_session_view(id, now)),
            final(self).wf(),
            r@ == new_session_view(id, now),
    {
        let fresh = Session::new_empty(id, now);
        let copy = fresh.clone();
        self.put(fresh);
        copy
    }

    /// Insert-or-overwrite of a whole entry, keyed by its identifier.
    pub(crate) fn put(&mut self, s: Session)
        requires
            old(self).wf(),
        ensures
            final(self)@ == spec_upsert(old(self)@, s@),
            final(self).wf(),
    {
        let ghost old_view = self@;
        match self.position_of(s.id) {
            Some(p) => {
                self.entries[p] = s;
                assert(self@ =~= old_view.update(idx_of(old_view, s@.id), s@));
                proof {
                    lemma_upsert_unique(old_view, s@);
                }
            }
            None => {
                self.entries.push(s);
                assert(self@ =~= old_view.push(s@));
                proof {
                    lemma_upsert_unique(old_view, s@);
                }
            }
        }
    }

    /// Pure lookup: a copy of the session stored under `id`, if any. The
    /// store itself is untouched.
    pub fn get(&self, id: u128) -> (r: Option<Session>)
        requires
            self.wf(),
        ensures
            match r {
                Some(s) => spec_lookup(self@, id) == Some(s@),
                None => spec_lookup(self@, id) is None,
            },
    {
        match self.position_of(id) {
            Some(p) => Some(self.entries[p].clone()),
            None => None,
        }
    }

    /// Replaces the entry for `s.id` wholesale — no existence check, no
    /// merge with the prior message history — except that the `created_at`
    /// of an already-stored session is preserved and `last_active` is
    /// stamped to `now`. Returns the stored copy.
    pub fn update(&mut self, s: Session, now: i64) -> (r: Session)
        requires
            old(self).wf(),
        ensures
            final(self)@ == spec_update(old(self)@, s@, now),
            final(self).wf(),
            r@ == updated_view(old(self)@, s@, now),
    {
        let created_at = match self.position_of(s.id) {
            Some(p) => self.entries[p].created_at,
            None => s.created_at,
        };
        let stored = Session { id: s.id, created_at, last_active: now, messages: s.messages };
        assert(stored@ == updated_view(self@, s@, now));
        let copy = stored.clone();
        self.put(stored);
        copy
    }

    /// A snapshot copy of all current entries, in table order (the order is
    /// not significant to callers).
    pub fn list(&self) -> (r: Vec<Session>)
        ensures
            r@.map_values(|s: Session| s@) == self@,
    {
        let mut out: Vec<Session> = Vec::new();
        let mut i: usize = 0;
        while i < self.entries.len()
            invariant
                i <= self.entries@.len(),
                out@.len() == i,
                forall|k: int| 0 <= k < i ==> out@[k]@ == self.entries@[k]@,
            decreases self.entries.len() - i,
        {
            out.push(self.entries[i].clone());
            i = i + 1;
        }
        assert(out@.map_values(|s: Session| s@) =~= self@);
        out
    }

    /// Number of sessions held.
    pub fn len(&self) -> (r: usize)
        ensures
            r == self@.len(),
    {
        self.entries.len()
    }
}

/// An upsert keeps identifiers unique and stores exactly `v` under `v.id`,
/// leaving every other entry alone.
pub proof fn lemma_upsert_unique(s: Seq<SessionView>, v: SessionView)
    requires
        unique_ids(s),
    ensures
        unique_ids(spec_upsert(s, v)),
        spec_lookup(spec_upsert(s, v), v.id) == Some(v),
        forall|other: u128| other != v.id ==> spec_lookup(spec_upsert(s, v), other)
            == spec_lookup(s, other),
{
    let t = spec_upsert(s, v);
    if has_id(s, v.id) {
        let k = idx_of(s, v.id);
        assert(0 <= k < s.len() && s[k].id == v.id);
        assert(unique_ids(t)) by {
            assert forall|i: int, j: int| 0 <= i < j < t.len() implies t[i].id != t[j].id by {
                if i != k && j != k {
                    assert(t[i] == s[i] && t[j] == s[j]);
                } else if i == k {
                    assert(t[j] == s[j] && s[j].id != s[k].id);
                } else {
                    assert(t[i] == s[i] && s[i].id != s[k].id);
                }
            }
        }
        lemma_idx_of_entry(t, k);
        assert forall|other: u128| other != v.id implies spec_lookup(t, other) == spec_lookup(
            s,
            other,
        ) by {
            lemma_lookup_same_entries(s, t, other);
        }
    } else {
        assert(forall|i: int| 0 <= i < s.len() ==> s[i].id != v.id);
        assert(unique_ids(t)) by {
            assert forall|i: int, j: int| 0 <= i < j < t.len() implies t[i].id != t[j].id by {
                if j == s.len() {
                    assert(t[i] == s[i] && t[j] == v);
                } else {
                    assert(t[i] == s[i] && t[j] == s[j]);
                }
            }
        }
        lemma_idx_of_entry(t, s.len() as int);
        assert forall|other: u128| other != v.id implies spec_lookup(t, other) == spec_lookup(
            s,
            other,
        ) by {
            lemma_lookup_same_entries(s, t, other);
        }
    }
}

/// Two tables that agree on every entry carrying `id` agree on its lookup.
proof fn lemma_lookup_same_entries(s: Seq<SessionView>, t: Seq<SessionView>, id: u128)
    requires
        unique_ids(s),
        unique_ids(t),
        forall|i: int| 0 <= i < s.len() && s[i].id == id ==> 0 <= i < t.len() && t[i] == s[i],
        forall|i: int| 0 <= i < t.len() && t[i].id == id ==> 0 <= i < s.len() && s[i] == t[i],
    ensures
        spec_lookup(s, id) == spec_lookup(t, id),
{
    if has_id(s, id) {
        let i = idx_of(s, id);
        assert(0 <= i < s.len() && s[i].id == id);
        assert(t[i] == s[i]);
        lemma_idx_of_entry(t, i);
        lemma_idx_of_entry(s, i);
    } else if has_id(t, id) {
        let i = idx_of(t, id);
        assert(0 <= i < t.len() && t[i].id == id);
        assert(s[i] == t[i]);
        assert(has_id(s, id));
    }
}

/// Immediately after a session is stored — by a create or by an update —
/// looking its identifier up returns exactly that session: the identifier
/// matches and the message sequence is what was just stored, with nothing
/// merged in.
pub proof fn lemma_lookup_after_upsert(s: Seq<SessionView>, v: SessionView)
    requires
        unique_ids(s),
    ensures
        spec_lookup(spec_upsert(s, v), v.id) == Some(v),
{
    lemma_upsert_unique(s, v);
}

/// Last write wins: after two updates under the same identifier, a lookup
/// returns exactly the fields of the most recent one — its whole message
/// sequence, never a merge of the two — with `last_active` stamped by the
/// later call and `created_at` carried over from the first time the
/// identifier was stored.
pub proof fn lemma_last_write_wins(
    s: Seq<SessionView>,
    a: SessionView,
    b: SessionView,
    ta: i64,
    tb: i64,
)
    requires
        unique_ids(s),
        a.id == b.id,
    ensures
        spec_lookup(spec_update(spec_update(s, a, ta), b, tb), b.id) == Some(
            SessionView {
                id: b.id,
                created_at: if has_id(s, a.id) {
                    spec_lookup(s, a.id)->Some_0.created_at
                } else {
                    a.created_at
                },
                last_active: tb,
                messages: b.messages,
            },
        ),
{
    let va = updated_view(s, a, ta);
    let s1 = spec_update(s, a, ta);
    lemma_upsert_unique(s, va);
    let vb = updated_view(s1, b, tb);
    lemma_upsert_unique(s1, vb);
}

/// One update call never changes the `created_at` of the session it stores:
/// the value read back equals the value already in the table.
pub proof fn lemma_created_at_preserved(s: Seq<SessionView>, v: SessionView, now: i64)
    requires
        unique_ids(s),
        has_id(s, v.id),
    ensures
        spec_lookup(spec_update(s, v, now), v.id)->Some_0.created_at == spec_lookup(
            s,
            v.id,
        )->Some_0.created_at,
{
    lemma_upsert_unique(s, updated_view(s, v, now));
}

/// The table after a whole sequence of update calls, applied oldest first.
pub open spec fn apply_updates(s: Seq<SessionView>, us: Seq<(SessionView, i64)>) -> Seq<
    SessionView,
>
    decreases us.len(),
{
    if us.len() == 0 {
        s
    } else {
        apply_updates(spec_update(s, us[0].0, us[0].1), us.drop_first())
    }
}

/// The `created_at` read back after any number of update calls — under this
/// identifier or any other — equals the value the table held when the
/// session was first stored.
pub proof fn lemma_created_at_after_updates(
    s: Seq<SessionView>,
    us: Seq<(SessionView, i64)>,
    id: u128,
)
    requires
        unique_ids(s),
        has_id(s, id),
    ensures
        unique_ids(apply_updates(s, us)),
        has_id(apply_updates(s, us), id),
        spec_lookup(apply_updates(s, us), id)->Some_0.created_at == spec_lookup(
            s,
            id,
        )->Some_0.created_at,
    decreases us.len(),
{
    if us.len() > 0 {
        let v = us[0].0;
        let s1 = spec_update(s, v, us[0].1);
        lemma_upsert_unique(s, updated_view(s, v, us[0].1));
        if v.id == id {
            assert(spec_lookup(s1, id)->Some_0.created_at == spec_lookup(
                s,
                id,
            )->Some_0.created_at);
        } else {
            assert(spec_lookup(s1, id) == spec_lookup(s, id));
        }
        lemma_created_at_after_updates(s1, us.drop_first(), id);
    }
}

/// The `created_at` read back after any number of update calls equals the
/// value stamped when the session was created.
pub proof fn lemma_created_at_from_creation(
    s: Seq<SessionView>,
    id: u128,
    now: i64,
    us: Seq<(SessionView, i64)>,
)
    requires
        unique_ids(s),
    ensures
        spec_lookup(
            apply_updates(spec_upsert(s, new_session_view(id, now)), us),
            id,
        )->Some_0.created_at == now,
{
    lemma_upsert_unique(s, new_session_view(id, now));
    lemma_created_at_after_updates(spec_upsert(s, new_session_view(id, now)), us, id);
}

} // verus!
