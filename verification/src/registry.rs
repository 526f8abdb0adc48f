//! The server-side registry of issued sessions: the one mutable source of
//! truth for revocation. A signed claim is only honoured while its record is
//! still here, so deleting a record is what revokes a session.
use vstd::prelude::*;

use crate::error::Error;

verus! {

/// One live session: a user may hold many, one per device or agent.
pub struct SessionRecord {
    pub id: u64,
    pub user_id: u64,
    pub session_id: u128,
    pub agent: String,
    pub created_at: u64,
    pub updated_at: u64,
}

/// The mathematical image of a session record.
pub struct SessionModel {
    pub id: u64,
    pub user_id: u64,
    pub session_id: u128,
    pub agent: Seq<char>,
    pub created_at: u64,
    pub updated_at: u64,
}

impl View for SessionRecord {
    type V = SessionModel;

    open spec fn view(&self) -> SessionModel {
        SessionModel {
            id: self.id,
            user_id: self.user_id,
            session_id: self.session_id,
            agent: self.agent@,
            created_at: self.created_at,
            updated_at: self.updated_at,
        }
    }
}

impl Clone for SessionRecord {
    fn clone(&self) -> (r: Self)
        ensures
            r@ == self@,
    {
        SessionRecord {
            id: self.id,
            user_id: self.user_id,
            session_id: self.session_id,
            agent: self.agent.clone(),
            created_at: self.created_at,
            updated_at: self.updated_at,
        }
    }
}

/// Whether a record with this session identifier is live.
pub open spec fn has_session(s: Seq<SessionModel>, session_id: u128) -> bool {
    exists|i: int| 0 <= i < s.len() && #[trigger] s[i].session_id == session_id
}

/// The registry after refreshing the last-activity stamp of one session.
pub open spec fn touched(s: Seq<SessionModel>, session_id: u128, now: u64) -> Seq<SessionModel> {
    s.map(
        |_i: int, m: SessionModel|
            if m.session_id == session_id {
                SessionModel { updated_at: now, ..m }
            } else {
                m
            },
    )
}

/// The predicate `delete_all_except` keeps: records of other users, and the
/// caller's own current session.
pub open spec fn keeps(owner_user_id: u64, keep_session_id: u128) -> spec_fn(SessionModel) -> bool {
    |m: SessionModel| m.user_id != owner_user_id || m.session_id == keep_session_id
}

/// Whether a listed record is the caller's own current session: the flag a
/// session listing shows beside each row, from the identifier of the
/// caller's verified claim.
pub fn is_current_session(record: &SessionRecord, claim_session_id: u128) -> (r: bool)
    ensures
        r == (record@.session_id == claim_session_id),
{
    record.session_id == claim_session_id
}

/// Pairwise-distinct session identifiers.
pub open spec fn sids_unique(s: Seq<SessionModel>) -> bool {
    forall|i: int, j: int|
        0 <= i < j < s.len() ==> #[trigger] s[i].session_id != #[trigger] s[j].session_id
}

/// Every record kept by a filter was in the registry.
proof fn lemma_filter_sub(s: Seq<SessionModel>, pred: spec_fn(SessionModel) -> bool)
    ensures
        forall|a: int|
            0 <= a < s.filter(pred).len() ==> s.contains(#[trigger] s.filter(pred)[a]),
    decreases s.len(),
{
    reveal(Seq::filter);
    if s.len() > 0 {
        lemma_filter_sub(s.drop_last(), pred);
        let f = s.filter(pred);
        let fd = s.drop_last().filter(pred);
        assert forall|a: int| 0 <= a < f.len() implies s.contains(#[trigger] f[a]) by {
            if pred(s.last()) && a == f.len() - 1 {
                assert(f[a] == s.last());
                assert(s[s.len() - 1] == s.last());
            } else {
                assert(f[a] == fd[a]);
                assert(s.drop_last().contains(fd[a]));
                let j = choose|j: int| 0 <= j < s.drop_last().len() && s.drop_last()[j] == fd[a];
                assert(s[j] == fd[a]);
            }
        }
    }
}

/// Filtering a registry with distinct identifiers keeps them distinct.
proof fn lemma_filter_unique(s: Seq<SessionModel>, pred: spec_fn(SessionModel) -> bool)
    requires
        sids_unique(s),
    ensures
        sids_unique(s.filter(pred)),
    decreases s.len(),
{
    reveal(Seq::filter);
    if s.len() > 0 {
        assert(sids_unique(s.drop_last()));
        lemma_filter_unique(s.drop_last(), pred);
        lemma_filter_sub(s.drop_last(), pred);
        let f = s.filter(pred);
        let fd = s.drop_last().filter(pred);
        assert forall|i: int, j: int|
            0 <= i < j < f.len() implies #[trigger] f[i].session_id
            != #[trigger] f[j].session_id by {
            if pred(s.last()) && j == f.len() - 1 {
                assert(f[i] == fd[i]);
                assert(s.drop_last().contains(fd[i]));
                let k = choose|k: int|
                    0 <= k < s.drop_last().len() && s.drop_last()[k] == fd[i];
                assert(s[k] == fd[i]);
                assert(f[j] == s.last());
                assert(s[s.len() - 1] == s.last());
                assert(s[k].session_id != s[s.len() - 1].session_id);
            } else {
                assert(f[i] == fd[i]);
                assert(f[j] == fd[j]);
            }
        }
    }
}

/// The registry itself, keyed by the opaque per-session identifier.
pub struct SessionRegistry {
    records: Vec<SessionRecord>,
    next_id: u64,
}

impl View for SessionRegistry {
    type V = Seq<SessionModel>;

    closed spec fn view(&self) -> Seq<SessionModel> {
        self.records@.map(|_i: int, r: SessionRecord| r@)
    }
}

impl SessionRegistry {
    /// No two live records share a session identifier.
    pub open spec fn inv(&self) -> bool {
        sids_unique(self@)
    }

    pub fn new() -> (r: SessionRegistry)
        ensures
            r@ == Seq::<SessionModel>::empty(),
            r.inv(),
    {
        let r = SessionRegistry { records: Vec::new(), next_id: 1 };
        proof {
            assert(r@ =~= Seq::<SessionModel>::empty());
        }
        r
    }

    /// The position of the record with this identifier, if any.
    fn index_of(&self, session_id: u128) -> (r: Option<usize>)
        ensures
            r matches Some(i) ==> i < self@.len() && self@[i as int].session_id == session_id,
            r is None ==> !has_session(self@, session_id),
    {
        let mut i: usize = 0;
        while i < self.records.len()
            invariant
                i <= self.records.len(),
                self@.len() == self.records.len(),
                forall|j: int| 0 <= j < i ==> #[trigger] self@[j].session_id != session_id,
            decreases self.records.len() - i,
        {
            if self.records[i].session_id == session_id {
                proof {
                    assert(self@[i as int].session_id == session_id);
                }
                return Some(i);
            }
            i = i + 1;
        }
        None
    }

    /// Inserts a fresh session record. `None` when the identifier is already
    /// live — a collision a caller must treat as an infrastructure failure,
    /// not ignore.
    pub fn create(&mut self, user_id: u64, session_id: u128, agent: String, now: u64) -> (r: Option<
        SessionRecord,
    >)
        requires
            old(self).inv(),
        ensures
            final(self).inv(),
            has_session(old(self)@, session_id) ==> r is None && final(self)@ == old(self)@,
            !has_session(old(self)@, session_id) ==> (r matches Some(rec) && final(self)@ == old(
                self,
            )@.push(rec@) && rec@.user_id == user_id && rec@.session_id == session_id && rec@.agent
                == agent@ && rec@.created_at == now && rec@.updated_at == now),
    {
        match self.index_of(session_id) {
            Some(_) => None,
            None => {
                let rec = SessionRecord {
                    id: self.next_id,
                    user_id,
                    session_id,
                    agent,
                    created_at: now,
                    updated_at: now,
                };
                let out = rec.clone();
                self.next_id = if self.next_id < u64::MAX {
                    self.next_id + 1
                } else {
                    self.next_id
                };
                let ghost prev = self@;
                self.records.push(rec);
                proof {
                    assert(self@ =~= prev.push(out@));
                    assert forall|i: int, j: int| 0 <= i < j < self@.len() implies #[trigger] self@[i].session_id
                        != #[trigger] self@[j].session_id by {
                        if j == self@.len() - 1 {
                            assert(self@[i] == prev[i]);
                            assert(!has_session(prev, session_id));
                        }
                    }
                }
                Some(out)
            },
        }
    }

    /// Looks a session up by identifier; absence does not say whether it
    /// never existed or was revoked.
    pub fn find_active(&self, session_id: u128) -> (r: Option<&SessionRecord>)
        ensures
            r is Some <==> has_session(self@, session_id),
            r matches Some(rec) ==> rec@.session_id == session_id && (exists|i: int|
                0 <= i < self@.len() && self@[i] == rec@),
    {
        match self.index_of(session_id) {
            Some(i) => {
                let rec = &self.records[i];
                proof {
                    assert(self@[i as int] == rec@);
                }
                Some(rec)
            },
            None => None,
        }
    }

    /// Refreshes the last-activity stamp of one session; a no-op when the
    /// session is not live.
    pub fn touch(&mut self, session_id: u128, now: u64)
        requires
            old(self).inv(),
        ensures
            final(self).inv(),
            final(self)@ == touched(old(self)@, session_id, now),
    {
        let ghost prev = self@;
        match self.index_of(session_id) {
            Some(i) => {
                let rec = &self.records[i];
                let updated = SessionRecord {
                    id: rec.id,
                    user_id: rec.user_id,
                    session_id: rec.session_id,
                    agent: rec.agent.clone(),
                    created_at: rec.created_at,
                    updated_at: now,
                };
                self.records.set(i, updated);
                proof {
                    assert forall|j: int|
                        0 <= j < prev.len() implies self@[j] == touched(prev, session_id, now)[j] by {
                        if j != i {
                            assert(prev[j].session_id != session_id);
                        }
                    }
                    assert(self@ =~= touched(prev, session_id, now));
                }
            },
            None => {
                proof {
                    assert forall|j: int|
                        0 <= j < prev.len() implies self@[j] == touched(prev, session_id, now)[j] by {
                        assert(prev[j].session_id != session_id);
                    }
                    assert(self@ =~= touched(prev, session_id, now));
                }
            },
        }
    }

    /// Deletes the caller's own session. The ownership check is what keeps a
    /// validly authenticated user from revoking someone else's session by
    /// replaying an identifier.
    pub fn delete(&mut self, session_id: u128, owner_user_id: u64) -> (r: Result<(), Error>)
        requires
            old(self).inv(),
        ensures
            final(self).inv(),
            (exists|i: int|
                0 <= i < old(self)@.len() && #[trigger] old(self)@[i].session_id == session_id
                    && old(self)@[i].user_id == owner_user_id) ==> (r is Ok && exists|i: int|
                0 <= i < old(self)@.len() && #[trigger] old(self)@[i].session_id == session_id
                    && old(self)@[i].user_id == owner_user_id && final(self)@ == old(
                    self,
                )@.remove(i)) && !has_session(final(self)@, session_id),
            !(exists|i: int|
                0 <= i < old(self)@.len() && #[trigger] old(self)@[i].session_id == session_id
                    && old(self)@[i].user_id == owner_user_id) ==> r == Err::<(), Error>(
                Error::NotFound,
            ) && final(self)@ == old(self)@,
    {
        let ghost prev = self@;
        match self.index_of(session_id) {
            Some(i) => {
                if self.records[i].user_id == owner_user_id {
                    self.records.remove(i);
                    proof {
                        assert(self@ =~= prev.remove(i as int));
                        assert forall|j: int, k: int|
                            0 <= j < k < self@.len() implies #[trigger] self@[j].session_id
                            != #[trigger] self@[k].session_id by {}
                        assert forall|j: int|
                            0 <= j < self@.len() implies #[trigger] self@[j].session_id
                            != session_id by {
                            if j < i {
                                assert(self@[j] == prev[j]);
                            } else {
                                assert(self@[j] == prev[j + 1]);
                            }
                        }
                    }
                    Ok(())
                } else {
                    proof {
                        assert forall|j: int|
                            0 <= j < prev.len() && #[trigger] prev[j].session_id
                                == session_id implies prev[j].user_id != owner_user_id by {
                            let i0 = i as int;
                            assert(prev[i0].session_id == session_id);
                            if j != i0 {
                                assert(false);
                            }
                        }
                    }
                    Err(Error::NotFound)
                }
            },
            None => Err(Error::NotFound),
        }
    }

    /// Bulk revocation: deletes every session of this user except the one
    /// named, and counts what was removed. Sessions of other users are
    /// untouched.
    pub fn delete_all_except(&mut self, owner_user_id: u64, keep_session_id: u128) -> (r: usize)
        requires
            old(self).inv(),
        ensures
            final(self).inv(),
            final(self)@ == old(self)@.filter(keeps(owner_user_id, keep_session_id)),
            r == old(self)@.len() - final(self)@.len(),
    {
        let ghost prev = self@;
        let ghost pred = keeps(owner_user_id, keep_session_id);
        let mut kept: Vec<SessionRecord> = Vec::new();
        let mut i: usize = 0;
        proof {
            reveal(Seq::filter);
            assert(kept@.map(|_i: int, r: SessionRecord| r@) =~= prev.take(0).filter(pred));
        }
        while i < self.records.len()
            invariant
                i <= self.records.len(),
                self@ == prev,
                self@.len() == self.records.len(),
                kept@.map(|_i: int, r: SessionRecord| r@) == prev.take(i as int).filter(
                    keeps(owner_user_id, keep_session_id),
                ),
            decreases self.records.len() - i,
        {
            let rec = &self.records[i];
            let ghost kv = kept@.map(|_i: int, r: SessionRecord| r@);
            proof {
                reveal(Seq::filter);
                assert(prev.take(i as int + 1).drop_last() =~= prev.take(i as int));
                assert(prev.take(i as int + 1).last() == prev[i as int]);
                assert(prev[i as int] == rec@);
            }
            if rec.user_id != owner_user_id || rec.session_id == keep_session_id {
                let copy = rec.clone();
                kept.push(copy);
                proof {
                    assert(kept@.map(|_i: int, r: SessionRecord| r@) =~= kv.push(rec@));
                    assert(keeps(owner_user_id, keep_session_id)(prev[i as int]));
                }
            } else {
                proof {
                    assert(!(keeps(owner_user_id, keep_session_id)(prev[i as int])));
                }
            }
            i = i + 1;
        }
        proof {
            assert(prev.take(prev.len() as int) =~= prev);
        }
        let removed = self.records.len() - kept.len();
        self.records = kept;
        proof {
            assert(self@ == prev.filter(pred));
            lemma_filter_unique(prev, pred);
        }
        removed
    }
}

} // verus!
