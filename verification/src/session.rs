//! In-memory session manager for collaborative editing.
//!
//! A session binds one `(project_id, file_id)` pair to its participants'
//! cursors, an ordered log of applied operations, a version counter equal
//! to the log length, and a set of broadcast subscribers. Submitting an
//! operation transforms it against the concurrent tail of the log, appends
//! it with the next version, and delivers it to every subscriber except
//! the author's. A subscriber whose buffer is full is marked lagged — an
//! explicit, terminal signal — and receives nothing further.

use vstd::prelude::*;
use vstd::pervasive::VecAdditionalExecFns;

use crate::ops::{CursorUpdate, DocumentOperation, OperationType};
use crate::ot::{lemma_transform_fold_metadata, ops_at_or_after, spec_transform_fold,
    version_at_or_after, OTEngine};

verus! {

/// A participant and the cursor state they last reported.
#[derive(Debug, Clone, Copy)]
pub struct ParticipantState {
    pub user_id: u128,
    pub cursor_position: Option<i32>,
    pub selection_start: Option<i32>,
    pub selection_end: Option<i32>,
}

/// One subscriber of a session's broadcast fan-out: operations are queued
/// into `pending` until read; `lagged` is set, once and for good, when the
/// buffer overflows.
#[derive(Debug)]
pub struct SubscriberState {
    pub subscriber_id: u64,
    pub user_id: u128,
    pub joined_version: u32,
    pub pending: Vec<DocumentOperation>,
    pub capacity: usize,
    pub lagged: bool,
}

/// All state of one live session.
#[derive(Debug)]
pub struct SessionState {
    pub session_id: u128,
    pub project_id: u128,
    pub file_id: u128,
    pub participants: Vec<ParticipantState>,
    pub operations: Vec<DocumentOperation>,
    pub version: u32,
    pub subscribers: Vec<SubscriberState>,
    pub next_subscriber_id: u64,
}

/// A participant that has just joined: no cursor reported yet.
pub open spec fn fresh_participant(user_id: u128) -> ParticipantState {
    ParticipantState { user_id, cursor_position: None, selection_start: None, selection_end: None }
}

impl SessionState {
    /// Internal invariant: the version counts the log; the log's versions
    /// are `1, 2, …` in order; participants appear at most once; and every
    /// subscriber is consistent with the session (identifier fresh bound,
    /// joined at a version the session has reached, pending operations all
    /// newer than its join, buffer within capacity).
    pub open spec fn wf(self) -> bool {
        &&& self.version as int == self.operations@.len()
        &&& forall|k: int|
            0 <= k < self.operations@.len() ==> (#[trigger] self.operations@[k]).version as int == k
                + 1
        &&& forall|i: int, j: int|
            0 <= i < j < self.participants@.len() ==> (#[trigger] self.participants@[i]).user_id
                != (#[trigger] self.participants@[j]).user_id
        &&& forall|i: int, j: int|
            0 <= i < j < self.subscribers@.len() ==> (
            #[trigger] self.subscribers@[i]).subscriber_id != (
            #[trigger] self.subscribers@[j]).subscriber_id
        &&& forall|k: int|
            0 <= k < self.subscribers@.len() ==> (#[trigger] self.subscribers@[k]).wf(self.version)
            && self.subscribers@[k].subscriber_id < self.next_subscriber_id
    }

    /// Whether `user_id` is a participant.
    pub open spec fn has_participant(self, user_id: u128) -> bool {
        exists|k: int|
            0 <= k < self.participants@.len() && (#[trigger] self.participants@[k]).user_id
                == user_id
    }

    /// The index of participant `user_id` (meaningful when present).
    pub open spec fn participant_index(self, user_id: u128) -> int {
        choose|k: int|
            0 <= k < self.participants@.len() && (#[trigger] self.participants@[k]).user_id
                == user_id
    }
}

impl SubscriberState {
    /// Consistency with the owning session at version `v`.
    pub open spec fn wf(self, v: u32) -> bool {
        &&& self.joined_version <= v
        &&& self.capacity >= 1
        &&& self.pending@.len() <= self.capacity
        &&& forall|m: int|
            0 <= m < self.pending@.len() ==> (#[trigger] self.pending@[m]).version
                > self.joined_version
    }
}

/// Registry of live sessions, keyed by session id.
#[derive(Debug)]
pub struct CollaborationManager {
    pub sessions: Vec<SessionState>,
    pub broadcast_capacity: usize,
}

impl CollaborationManager {
    /// Internal invariant: session ids are unique and every session is
    /// well formed.
    pub open spec fn wf(self) -> bool {
        &&& self.broadcast_capacity >= 1
        &&& forall|i: int, j: int|
            0 <= i < j < self.sessions@.len() ==> (#[trigger] self.sessions@[i]).session_id != (
            #[trigger] self.sessions@[j]).session_id
        &&& forall|i: int| 0 <= i < self.sessions@.len() ==> (#[trigger] self.sessions@[i]).wf()
    }

    /// Whether a session with this id is live.
    pub open spec fn has_session(self, session_id: u128) -> bool {
        exists|i: int|
            0 <= i < self.sessions@.len() && (#[trigger] self.sessions@[i]).session_id == session_id
    }

    /// The index of the session with this id (meaningful when live).
    pub open spec fn session_index(self, session_id: u128) -> int {
        choose|i: int|
            0 <= i < self.sessions@.len() && (#[trigger] self.sessions@[i]).session_id == session_id
    }

    /// The session with this id (meaningful when live).
    pub open spec fn session(self, session_id: u128) -> SessionState {
        self.sessions@[self.session_index(session_id)]
    }

    /// An empty registry with the default broadcast buffer of 1000
    /// operations per subscriber.
    pub fn new() -> (r: CollaborationManager)
        ensures
            r.wf(),
            r.sessions@.len() == 0,
            r.broadcast_capacity == 1000,
    {
        CollaborationManager { sessions: Vec::new(), broadcast_capacity: 1000 }
    }

    /// An empty registry with a chosen broadcast buffer capacity.
    pub fn with_buffer_capacity(capacity: usize) -> (r: CollaborationManager)
        requires
            capacity >= 1,
        ensures
            r.wf(),
            r.sessions@.len() == 0,
            r.broadcast_capacity == capacity,
    {
        CollaborationManager { sessions: Vec::new(), broadcast_capacity: capacity }
    }

    /// Finds the position of a session in the registry.
    fn find_index(&self, session_id: u128) -> (r: Option<usize>)
        ensures
            match r {
                Some(i) => i < self.sessions@.len() && self.sessions@[i as int].session_id
                    == session_id,
                None => !self.has_session(session_id),
            },
    {
        let mut i: usize = 0;
        while i < self.sessions.len()
            invariant
                0 <= i <= self.sessions@.len(),
                forall|k: int| 0 <= k < i ==> (#[trigger] self.sessions@[k]).session_id != session_id,
            decreases self.sessions@.len() - i,
        {
            if self.sessions[i].session_id == session_id {
                return Some(i);
            }
            i = i + 1;
        }
        None
    }

    /// With unique ids, any position holding `session_id` is the index the
    /// specification speaks of.
    pub proof fn lemma_index_determined(self, session_id: u128, i: int)
        requires
            self.wf(),
            0 <= i < self.sessions@.len(),
            self.sessions@[i].session_id == session_id,
        ensures
            self.has_session(session_id),
            self.session_index(session_id) == i,
    {
        let j = self.session_index(session_id);
        if j != i {
            assert(self.sessions@[i].session_id != self.sessions@[j].session_id);
        }
    }

    /// Creates a new empty session bound to a project and file. Fails, and
    /// changes nothing, exactly when the id is already live.
    pub fn create_session(&mut self, session_id: u128, project_id: u128, file_id: u128) -> (r:
        Result<(), String>)
        requires
            old(self).wf(),
        ensures
            final(self).wf(),
            final(self).broadcast_capacity == old(self).broadcast_capacity,
            r.is_ok() <==> !old(self).has_session(session_id),
            r matches Err(m) ==> m@ == "Session already exists"@ && *final(self) == *old(self),
            r.is_ok() ==> {
                &&& final(self).sessions@.len() == old(self).sessions@.len() + 1
                &&& final(self).sessions@.take(old(self).sessions@.len() as int) == old(
                    self,
                ).sessions@
                &&& final(self).sessions@.last() == (SessionState {
                    session_id,
                    project_id,
                    file_id,
                    participants: final(self).sessions@.last().participants,
                    operations: final(self).sessions@.last().operations,
                    version: 0u32,
                    subscribers: final(self).sessions@.last().subscribers,
                    next_subscriber_id: 0u64,
                })
                &&& final(self).sessions@.last().participants@.len() == 0
                &&& final(self).sessions@.last().operations@.len() == 0
                &&& final(self).sessions@.last().subscribers@.len() == 0
            },
    {
        match self.find_index(session_id) {
            Some(_) => Err(String::from_str("Session already exists")),
            None => {
                let state = SessionState {
                    session_id,
                    project_id,
                    file_id,
                    participants: Vec::new(),
                    operations: Vec::new(),
                    version: 0,
                    subscribers: Vec::new(),
                    next_subscriber_id: 0,
                };
                self.sessions.push(state);
                proof {
                    assert(final(self).sessions@.take(old(self).sessions@.len() as int) =~= old(
                        self,
                    ).sessions@);
                }
                Ok(())
            },
        }
    }

    /// Finds the position of a participant.
    fn find_participant(participants: &Vec<ParticipantState>, user_id: u128) -> (r: Option<usize>)
        ensures
            match r {
                Some(k) => k < participants@.len() && participants@[k as int].user_id == user_id,
                None => forall|k: int|
                    0 <= k < participants@.len() ==> (#[trigger] participants@[k]).user_id
                        != user_id,
            },
    {
        let mut k: usize = 0;
        while k < participants.len()
            invariant
                0 <= k <= participants@.len(),
                forall|m: int| 0 <= m < k ==> (#[trigger] participants@[m]).user_id != user_id,
            decreases participants@.len() - k,
        {
            if participants[k].user_id == user_id {
                return Some(k);
            }
            k = k + 1;
        }
        None
    }

    /// Adds a user to a session, or resets their cursor state if they are
    /// already in it (joining is idempotent per user). Fails, and changes
    /// nothing, exactly when the session does not exist.
    pub fn join_session(&mut self, session_id: u128, user_id: u128) -> (r: Result<(), String>)
        requires
            old(self).wf(),
        ensures
            final(self).wf(),
            final(self).broadcast_capacity == old(self).broadcast_capacity,
            r.is_ok() <==> old(self).has_session(session_id),
            r matches Err(m) ==> m@ == "Session not found"@ && *final(self) == *old(self),
            r.is_ok() ==> {
                let i = old(self).session_index(session_id);
                let olds = old(self).sessions@[i];
                let news = final(self).sessions@[i];
                &&& final(self).sessions@ == old(self).sessions@.update(i, news)
                &&& news.session_id == olds.session_id
                &&& news.project_id == olds.project_id
                &&& news.file_id == olds.file_id
                &&& news.operations@ == olds.operations@
                &&& news.version == olds.version
                &&& news.subscribers@ == olds.subscribers@
                &&& news.next_subscriber_id == olds.next_subscriber_id
                &&& news.participants@ == if olds.has_participant(user_id) {
                    olds.participants@.update(
                        olds.participant_index(user_id),
                        fresh_participant(user_id),
                    )
                } else {
                    olds.participants@.push(fresh_participant(user_id))
                }
            },
    {
        match self.find_index(session_id) {
            None => Err(String::from_str("Session not found")),
            Some(i) => {
                proof {
                    old(self).lemma_index_determined(session_id, i as int);
                }
                let mut s = self.sessions.remove(i);
                let ghost olds = s;
                let p = ParticipantState {
                    user_id,
                    cursor_position: None,
                    selection_start: None,
                    selection_end: None,
                };
                match Self::find_participant(&s.participants, user_id) {
                    Some(k) => {
                        proof {
                            let kk = olds.participant_index(user_id);
                            if kk != k as int {
                                assert(olds.participants@[kk].user_id == olds.participants@[
                                k as int].user_id);
                            }
                        }
                        s.participants.set(k, p);
                    },
                    None => {
                        s.participants.push(p);
                    },
                }
                self.sessions.insert(i, s);
                proof {
                    assert(final(self).sessions@ =~= old(self).sessions@.update(
                        i as int,
                        final(self).sessions@[i as int],
                    ));
                }
                Ok(())
            },
        }
    }

    /// Removes a user's cursor state from a session; leaving is idempotent
    /// and does not touch the operation log (authorship persists). Fails,
    /// and changes nothing, exactly when the session does not exist.
    pub fn leave_session(&mut self, session_id: u128, user_id: u128) -> (r: Result<(), String>)
        requires
            old(self).wf(),
        ensures
            final(self).wf(),
            final(self).broadcast_capacity == old(self).broadcast_capacity,
            r.is_ok() <==> old(self).has_session(session_id),
            r matches Err(m) ==> m@ == "Session not found"@ && *final(self) == *old(self),
            r.is_ok() ==> {
                let i = old(self).session_index(session_id);
                let olds = old(self).sessions@[i];
                let news = final(self).sessions@[i];
                &&& final(self).sessions@ == old(self).sessions@.update(i, news)
                &&& news.session_id == olds.session_id
                &&& news.project_id == olds.project_id
                &&& news.file_id == olds.file_id
                &&& news.operations@ == olds.operations@
                &&& news.version == olds.version
                &&& news.subscribers@ == olds.subscribers@
                &&& news.next_subscriber_id == olds.next_subscriber_id
                &&& news.participants@ == if olds.has_participant(user_id) {
                    olds.participants@.remove(olds.participant_index(user_id))
                } else {
                    olds.participants@
                }
                &&& !news.has_participant(user_id)
            },
    {
        match self.find_index(session_id) {
            None => Err(String::from_str("Session not found")),
            Some(i) => {
                proof {
                    old(self).lemma_index_determined(session_id, i as int);
                }
                let mut s = self.sessions.remove(i);
                let ghost olds = s;
                match Self::find_participant(&s.participants, user_id) {
                    Some(k) => {
                        proof {
                            let kk = olds.participant_index(user_id);
                            if kk != k as int {
                                assert(olds.participants@[kk].user_id == olds.participants@[
                                k as int].user_id);
                            }
                        }
                        s.participants.remove(k);
                        proof {
                            assert forall|m: int|
                                0 <= m < s.participants@.len() implies (
                            #[trigger] s.participants@[m]).user_id != user_id by {
                                if m < k as int {
                                    assert(s.participants@[m] == olds.participants@[m]);
                                } else {
                                    assert(s.participants@[m] == olds.participants@[m + 1]);
                                }
                            }
                        }
                    },
                    None => {},
                }
                self.sessions.insert(i, s);
                proof {
                    assert(final(self).sessions@ =~= old(self).sessions@.update(
                        i as int,
                        final(self).sessions@[i as int],
                    ));
                }
                Ok(())
            },
        }
    }

    /// Records a participant's reported cursor. Fails, and changes
    /// nothing, when the session does not exist ("Session not found") or
    /// the user has not joined it ("User not in session").
    pub fn update_cursor(&mut self, session_id: u128, cursor_update: CursorUpdate) -> (r: Result<
        (),
        String,
    >)
        requires
            old(self).wf(),
        ensures
            final(self).wf(),
            final(self).broadcast_capacity == old(self).broadcast_capacity,
            r.is_ok() <==> old(self).has_session(session_id) && old(self).session(
                session_id,
            ).has_participant(cursor_update.user_id),
            r matches Err(m) ==> *final(self) == *old(self) && (m@ == "Session not found"@ || m@
                == "User not in session"@),
            r matches Err(m) ==> (if old(self).has_session(session_id) {
                m@ == "User not in session"@
            } else {
                m@ == "Session not found"@
            }),
            r.is_ok() ==> {
                let i = old(self).session_index(session_id);
                let olds = old(self).sessions@[i];
                let news = final(self).sessions@[i];
                let k = olds.participant_index(cursor_update.user_id);
                &&& final(self).sessions@ == old(self).sessions@.update(i, news)
                &&& news.session_id == olds.session_id
                &&& news.project_id == olds.project_id
                &&& news.file_id == olds.file_id
                &&& news.operations@ == olds.operations@
                &&& news.version == olds.version
                &&& news.subscribers@ == olds.subscribers@
                &&& news.next_subscriber_id == olds.next_subscriber_id
                &&& news.participants@ == olds.participants@.update(
                    k,
                    ParticipantState {
                        user_id: cursor_update.user_id,
                        cursor_position: Some(cursor_update.cursor_position),
                        selection_start: cursor_update.selection_start,
                        selection_end: cursor_update.selection_end,
                    },
                )
            },
    {
        match self.find_index(session_id) {
            None => Err(String::from_str("Session not found")),
            Some(i) => {
                proof {
                    old(self).lemma_index_determined(session_id, i as int);
                }
                match Self::find_participant(&self.sessions[i].participants, cursor_update.user_id) {
                    None => Err(String::from_str("User not in session")),
                    Some(k) => {
                        let ghost oldm = *self;
                        let mut s = self.sessions.remove(i);
                        let ghost olds = s;
                        proof {
                            let kk = olds.participant_index(cursor_update.user_id);
                            if kk != k as int {
                                assert(olds.participants@[kk].user_id == olds.participants@[
                                k as int].user_id);
                            }
                        }
                        let p = ParticipantState {
                            user_id: cursor_update.user_id,
                            cursor_position: Some(cursor_update.cursor_position),
                            selection_start: cursor_update.selection_start,
                            selection_end: cursor_update.selection_end,
                        };
                        s.participants.set(k, p);
                        self.sessions.insert(i, s);
                        proof {
                            assert(final(self).sessions@ =~= old(self).sessions@.update(
                                i as int,
                                final(self).sessions@[i as int],
                            ));
                        }
                        Ok(())
                    },
                }
            },
        }
    }

    /// The project a session is bound to. Fails exactly when the session
    /// does not exist.
    pub fn get_session_project(&self, session_id: u128) -> (r: Result<u128, String>)
        requires
            self.wf(),
        ensures
            r.is_ok() <==> self.has_session(session_id),
            r matches Ok(p) ==> p == self.session(session_id).project_id,
            r matches Err(m) ==> m@ == "Session not found"@,
    {
        match self.find_index(session_id) {
            None => Err(String::from_str("Session not found")),
            Some(i) => {
                proof {
                    self.lemma_index_determined(session_id, i as int);
                }
                Ok(self.sessions[i].project_id)
            },
        }
    }

    /// The session's current version. Fails exactly when the session does
    /// not exist.
    pub fn get_version(&self, session_id: u128) -> (r: Result<u32, String>)
        requires
            self.wf(),
        ensures
            r.is_ok() <==> self.has_session(session_id),
            r matches Ok(v) ==> v == self.session(session_id).version,
            r matches Err(m) ==> m@ == "Session not found"@,
    {
        match self.find_index(session_id) {
            None => Err(String::from_str("Session not found")),
            Some(i) => {
                proof {
                    self.lemma_index_determined(session_id, i as int);
                }
                Ok(self.sessions[i].version)
            },
        }
    }

    /// Drops a session with all its state and subscribers. Always
    /// succeeds; closing an unknown session changes nothing.
    pub fn close_session(&mut self, session_id: u128) -> (r: Result<(), String>)
        requires
            old(self).wf(),
        ensures
            final(self).wf(),
            final(self).broadcast_capacity == old(self).broadcast_capacity,
            r.is_ok(),
            !final(self).has_session(session_id),
            old(self).has_session(session_id) ==> final(self).sessions@ == old(
                self,
            ).sessions@.remove(old(self).session_index(session_id)),
            !old(self).has_session(session_id) ==> *final(self) == *old(self),
    {
        match self.find_index(session_id) {
            None => Ok(()),
            Some(i) => {
                proof {
                    old(self).lemma_index_determined(session_id, i as int);
                }
                self.sessions.remove(i);
                proof {
                    assert forall|k: int|
                        0 <= k < final(self).sessions@.len() implies (
                    #[trigger] final(self).sessions@[k]).session_id != session_id by {
                        if k < i as int {
                            assert(final(self).sessions@[k] == old(self).sessions@[k]);
                        } else {
                            assert(final(self).sessions@[k] == old(self).sessions@[k + 1]);
                        }
                    }
                }
                Ok(())
            },
        }
    }
}


/// The predicate selecting operations concurrent with a submission: at or
/// after the version its author observed, and not by the author.
pub open spec fn concurrent_filter(v: u32, author: u128) -> spec_fn(DocumentOperation) -> bool {
    |o: DocumentOperation| o.version >= v && o.user_id != author
}

/// The operations of a session's log that a submission must be transformed
/// against, in log order.
pub open spec fn concurrent_ops(s: SessionState, op: DocumentOperation) -> Seq<DocumentOperation> {
    s.operations@.filter(concurrent_filter(op.version, op.user_id))
}

/// The operation a submission appends: the submitted operation transformed
/// against its concurrent tail, carrying the next version.
pub open spec fn assigned_op(s: SessionState, op: DocumentOperation) -> DocumentOperation {
    DocumentOperation {
        version: (s.version + 1) as u32,
        ..spec_transform_fold(op, concurrent_ops(s, op))
    }
}

/// How one delivery attempt changes one subscriber: the author's own
/// subscribers receive nothing; a lagged subscriber receives nothing
/// further; a live buffer with room gains the operation; a full one is
/// marked lagged and gains nothing (an explicit, not a silent, drop).
pub open spec fn delivered_subscriber(
    o: SubscriberState,
    n: SubscriberState,
    op: DocumentOperation,
) -> bool {
    &&& n.subscriber_id == o.subscriber_id
    &&& n.user_id == o.user_id
    &&& n.joined_version == o.joined_version
    &&& n.capacity == o.capacity
    &&& (o.user_id == op.user_id ==> n == o)
    &&& (o.user_id != op.user_id && o.lagged ==> n == o)
    &&& (o.user_id != op.user_id && !o.lagged && o.pending@.len() < o.capacity ==> n.pending@
        == o.pending@.push(op) && n.lagged == false)
    &&& (o.user_id != op.user_id && !o.lagged && o.pending@.len() >= o.capacity ==> n.pending@
        == o.pending@ && n.lagged == true)
}

impl SessionState {
    /// Whether a subscriber with this id exists.
    pub open spec fn has_subscriber(self, subscriber_id: u64) -> bool {
        exists|k: int|
            0 <= k < self.subscribers@.len() && (#[trigger] self.subscribers@[k]).subscriber_id
                == subscriber_id
    }

    /// The index of the subscriber with this id (meaningful when present).
    pub open spec fn subscriber_index(self, subscriber_id: u64) -> int {
        choose|k: int|
            0 <= k < self.subscribers@.len() && (#[trigger] self.subscribers@[k]).subscriber_id
                == subscriber_id
    }
}

impl CollaborationManager {
    /// Copies out the log operations concurrent with a submission.
    fn select_concurrent(ops: &Vec<DocumentOperation>, v: u32, author: u128) -> (r: Vec<
        DocumentOperation,
    >)
        ensures
            r@ == ops@.filter(concurrent_filter(v, author)),
    {
        let ghost pred = concurrent_filter(v, author);
        let mut r: Vec<DocumentOperation> = Vec::new();
        let mut i: usize = 0;
        proof {
            reveal(Seq::filter);
            assert(ops@.take(0).filter(pred) =~= Seq::<DocumentOperation>::empty());
        }
        while i < ops.len()
            invariant
                0 <= i <= ops@.len(),
                pred == concurrent_filter(v, author),
                r@ == ops@.take(i as int).filter(pred),
            decreases ops@.len() - i,
        {
            proof {
                reveal(Seq::filter);
                let t1 = ops@.take(i as int + 1);
                assert(t1.drop_last() =~= ops@.take(i as int));
                assert(t1.last() == ops@[i as int]);
                assert(t1.filter(pred) == if pred(t1.last()) {
                    t1.drop_last().filter(pred).push(t1.last())
                } else {
                    t1.drop_last().filter(pred)
                });
            }
            if ops[i].version >= v && ops[i].user_id != author {
                r.push(ops[i].duplicate());
            }
            i = i + 1;
        }
        proof {
            assert(ops@.take(ops@.len() as int) =~= ops@);
        }
        r
    }

    /// Submits an operation to a session. On success the operation is
    /// transformed against every logged operation that is concurrent with
    /// it (version at or after the one its author observed, other author),
    /// appended with the session's next version, and delivered once to
    /// every subscriber except the author's own; the session's version
    /// grows by exactly one and is returned. Fails, and changes nothing,
    /// when the session does not exist, the author has not joined it, or
    /// the operation is structurally invalid.
    pub fn apply_operation(&mut self, session_id: u128, operation: DocumentOperation) -> (r: Result<
        u32,
        String,
    >)
        requires
            old(self).wf(),
            old(self).has_session(session_id) ==> old(self).session(session_id).version
                < u32::MAX,
        ensures
            final(self).wf(),
            final(self).broadcast_capacity == old(self).broadcast_capacity,
            r.is_ok() <==> old(self).has_session(session_id) && old(self).session(
                session_id,
            ).has_participant(operation.user_id) && operation.operation.well_formed(),
            r matches Err(m) ==> *final(self) == *old(self) && (if !old(self).has_session(
                session_id,
            ) {
                m@ == "Session not found"@
            } else if !old(self).session(session_id).has_participant(operation.user_id) {
                m@ == "User not in session"@
            } else {
                m@ == "Invalid operation"@
            }),
            r matches Ok(v) ==> {
                let i = old(self).session_index(session_id);
                let olds = old(self).sessions@[i];
                let news = final(self).sessions@[i];
                let assigned = assigned_op(olds, operation);
                &&& final(self).sessions@ == old(self).sessions@.update(i, news)
                &&& news.session_id == olds.session_id
                &&& news.project_id == olds.project_id
                &&& news.file_id == olds.file_id
                &&& news.participants@ == olds.participants@
                &&& news.next_subscriber_id == olds.next_subscriber_id
                &&& news.version == olds.version + 1
                &&& v == news.version
                &&& news.operations@ == olds.operations@.push(assigned)
                &&& news.subscribers@.len() == olds.subscribers@.len()
                &&& forall|k: int|
                    0 <= k < olds.subscribers@.len() ==> delivered_subscriber(
                        #[trigger] olds.subscribers@[k],
                        #[trigger] news.subscribers@[k],
                        assigned,
                    )
            },
    {
        match self.find_index(session_id) {
            None => Err(String::from_str("Session not found")),
            Some(i) => {
                proof {
                    old(self).lemma_index_determined(session_id, i as int);
                }
                match Self::find_participant(&self.sessions[i].participants, operation.user_id) {
                    None => Err(String::from_str("User not in session")),
                    Some(_) => {
                        if !operation.operation.is_well_formed() {
                            return Err(String::from_str("Invalid operation"));
                        }
                        let mut s = self.sessions.remove(i);
                        let ghost olds = s;
                        let concurrent = Self::select_concurrent(
                            &s.operations,
                            operation.version,
                            operation.user_id,
                        );
                        let mut t = OTEngine::transform(&operation, &concurrent);
                        proof {
                            lemma_transform_fold_metadata(operation, concurrent@);
                        }
                        t.version = s.version + 1;
                        proof {
                            assert(t == assigned_op(olds, operation));
                            assert(t.user_id == operation.user_id);
                        }
                        s.operations.push(t.duplicate());
                        s.version = s.version + 1;
                        let ghost presubs = s.subscribers@;
                        let mut k: usize = 0;
                        while k < s.subscribers.len()
                            invariant
                                0 <= k <= s.subscribers@.len(),
                                s.subscribers@.len() == presubs.len(),
                                olds.wf(),
                                olds.version < u32::MAX,
                                presubs == olds.subscribers@,
                                t == assigned_op(olds, operation),
                                t.user_id == operation.user_id,
                                t.version == olds.version + 1,
                                s.session_id == olds.session_id,
                                s.project_id == olds.project_id,
                                s.file_id == olds.file_id,
                                s.participants@ == olds.participants@,
                                s.next_subscriber_id == olds.next_subscriber_id,
                                s.operations@ == olds.operations@.push(t),
                                s.version == olds.version + 1,
                                forall|m: int|
                                    k <= m < presubs.len() ==> #[trigger] s.subscribers@[m]
                                        == presubs[m],
                                forall|m: int|
                                    0 <= m < k ==> delivered_subscriber(
                                        #[trigger] presubs[m],
                                        #[trigger] s.subscribers@[m],
                                        t,
                                    ),
                            decreases s.subscribers@.len() - k,
                        {
                            let ghost preiter = s.subscribers@;
                            let deliver = s.subscribers[k].user_id != operation.user_id
                                && !s.subscribers[k].lagged;
                            if deliver {
                                let mut sub = s.subscribers.remove(k);
                                if sub.pending.len() < sub.capacity {
                                    sub.pending.push(t.duplicate());
                                } else {
                                    sub.lagged = true;
                                }
                                s.subscribers.insert(k, sub);
                                proof {
                                    assert(s.subscribers@ =~= preiter.update(
                                        k as int,
                                        s.subscribers@[k as int],
                                    ));
                                    assert(delivered_subscriber(
                                        presubs[k as int],
                                        s.subscribers@[k as int],
                                        t,
                                    ));
                                }
                            } else {
                                proof {
                                    assert(delivered_subscriber(
                                        presubs[k as int],
                                        s.subscribers@[k as int],
                                        t,
                                    ));
                                }
                            }
                            k = k + 1;
                        }
                        let v = s.version;
                        proof {
                            assert(t.user_id == operation.user_id);
                            assert(s.wf()) by {
                                assert forall|m: int|
                                    0 <= m < s.operations@.len() implies (
                                #[trigger] s.operations@[m]).version as int == m + 1 by {
                                    if m < olds.operations@.len() {
                                        assert(s.operations@[m] == olds.operations@[m]);
                                    }
                                }
                                assert forall|m: int|
                                    0 <= m < s.subscribers@.len() implies (
                                #[trigger] s.subscribers@[m]).wf(s.version)
                                    && s.subscribers@[m].subscriber_id
                                    < s.next_subscriber_id by {
                                    assert(delivered_subscriber(
                                        presubs[m],
                                        s.subscribers@[m],
                                        t,
                                    ));
                                    assert(presubs[m].wf(olds.version));
                                }
                                assert forall|m: int, mm: int|
                                    0 <= m < mm < s.subscribers@.len() implies (
                                #[trigger] s.subscribers@[m]).subscriber_id != (
                                #[trigger] s.subscribers@[mm]).subscriber_id by {
                                    assert(delivered_subscriber(presubs[m], s.subscribers@[m], t));
                                    assert(delivered_subscriber(
                                        presubs[mm],
                                        s.subscribers@[mm],
                                        t,
                                    ));
                                    assert(presubs[m].subscriber_id != presubs[mm].subscriber_id);
                                }
                            }
                        }
                        self.sessions.insert(i, s);
                        proof {
                            assert(final(self).sessions@ =~= old(self).sessions@.update(
                                i as int,
                                final(self).sessions@[i as int],
                            ));
                        }
                        Ok(v)
                    },
                }
            },
        }
    }

    /// The operations of a session at or after a version, for a client to
    /// reconcile against; every returned operation's version is at least
    /// the one asked for. Pure: nothing changes. Fails exactly when the
    /// session does not exist.
    pub fn detect_conflicts(&self, session_id: u128, incoming_version: u32) -> (r: Result<
        Vec<DocumentOperation>,
        String,
    >)
        requires
            self.wf(),
        ensures
            r.is_ok() <==> self.has_session(session_id),
            r matches Err(m) ==> m@ == "Session not found"@,
            r matches Ok(v) ==> {
                &&& v@ == ops_at_or_after(self.session(session_id).operations@, incoming_version)
                &&& forall|k: int|
                    0 <= k < v@.len() ==> (#[trigger] v@[k]).version >= incoming_version
            },
    {
        broadcast use vstd::seq_lib::group_filter_ensures;

        match self.find_index(session_id) {
            None => Err(String::from_str("Session not found")),
            Some(i) => {
                proof {
                    self.lemma_index_determined(session_id, i as int);
                }
                let v = OTEngine::select_at_or_after(&self.sessions[i].operations, incoming_version);
                proof {
                    assert forall|k: int|
                        0 <= k < v@.len() implies (#[trigger] v@[k]).version
                        >= incoming_version by {
                        assert(version_at_or_after(incoming_version)(v@[k]));
                    }
                }
                Ok(v)
            },
        }
    }

    /// The participants of a session with their reported cursors (an
    /// unreported cursor reads as position 0). Fails exactly when the
    /// session does not exist.
    pub fn get_participants(&self, session_id: u128) -> (r: Result<Vec<(u128, CursorUpdate)>, String>)
        requires
            self.wf(),
        ensures
            r.is_ok() <==> self.has_session(session_id),
            r matches Err(m) ==> m@ == "Session not found"@,
            r matches Ok(v) ==> {
                let ps = self.session(session_id).participants@;
                &&& v@.len() == ps.len()
                &&& forall|k: int|
                    0 <= k < ps.len() ==> {
                        &&& (#[trigger] v@[k]).0 == ps[k].user_id
                        &&& v@[k].1.user_id == ps[k].user_id
                        &&& v@[k].1.session_id == session_id
                        &&& v@[k].1.cursor_position == (match ps[k].cursor_position {
                            Some(c) => c,
                            None => 0i32,
                        })
                        &&& v@[k].1.selection_start == ps[k].selection_start
                        &&& v@[k].1.selection_end == ps[k].selection_end
                    }
            },
    {
        match self.find_index(session_id) {
            None => Err(String::from_str("Session not found")),
            Some(i) => {
                proof {
                    self.lemma_index_determined(session_id, i as int);
                }
                let participants = &self.sessions[i].participants;
                let mut v: Vec<(u128, CursorUpdate)> = Vec::new();
                let mut k: usize = 0;
                while k < participants.len()
                    invariant
                        0 <= k <= participants@.len(),
                        v@.len() == k,
                        forall|m: int|
                            0 <= m < k ==> {
                                &&& (#[trigger] v@[m]).0 == participants@[m].user_id
                                &&& v@[m].1.user_id == participants@[m].user_id
                                &&& v@[m].1.session_id == session_id
                                &&& v@[m].1.cursor_position == (match participants@[m].cursor_position {
                                    Some(c) => c,
                                    None => 0i32,
                                })
                                &&& v@[m].1.selection_start == participants@[m].selection_start
                                &&& v@[m].1.selection_end == participants@[m].selection_end
                            },
                    decreases participants@.len() - k,
                {
                    let p = participants[k];
                    let cursor_position = match p.cursor_position {
                        Some(c) => c,
                        None => 0,
                    };
                    v.push(
                        (
                            p.user_id,
                            CursorUpdate {
                                user_id: p.user_id,
                                session_id,
                                cursor_position,
                                selection_start: p.selection_start,
                                selection_end: p.selection_end,
                            },
                        ),
                    );
                    k = k + 1;
                }
                Ok(v)
            },
        }
    }

    /// Finds the position of a subscriber.
    fn find_subscriber(subscribers: &Vec<SubscriberState>, subscriber_id: u64) -> (r: Option<usize>)
        ensures
            match r {
                Some(k) => k < subscribers@.len() && subscribers@[k as int].subscriber_id
                    == subscriber_id,
                None => forall|k: int|
                    0 <= k < subscribers@.len() ==> (#[trigger] subscribers@[k]).subscriber_id
                        != subscriber_id,
            },
    {
        let mut k: usize = 0;
        while k < subscribers.len()
            invariant
                0 <= k <= subscribers@.len(),
                forall|m: int|
                    0 <= m < k ==> (#[trigger] subscribers@[m]).subscriber_id != subscriber_id,
            decreases subscribers@.len() - k,
        {
            if subscribers[k].subscriber_id == subscriber_id {
                return Some(k);
            }
            k = k + 1;
        }
        None
    }

    /// Attaches a new subscriber to a session's broadcast fan-out and
    /// returns its id. The subscriber starts empty at the session's
    /// current version: it will see only operations published after this
    /// call. Fails, and changes nothing, exactly when the session does not
    /// exist.
    pub fn subscribe(&mut self, session_id: u128, user_id: u128) -> (r: Result<u64, String>)
        requires
            old(self).wf(),
            old(self).has_session(session_id) ==> old(self).session(
                session_id,
            ).next_subscriber_id < u64::MAX,
        ensures
            final(self).wf(),
            final(self).broadcast_capacity == old(self).broadcast_capacity,
            r.is_ok() <==> old(self).has_session(session_id),
            r matches Err(m) ==> m@ == "Session not found"@ && *final(self) == *old(self),
            r matches Ok(sid) ==> {
                let i = old(self).session_index(session_id);
                let olds = old(self).sessions@[i];
                let news = final(self).sessions@[i];
                &&& final(self).sessions@ == old(self).sessions@.update(i, news)
                &&& sid == olds.next_subscriber_id
                &&& news.session_id == olds.session_id
                &&& news.project_id == olds.project_id
                &&& news.file_id == olds.file_id
                &&& news.participants@ == olds.participants@
                &&& news.operations@ == olds.operations@
                &&& news.version == olds.version
                &&& news.next_subscriber_id == olds.next_subscriber_id + 1
                &&& news.subscribers@.len() == olds.subscribers@.len() + 1
                &&& news.subscribers@.take(olds.subscribers@.len() as int) == olds.subscribers@
                &&& news.subscribers@.last().subscriber_id == sid
                &&& news.subscribers@.last().user_id == user_id
                &&& news.subscribers@.last().joined_version == olds.version
                &&& news.subscribers@.last().pending@.len() == 0
                &&& news.subscribers@.last().capacity == old(self).broadcast_capacity
                &&& news.subscribers@.last().lagged == false
            },
    {
        match self.find_index(session_id) {
            None => Err(String::from_str("Session not found")),
            Some(i) => {
                proof {
                    old(self).lemma_index_determined(session_id, i as int);
                }
                let capacity = self.broadcast_capacity;
                let mut s = self.sessions.remove(i);
                let ghost olds = s;
                let sid = s.next_subscriber_id;
                let sub = SubscriberState {
                    subscriber_id: sid,
                    user_id,
                    joined_version: s.version,
                    pending: Vec::new(),
                    capacity,
                    lagged: false,
                };
                s.subscribers.push(sub);
                s.next_subscriber_id = sid + 1;
                proof {
                    assert(s.subscribers@.take(olds.subscribers@.len() as int)
                        =~= olds.subscribers@);
                }
                self.sessions.insert(i, s);
                proof {
                    assert(final(self).sessions@ =~= old(self).sessions@.update(
                        i as int,
                        final(self).sessions@[i as int],
                    ));
                }
                Ok(sid)
            },
        }
    }

    /// Hands a subscriber everything delivered to it since the last read
    /// and empties its buffer; every returned operation was published
    /// after the subscriber joined. Fails, and changes nothing, when the
    /// session ("Session not found") or the subscriber ("Subscriber not
    /// found") does not exist.
    pub fn take_events(&mut self, session_id: u128, subscriber_id: u64) -> (r: Result<
        Vec<DocumentOperation>,
        String,
    >)
        requires
            old(self).wf(),
        ensures
            final(self).wf(),
            final(self).broadcast_capacity == old(self).broadcast_capacity,
            r.is_ok() <==> old(self).has_session(session_id) && old(self).session(
                session_id,
            ).has_subscriber(subscriber_id),
            r matches Err(m) ==> *final(self) == *old(self) && (if old(self).has_session(
                session_id,
            ) {
                m@ == "Subscriber not found"@
            } else {
                m@ == "Session not found"@
            }),
            r matches Ok(v) ==> {
                let i = old(self).session_index(session_id);
                let olds = old(self).sessions@[i];
                let news = final(self).sessions@[i];
                let k = olds.subscriber_index(subscriber_id);
                let oldsub = olds.subscribers@[k];
                let newsub = news.subscribers@[k];
                &&& final(self).sessions@ == old(self).sessions@.update(i, news)
                &&& news.session_id == olds.session_id
                &&& news.project_id == olds.project_id
                &&& news.file_id == olds.file_id
                &&& news.participants@ == olds.participants@
                &&& news.operations@ == olds.operations@
                &&& news.version == olds.version
                &&& news.next_subscriber_id == olds.next_subscriber_id
                &&& news.subscribers@ == olds.subscribers@.update(k, newsub)
                &&& v@ == oldsub.pending@
                &&& newsub.pending@.len() == 0
                &&& newsub.subscriber_id == oldsub.subscriber_id
                &&& newsub.user_id == oldsub.user_id
                &&& newsub.joined_version == oldsub.joined_version
                &&& newsub.capacity == oldsub.capacity
                &&& newsub.lagged == oldsub.lagged
                &&& forall|m: int|
                    0 <= m < v@.len() ==> (#[trigger] v@[m]).version > oldsub.joined_version
            },
    {
        match self.find_index(session_id) {
            None => Err(String::from_str("Session not found")),
            Some(i) => {
                proof {
                    old(self).lemma_index_determined(session_id, i as int);
                }
                match Self::find_subscriber(&self.sessions[i].subscribers, subscriber_id) {
                    None => Err(String::from_str("Subscriber not found")),
                    Some(k) => {
                        let mut s = self.sessions.remove(i);
                        let ghost olds = s;
                        proof {
                            let kk = olds.subscriber_index(subscriber_id);
                            if kk != k as int {
                                assert(olds.subscribers@[kk].subscriber_id == olds.subscribers@[
                                k as int].subscriber_id);
                            }
                        }
                        let mut sub = s.subscribers.remove(k);
                        let mut out: Vec<DocumentOperation> = Vec::new();
                        core::mem::swap(&mut out, &mut sub.pending);
                        s.subscribers.insert(k, sub);
                        proof {
                            assert(s.subscribers@ =~= olds.subscribers@.update(
                                k as int,
                                s.subscribers@[k as int],
                            ));
                        }
                        self.sessions.insert(i, s);
                        proof {
                            assert(final(self).sessions@ =~= old(self).sessions@.update(
                                i as int,
                                final(self).sessions@[i as int],
                            ));
                        }
                        Ok(out)
                    },
                }
            },
        }
    }

    /// Whether a subscriber has been dropped for lagging (its buffer
    /// overflowed). Fails when the session or subscriber does not exist.
    pub fn subscriber_lagged(&self, session_id: u128, subscriber_id: u64) -> (r: Result<bool, String>)
        requires
            self.wf(),
        ensures
            r.is_ok() <==> self.has_session(session_id) && self.session(session_id).has_subscriber(
                subscriber_id,
            ),
            r matches Ok(b) ==> b == self.session(session_id).subscribers@[self.session(
                session_id,
            ).subscriber_index(subscriber_id)].lagged,
    {
        match self.find_index(session_id) {
            None => Err(String::from_str("Session not found")),
            Some(i) => {
                proof {
                    self.lemma_index_determined(session_id, i as int);
                }
                match Self::find_subscriber(&self.sessions[i].subscribers, subscriber_id) {
                    None => Err(String::from_str("Subscriber not found")),
                    Some(k) => {
                        proof {
                            let olds = self.sessions@[i as int];
                            let kk = olds.subscriber_index(subscriber_id);
                            if kk != k as int {
                                assert(olds.subscribers@[kk].subscriber_id == olds.subscribers@[
                                k as int].subscriber_id);
                            }
                        }
                        Ok(self.sessions[i].subscribers[k].lagged)
                    },
                }
            },
        }
    }

    /// Transforms an operation against a list of concurrent operations, in
    /// order.
    pub fn transform_operation(
        base_op: &DocumentOperation,
        concurrent: &Vec<DocumentOperation>,
    ) -> (r: DocumentOperation)
        ensures
            r == spec_transform_fold(*base_op, concurrent@),
    {
        OTEngine::transform(base_op, concurrent)
    }
}

impl Default for CollaborationManager {
    /// The same as `new`: an empty registry with the default buffer.
    fn default() -> (r: CollaborationManager)
        ensures
            r.wf(),
            r.sessions@.len() == 0,
            r.broadcast_capacity == 1000,
    {
        CollaborationManager::new()
    }
}

/// Late-join safety: in a well-formed registry, a subscriber's buffer only
/// ever holds operations published after the version at which the
/// subscriber joined.
pub proof fn lemma_late_join_safety(m: CollaborationManager, i: int, k: int)
    requires
        m.wf(),
        0 <= i < m.sessions@.len(),
        0 <= k < m.sessions@[i].subscribers@.len(),
    ensures
        forall|j: int|
            0 <= j < m.sessions@[i].subscribers@[k].pending@.len() ==> (
            #[trigger] m.sessions@[i].subscribers@[k].pending@[j]).version > m.sessions@[
            i].subscribers@[k].joined_version,
{
}

/// Within a well-formed session the log's versions are strictly
/// increasing and gap-free: the operation at position `k` carries version
/// `k + 1`.
pub proof fn lemma_log_versions_gap_free(s: SessionState, k: int)
    requires
        s.wf(),
        0 <= k < s.operations@.len(),
    ensures
        s.operations@[k].version as int == k + 1,
{
}

} // verus!
