//! The authorisation gate between the session manager and the permission
//! resolver: before a session action runs, the actor must hold the right
//! token — `write` for submitting operations and moving cursors, `read`
//! for joining and for conflict detection — on the session's project. A
//! denied check returns `Forbidden` without touching any session state, so
//! no version moves and nothing is broadcast.

use vstd::prelude::*;

use crate::hierarchy::ResourceKind;
use crate::ops::{CursorUpdate, DocumentOperation};
use crate::ot::ops_at_or_after;
use crate::resolver::{spec_effective, InheritanceEngine};
use crate::session::{assigned_op, delivered_subscriber, fresh_participant, CollaborationManager,
    ParticipantState};

verus! {

/// The actor holds the token on the project, by the resolver's rules.
pub open spec fn holds_token(
    engine: InheritanceEngine,
    user_id: u128,
    project_id: u128,
    token: Seq<char>,
) -> bool {
    spec_effective(engine.store, engine.config, user_id, ResourceKind::Project, project_id).contains(
        token,
    )
}

/// Submits an operation after checking that its author holds `write` on
/// the session's project. A missing session or a denied check changes no
/// session state: the version stays, and nothing reaches any subscriber.
pub fn submit_with_gate(
    engine: &mut InheritanceEngine,
    manager: &mut CollaborationManager,
    session_id: u128,
    operation: DocumentOperation,
) -> (r: Result<u32, String>)
    requires
        old(engine).wf(),
        old(manager).wf(),
        old(manager).has_session(session_id) ==> old(manager).session(session_id).version
            < u32::MAX,
    ensures
        final(engine).wf(),
        final(manager).wf(),
        final(engine).store == old(engine).store,
        final(engine).config == old(engine).config,
        final(manager).broadcast_capacity == old(manager).broadcast_capacity,
        !old(manager).has_session(session_id) ==> (r matches Err(m) && m@
            == "Session not found"@ && *final(manager) == *old(manager)),
        old(manager).has_session(session_id) && !holds_token(
            *old(engine),
            operation.user_id,
            old(manager).session(session_id).project_id,
            "write"@,
        ) ==> (r matches Err(m) && m@ == "Forbidden"@ && *final(manager) == *old(manager)),
        old(manager).has_session(session_id) && holds_token(
            *old(engine),
            operation.user_id,
            old(manager).session(session_id).project_id,
            "write"@,
        ) ==> {
            &&& (r.is_ok() <==> old(manager).session(session_id).has_participant(operation.user_id)
                && operation.operation.well_formed())
            &&& (r matches Ok(v) ==> {
                let i = old(manager).session_index(session_id);
                let olds = old(manager).sessions@[i];
                let news = final(manager).sessions@[i];
                let assigned = assigned_op(olds, operation);
                &&& final(manager).sessions@ == old(manager).sessions@.update(i, news)
                &&& news.version == olds.version + 1
                &&& v == news.version
                &&& news.operations@ == olds.operations@.push(assigned)
                &&& news.participants@ == olds.participants@
                &&& news.subscribers@.len() == olds.subscribers@.len()
                &&& forall|k: int|
                    0 <= k < olds.subscribers@.len() ==> delivered_subscriber(
                        #[trigger] olds.subscribers@[k],
                        #[trigger] news.subscribers@[k],
                        assigned,
                    )
            })
            &&& (r matches Err(m) ==> *final(manager) == *old(manager))
        },
{
    let project_id = match manager.get_session_project(session_id) {
        Err(m) => {
            return Err(m);
        },
        Ok(p) => p,
    };
    let allowed = engine.has_permission(
        operation.user_id,
        project_id,
        ResourceKind::Project,
        "write",
    );
    if !allowed {
        return Err(String::from_str("Forbidden"));
    }
    manager.apply_operation(session_id, operation)
}

/// Moves a participant's cursor after checking that they hold `write` on
/// the session's project; a denied check changes nothing.
pub fn update_cursor_with_gate(
    engine: &mut InheritanceEngine,
    manager: &mut CollaborationManager,
    session_id: u128,
    cursor_update: CursorUpdate,
) -> (r: Result<(), String>)
    requires
        old(engine).wf(),
        old(manager).wf(),
    ensures
        final(engine).wf(),
        final(manager).wf(),
        final(engine).store == old(engine).store,
        final(engine).config == old(engine).config,
        !old(manager).has_session(session_id) ==> (r matches Err(m) && m@
            == "Session not found"@ && *final(manager) == *old(manager)),
        old(manager).has_session(session_id) && !holds_token(
            *old(engine),
            cursor_update.user_id,
            old(manager).session(session_id).project_id,
            "write"@,
        ) ==> (r matches Err(m) && m@ == "Forbidden"@ && *final(manager) == *old(manager)),
        old(manager).has_session(session_id) && holds_token(
            *old(engine),
            cursor_update.user_id,
            old(manager).session(session_id).project_id,
            "write"@,
        ) ==> {
            &&& (r.is_ok() <==> old(manager).session(session_id).has_participant(
                cursor_update.user_id,
            ))
            &&& (r matches Err(m) ==> *final(manager) == *old(manager) && m@
                == "User not in session"@)
            &&& (r.is_ok() ==> {
                let i = old(manager).session_index(session_id);
                let olds = old(manager).sessions@[i];
                let news = final(manager).sessions@[i];
                let k = olds.participant_index(cursor_update.user_id);
                &&& final(manager).sessions@ == old(manager).sessions@.update(i, news)
                &&& news.session_id == olds.session_id
                &&& news.project_id == olds.project_id
                &&& news.file_id == olds.file_id
                &&& news.operations@ == olds.operations@
                &&& news.version == olds.version
                &&& news.subscribers@ == olds.subscribers@
                &&& news.next_subscriber_id == olds.next_subscriber_id
                &&& news.participants@ == olds.participants@.update(
                    k,
                    ParticipantState {
                        user_id: cursor_update.user_id,
                        cursor_position: Some(cursor_update.cursor_position),
                        selection_start: cursor_update.selection_start,
                        selection_end: cursor_update.selection_end,
                    },
                )
            })
        },
{
    let project_id = match manager.get_session_project(session_id) {
        Err(m) => {
            return Err(m);
        },
        Ok(p) => p,
    };
    let allowed = engine.has_permission(
        cursor_update.user_id,
        project_id,
        ResourceKind::Project,
        "write",
    );
    if !allowed {
        return Err(String::from_str("Forbidden"));
    }
    manager.update_cursor(session_id, cursor_update)
}

/// Joins a user to a session after checking that they hold `read` on the
/// session's project; a denied check changes nothing.
pub fn join_with_gate(
    engine: &mut InheritanceEngine,
    manager: &mut CollaborationManager,
    session_id: u128,
    user_id: u128,
) -> (r: Result<(), String>)
    requires
        old(engine).wf(),
        old(manager).wf(),
    ensures
        final(engine).wf(),
        final(manager).wf(),
        final(engine).store == old(engine).store,
        final(engine).config == old(engine).config,
        !old(manager).has_session(session_id) ==> (r matches Err(m) && m@
            == "Session not found"@ && *final(manager) == *old(manager)),
        old(manager).has_session(session_id) && !holds_token(
            *old(engine),
            user_id,
            old(manager).session(session_id).project_id,
            "read"@,
        ) ==> (r matches Err(m) && m@ == "Forbidden"@ && *final(manager) == *old(manager)),
        old(manager).has_session(session_id) && holds_token(
            *old(engine),
            user_id,
            old(manager).session(session_id).project_id,
            "read"@,
        ) ==> {
            &&& r.is_ok()
            &&& final(manager).session(session_id).has_participant(user_id)
            &&& {
                let i = old(manager).session_index(session_id);
                let olds = old(manager).sessions@[i];
                let news = final(manager).sessions@[i];
                &&& final(manager).sessions@ == old(manager).sessions@.update(i, news)
                &&& news.session_id == olds.session_id
                &&& news.project_id == olds.project_id
                &&& news.file_id == olds.file_id
                &&& news.operations@ == olds.operations@
                &&& news.version == olds.version
                &&& news.subscribers@ == olds.subscribers@
                &&& news.next_subscriber_id == olds.next_subscriber_id
                &&& news.participants@ == if olds.has_participant(user_id) {
                    olds.participants@.update(
                        olds.participant_index(user_id),
                        fresh_participant(user_id),
                    )
                } else {
                    olds.participants@.push(fresh_participant(user_id))
                }
            }
        },
{
    let project_id = match manager.get_session_project(session_id) {
        Err(m) => {
            return Err(m);
        },
        Ok(p) => p,
    };
    let allowed = engine.has_permission(user_id, project_id, ResourceKind::Project, "read");
    if !allowed {
        return Err(String::from_str("Forbidden"));
    }
    let r = manager.join_session(session_id, user_id);
    proof {
        let i = old(manager).session_index(session_id);
        let news = manager.sessions@[i];
        assert(manager.session_index(session_id) == i) by {
            manager.lemma_index_determined(session_id, i);
        }
        let olds = old(manager).sessions@[i];
        if olds.has_participant(user_id) {
            let k = olds.participant_index(user_id);
            assert(news.participants@[k].user_id == user_id);
        } else {
            assert(news.participants@[news.participants@.len() - 1] == fresh_participant(user_id));
        }
    }
    r
}

/// Reports the operations at or after a version after checking that the
/// asking user holds `read` on the session's project; a denied check
/// reports `Forbidden`.
pub fn detect_conflicts_with_gate(
    engine: &mut InheritanceEngine,
    manager: &CollaborationManager,
    session_id: u128,
    user_id: u128,
    incoming_version: u32,
) -> (r: Result<Vec<DocumentOperation>, String>)
    requires
        old(engine).wf(),
        manager.wf(),
    ensures
        final(engine).wf(),
        final(engine).store == old(engine).store,
        final(engine).config == old(engine).config,
        !manager.has_session(session_id) ==> (r matches Err(m) && m@ == "Session not found"@),
        manager.has_session(session_id) && !holds_token(
            *old(engine),
            user_id,
            manager.session(session_id).project_id,
            "read"@,
        ) ==> (r matches Err(m) && m@ == "Forbidden"@),
        manager.has_session(session_id) && holds_token(
            *old(engine),
            user_id,
            manager.session(session_id).project_id,
            "read"@,
        ) ==> (r matches Ok(v) && v@ == ops_at_or_after(
            manager.session(session_id).operations@,
            incoming_version,
        ) && (forall|k: int| 0 <= k < v@.len() ==> (#[trigger] v@[k]).version >= incoming_version)),
{
    let project_id = match manager.get_session_project(session_id) {
        Err(m) => {
            return Err(m);
        },
        Ok(p) => p,
    };
    let allowed = engine.has_permission(user_id, project_id, ResourceKind::Project, "read");
    if !allowed {
        return Err(String::from_str("Forbidden"));
    }
    manager.detect_conflicts(session_id, incoming_version)
}

} // verus!
