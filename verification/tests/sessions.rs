use collab_core::ops::{CursorUpdate, DocumentOperation, OperationType};
use collab_core::ot::OTEngine;
use collab_core::session::CollaborationManager;

const SESSION: u128 = 0x51;
const PROJECT: u128 = 0x70;
const FILE: u128 = 0xf1;
const USER1: u128 = 0x01;
const USER2: u128 = 0x02;

fn insert_op(id: &str, user: u128, version: u32, pos: usize, content: &str) -> DocumentOperation {
    DocumentOperation {
        id: id.to_string(),
        version,
        timestamp: 1_700_000_000_000,
        user_id: user,
        operation: OperationType::Insert {
            position: pos,
            content: content.to_string(),
        },
    }
}

#[test]
fn test_session_creation() {
    let mut manager = CollaborationManager::new();

    assert!(manager.create_session(SESSION, PROJECT, FILE).is_ok());
    assert!(manager.create_session(SESSION, PROJECT, FILE).is_err());
}

#[test]
fn test_join_leave() {
    let mut manager = CollaborationManager::new();

    manager.create_session(SESSION, PROJECT, FILE).unwrap();
    assert!(manager.join_session(SESSION, USER1).is_ok());

    let participants = manager.get_participants(SESSION).unwrap();
    assert_eq!(participants.len(), 1);

    assert!(manager.leave_session(SESSION, USER1).is_ok());
    let participants = manager.get_participants(SESSION).unwrap();
    assert_eq!(participants.len(), 0);
}

#[test]
fn test_cursor_update() {
    let mut manager = CollaborationManager::new();

    manager.create_session(SESSION, PROJECT, FILE).unwrap();
    manager.join_session(SESSION, USER1).unwrap();

    let cursor_update = CursorUpdate {
        user_id: USER1,
        session_id: SESSION,
        cursor_position: 42,
        selection_start: Some(40),
        selection_end: Some(50),
    };

    assert!(manager.update_cursor(SESSION, cursor_update).is_ok());
    let participants = manager.get_participants(SESSION).unwrap();
    assert_eq!(participants[0].1.cursor_position, 42);
    assert_eq!(participants[0].1.selection_start, Some(40));
    assert_eq!(participants[0].1.selection_end, Some(50));
}

#[test]
fn test_submit_increments_version() {
    let mut manager = CollaborationManager::new();
    manager.create_session(SESSION, PROJECT, FILE).unwrap();
    manager.join_session(SESSION, USER1).unwrap();

    assert_eq!(manager.get_version(SESSION).unwrap(), 0);
    let v1 = manager
        .apply_operation(SESSION, insert_op("a", USER1, 0, 0, "x"))
        .unwrap();
    assert_eq!(v1, 1);
    let v2 = manager
        .apply_operation(SESSION, insert_op("b", USER1, 0, 1, "y"))
        .unwrap();
    assert_eq!(v2, 2);
    assert_eq!(manager.get_version(SESSION).unwrap(), 2);
}

#[test]
fn test_submit_errors() {
    let mut manager = CollaborationManager::new();
    assert_eq!(
        manager
            .apply_operation(SESSION, insert_op("a", USER1, 0, 0, "x"))
            .unwrap_err(),
        "Session not found"
    );
    manager.create_session(SESSION, PROJECT, FILE).unwrap();
    assert_eq!(
        manager
            .apply_operation(SESSION, insert_op("a", USER1, 0, 0, "x"))
            .unwrap_err(),
        "User not in session"
    );
    manager.join_session(SESSION, USER1).unwrap();
    assert_eq!(
        manager
            .apply_operation(SESSION, insert_op("a", USER1, 0, 0, ""))
            .unwrap_err(),
        "Invalid operation"
    );
}

#[test]
fn test_convergence_through_sessions() {
    // Submitting the two concurrent inserts in either order converges on
    // the same document.
    let mut first = CollaborationManager::new();
    first.create_session(SESSION, PROJECT, FILE).unwrap();
    first.join_session(SESSION, USER1).unwrap();
    first.join_session(SESSION, USER2).unwrap();
    first
        .apply_operation(SESSION, insert_op("u1", USER1, 0, 2, "X"))
        .unwrap();
    first
        .apply_operation(SESSION, insert_op("u2", USER2, 0, 1, "Y"))
        .unwrap();
    let log = first.detect_conflicts(SESSION, 0).unwrap();
    let mut doc = "ab".to_string();
    for op in &log {
        doc = OTEngine::apply_operation(&doc, op);
    }
    assert_eq!(doc, "aYbX");

    let mut second = CollaborationManager::new();
    second.create_session(SESSION, PROJECT, FILE).unwrap();
    second.join_session(SESSION, USER1).unwrap();
    second.join_session(SESSION, USER2).unwrap();
    second
        .apply_operation(SESSION, insert_op("u2", USER2, 0, 1, "Y"))
        .unwrap();
    second
        .apply_operation(SESSION, insert_op("u1", USER1, 0, 2, "X"))
        .unwrap();
    let log = second.detect_conflicts(SESSION, 0).unwrap();
    let mut doc = "ab".to_string();
    for op in &log {
        doc = OTEngine::apply_operation(&doc, op);
    }
    assert_eq!(doc, "aYbX");
}

#[test]
fn test_delete_insert_session_scenario() {
    // "hello world": a delete of the middle and an insert inside the
    // deleted range; the insert collapses to the start of the range.
    let mut manager = CollaborationManager::new();
    manager.create_session(SESSION, PROJECT, FILE).unwrap();
    manager.join_session(SESSION, USER1).unwrap();
    manager.join_session(SESSION, USER2).unwrap();
    let del = DocumentOperation {
        id: "u1".to_string(),
        version: 0,
        timestamp: 10,
        user_id: USER1,
        operation: OperationType::Delete { position: 6, length: 5 },
    };
    manager.apply_operation(SESSION, del).unwrap();
    manager
        .apply_operation(SESSION, insert_op("u2", USER2, 0, 8, "!"))
        .unwrap();
    let log = manager.detect_conflicts(SESSION, 0).unwrap();
    let mut doc = "hello world".to_string();
    for op in &log {
        doc = OTEngine::apply_operation(&doc, op);
    }
    assert_eq!(doc, "hello !");
}

#[test]
fn test_broadcast_non_echo() {
    let mut manager = CollaborationManager::new();
    manager.create_session(SESSION, PROJECT, FILE).unwrap();
    manager.join_session(SESSION, USER1).unwrap();
    manager.join_session(SESSION, USER2).unwrap();
    let sub1 = manager.subscribe(SESSION, USER1).unwrap();
    let sub2 = manager.subscribe(SESSION, USER2).unwrap();

    manager
        .apply_operation(SESSION, insert_op("a", USER1, 0, 0, "x"))
        .unwrap();

    // the submitter's own subscriber receives nothing
    assert_eq!(manager.take_events(SESSION, sub1).unwrap().len(), 0);
    // the other participant receives exactly the applied operation
    let got = manager.take_events(SESSION, sub2).unwrap();
    assert_eq!(got.len(), 1);
    assert_eq!(got[0].version, 1);
}

#[test]
fn test_late_join_safety() {
    let mut manager = CollaborationManager::new();
    manager.create_session(SESSION, PROJECT, FILE).unwrap();
    manager.join_session(SESSION, USER1).unwrap();
    manager.join_session(SESSION, USER2).unwrap();

    manager
        .apply_operation(SESSION, insert_op("a", USER1, 0, 0, "x"))
        .unwrap();
    manager
        .apply_operation(SESSION, insert_op("b", USER1, 0, 1, "y"))
        .unwrap();

    // a subscriber attached at version 2 sees only later operations
    let late_sub = manager.subscribe(SESSION, USER2).unwrap();
    manager
        .apply_operation(SESSION, insert_op("c", USER1, 2, 2, "z"))
        .unwrap();
    let got = manager.take_events(SESSION, late_sub).unwrap();
    assert_eq!(got.len(), 1);
    assert_eq!(got[0].version, 3);

    // detect_conflicts at version 2 reports only versions >= 2
    let tail = manager.detect_conflicts(SESSION, 2).unwrap();
    assert_eq!(tail.len(), 2);
    assert!(tail.iter().all(|op| op.version >= 2));
}

#[test]
fn test_subscriber_lag_signal() {
    let mut manager = CollaborationManager::with_buffer_capacity(1);
    manager.create_session(SESSION, PROJECT, FILE).unwrap();
    manager.join_session(SESSION, USER1).unwrap();
    manager.join_session(SESSION, USER2).unwrap();
    let sub2 = manager.subscribe(SESSION, USER2).unwrap();

    manager
        .apply_operation(SESSION, insert_op("a", USER1, 0, 0, "x"))
        .unwrap();
    assert!(!manager.subscriber_lagged(SESSION, sub2).unwrap());
    // the buffer (capacity 1) is full: the next delivery marks the
    // subscriber lagged instead of silently dropping the operation
    manager
        .apply_operation(SESSION, insert_op("b", USER1, 0, 1, "y"))
        .unwrap();
    assert!(manager.subscriber_lagged(SESSION, sub2).unwrap());
    let got = manager.take_events(SESSION, sub2).unwrap();
    assert_eq!(got.len(), 1);
}

#[test]
fn test_close_session() {
    let mut manager = CollaborationManager::new();
    manager.create_session(SESSION, PROJECT, FILE).unwrap();
    assert!(manager.close_session(SESSION).is_ok());
    assert!(manager.get_version(SESSION).is_err());
    // closing an unknown session still succeeds
    assert!(manager.close_session(SESSION).is_ok());
}
