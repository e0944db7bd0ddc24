use collab_core::ops::{DocumentOperation, OperationType};
use collab_core::ot::OTEngine;

fn make_insert_op_with(id: &str, pos: usize, content: &str) -> DocumentOperation {
    DocumentOperation {
        id: id.to_string(),
        version: 1,
        timestamp: 1_700_000_000_000,
        user_id: 11,
        operation: OperationType::Insert {
            position: pos,
            content: content.to_string(),
        },
    }
}

fn make_delete_op_with(id: &str, pos: usize, len: usize) -> DocumentOperation {
    DocumentOperation {
        id: id.to_string(),
        version: 1,
        timestamp: 1_700_000_000_000,
        user_id: 12,
        operation: OperationType::Delete {
            position: pos,
            length: len,
        },
    }
}

#[test]
fn test_insert_insert_transform() {
    let op1 = make_insert_op_with("a", 5, "hello");
    let op2 = make_insert_op_with("b", 3, "world");

    let result = OTEngine::transform_against(&op1, &op2);

    if let OperationType::Insert { position, .. } = result.operation {
        assert_eq!(position, 10); // 5 + "world".len()
    } else {
        panic!("Expected Insert operation");
    }
}

#[test]
fn test_insert_delete_transform() {
    let op1 = make_insert_op_with("a", 5, "test");
    let op2 = make_delete_op_with("b", 2, 3);

    let result = OTEngine::transform_against(&op1, &op2);

    if let OperationType::Insert { position, .. } = result.operation {
        assert_eq!(position, 2); // 5 - 3
    } else {
        panic!("Expected Insert operation");
    }
}

#[test]
fn test_operation_validation() {
    let valid_insert = make_insert_op_with("a", 5, "test");
    assert!(OTEngine::validate_operation(&valid_insert, 20).is_ok());

    let invalid_insert = make_insert_op_with("a", 25, "test");
    assert!(OTEngine::validate_operation(&invalid_insert, 20).is_err());

    let valid_delete = make_delete_op_with("b", 5, 3);
    assert!(OTEngine::validate_operation(&valid_delete, 20).is_ok());

    let invalid_delete = make_delete_op_with("b", 15, 10);
    assert!(OTEngine::validate_operation(&invalid_delete, 20).is_err());
}

#[test]
fn test_apply_operations() {
    let content = "hello world";

    let insert = make_insert_op_with("a", 5, "!");
    let result = OTEngine::apply_operation(content, &insert);
    assert_eq!(result, "hello! world");

    let delete = make_delete_op_with("b", 5, 6);
    let result = OTEngine::apply_operation(content, &delete);
    assert_eq!(result, "hello");
}

#[test]
fn test_replace_apply() {
    // Replace removes the span its old text covers and inserts the new
    // text in its place.
    let rep = DocumentOperation {
        id: "r".to_string(),
        version: 1,
        timestamp: 0,
        user_id: 1,
        operation: OperationType::Replace {
            position: 0,
            old_content: "a".to_string(),
            new_content: "X".to_string(),
        },
    };
    assert_eq!(OTEngine::apply_operation("ab", &rep), "Xb");

    // a replaced span reaching past the end is cut at the end
    let rep2 = DocumentOperation {
        id: "r2".to_string(),
        version: 1,
        timestamp: 0,
        user_id: 1,
        operation: OperationType::Replace {
            position: 1,
            old_content: "bcd".to_string(),
            new_content: "Z".to_string(),
        },
    };
    assert_eq!(OTEngine::apply_operation("ab", &rep2), "aZ");
}

#[test]
fn test_validation_edges() {
    // Insert just past the end is allowed; one further is rejected.
    let at_end = make_insert_op_with("a", 11, "x");
    assert!(OTEngine::validate_operation(&at_end, 11).is_ok());
    let past_end = make_insert_op_with("a", 12, "x");
    assert!(OTEngine::validate_operation(&past_end, 11).is_err());

    // Delete starting at the length is rejected.
    let del_at_len = make_delete_op_with("b", 11, 1);
    assert!(OTEngine::validate_operation(&del_at_len, 11).is_err());

    // Zero-length delete is rejected.
    let del_zero = make_delete_op_with("b", 0, 0);
    assert!(OTEngine::validate_operation(&del_zero, 11).is_err());

    // Empty insert is rejected.
    let ins_empty = make_insert_op_with("a", 0, "");
    assert!(OTEngine::validate_operation(&ins_empty, 11).is_err());

    // Replace with both sides empty is rejected.
    let rep = DocumentOperation {
        id: "r".to_string(),
        version: 1,
        timestamp: 0,
        user_id: 1,
        operation: OperationType::Replace {
            position: 0,
            old_content: "".to_string(),
            new_content: "".to_string(),
        },
    };
    assert!(OTEngine::validate_operation(&rep, 11).is_err());
}

#[test]
fn test_apply_length_changes() {
    // A valid insert grows the document by the inserted length, a valid
    // delete shrinks it by the deleted length.
    let content = "abcdef";
    let ins = make_insert_op_with("a", 3, "XYZ");
    assert_eq!(OTEngine::apply_operation(content, &ins).len(), 6 + 3);
    let del = make_delete_op_with("b", 2, 2);
    assert_eq!(OTEngine::apply_operation(content, &del).len(), 6 - 2);
}

#[test]
fn test_transform_determinism() {
    let a = make_insert_op_with("a", 4, "foo");
    let b = make_delete_op_with("b", 1, 2);
    let r1 = OTEngine::transform_against(&a, &b);
    let r2 = OTEngine::transform_against(&a, &b);
    if let (OperationType::Insert { position: p1, content: c1 },
            OperationType::Insert { position: p2, content: c2 }) = (&r1.operation, &r2.operation) {
        assert_eq!(p1, p2);
        assert_eq!(c1, c2);
    } else {
        panic!("Expected Insert operations");
    }
    assert_eq!(r1.id, r2.id);
    assert_eq!(r1.version, r2.version);
}

#[test]
fn test_convergence_concrete() {
    // Both application orders give the same document.
    let s = "ab";
    let a = make_insert_op_with("a", 2, "X");
    let b = make_insert_op_with("b", 1, "Y");

    let a_after_b = OTEngine::transform_against(&a, &b);
    let b_after_a = OTEngine::transform_against(&b, &a);

    let left = OTEngine::apply_operation(&OTEngine::apply_operation(s, &a), &b_after_a);
    let right = OTEngine::apply_operation(&OTEngine::apply_operation(s, &b), &a_after_b);
    assert_eq!(left, right);
    assert_eq!(left, "aYbX");
}

#[test]
fn test_delete_insert_overlap_policy() {
    // An insert strictly inside a deleted range collapses to the start of
    // that range.
    let del = make_delete_op_with("d", 6, 5);
    let ins = make_insert_op_with("i", 8, "!");
    let ins2 = OTEngine::transform_against(&ins, &del);
    if let OperationType::Insert { position, .. } = ins2.operation {
        assert_eq!(position, 6);
    } else {
        panic!("Expected Insert operation");
    }
    let after_delete = OTEngine::apply_operation("hello world", &del);
    assert_eq!(after_delete, "hello ");
    let after_both = OTEngine::apply_operation(&after_delete, &ins2);
    assert_eq!(after_both, "hello !");
    assert_eq!(after_both.len(), 7);
}

#[test]
fn test_detect_conflicts_filtering() {
    let mut op1 = make_insert_op_with("a", 0, "x");
    op1.version = 1;
    let mut op2 = make_insert_op_with("b", 1, "y");
    op2.version = 2;
    let server_ops = vec![op1, op2];

    let hit = OTEngine::detect_conflicts(2, &server_ops);
    let cd = hit.expect("version 2 conflicts with the second op");
    assert_eq!(cd.conflicting_operations.len(), 1);
    assert_eq!(cd.conflicting_operations[0].version, 2);

    assert!(OTEngine::detect_conflicts(3, &server_ops).is_none());
}

#[test]
fn test_resolve_conflicts_order_and_content() {
    let mut late = make_insert_op_with("a", 0, "B");
    late.version = 2;
    late.timestamp = 20;
    let mut early = make_insert_op_with("b", 0, "A");
    early.version = 1;
    early.timestamp = 10;
    let ops = vec![late, early];

    let res = OTEngine::resolve_conflicts("ab", &ops);
    assert_eq!(res.version, 3); // max version + 1
    assert_eq!(res.resolution_strategy, "operational_transformation");
    assert_eq!(res.conflicting_operations[0].version, 1);
    assert_eq!(res.conflicting_operations[1].version, 2);
    // "ab" -> insert "A" at 0 -> "Aab" -> insert "B" at 0 -> "BAab"
    assert_eq!(res.resolved_content, "BAab");
}
