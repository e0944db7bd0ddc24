//! Operation model for collaborative text editing.
//!
//! A `DocumentOperation` is an immutable record of one text mutation:
//! an identity string (used as a deterministic tie-break), the document
//! version its author observed, the author, a timestamp used only to order
//! operations of equal version, and the mutation itself. Positions and
//! lengths count Unicode code points, so every offset the model speaks of
//! is a character offset into the document.

use vstd::prelude::*;

verus! {

/// One text mutation. Insert adds `content` at `position`; Delete removes
/// `length` characters starting at `position`; Replace inserts `new_content`
/// at `position` (the recorded `old_content` documents what the author
/// replaced).
#[derive(Debug, Clone)]
pub enum OperationType {
    Insert { position: usize, content: String },
    Delete { position: usize, length: usize },
    Replace { position: usize, old_content: String, new_content: String },
}

impl OperationType {
    /// Structural invariant of an operation, independent of any document:
    /// Insert carries text, Delete removes at least one character, Replace
    /// has at least one non-empty side.
    pub open spec fn well_formed(self) -> bool {
        match self {
            OperationType::Insert { position, content } => content@.len() > 0,
            OperationType::Delete { position, length } => length > 0,
            OperationType::Replace { position, old_content, new_content } => old_content@.len()
                > 0 || new_content@.len() > 0,
        }
    }

    /// Checks the structural invariant.
    pub fn is_well_formed(&self) -> (r: bool)
        ensures
            r == self.well_formed(),
    {
        match self {
            OperationType::Insert { position, content } => content.as_str().unicode_len() > 0,
            OperationType::Delete { position, length } => *length > 0,
            OperationType::Replace { position, old_content, new_content } => {
                old_content.as_str().unicode_len() > 0 || new_content.as_str().unicode_len() > 0
            },
        }
    }

    /// Deep copy whose value equals the original.
    pub fn duplicate(&self) -> (r: OperationType)
        ensures
            r == *self,
    {
        match self {
            OperationType::Insert { position, content } => OperationType::Insert {
                position: *position,
                content: content.clone(),
            },
            OperationType::Delete { position, length } => OperationType::Delete {
                position: *position,
                length: *length,
            },
            OperationType::Replace { position, old_content, new_content } => {
                OperationType::Replace {
                    position: *position,
                    old_content: old_content.clone(),
                    new_content: new_content.clone(),
                }
            },
        }
    }
}

/// An operation together with its identity, observed version, author and
/// timestamp (milliseconds; used only to order operations of equal version).
#[derive(Debug, Clone)]
pub struct DocumentOperation {
    pub id: String,
    pub version: u32,
    pub timestamp: i64,
    pub user_id: u128,
    pub operation: OperationType,
}

impl DocumentOperation {
    /// Deep copy whose value equals the original.
    pub fn duplicate(&self) -> (r: DocumentOperation)
        ensures
            r == *self,
    {
        DocumentOperation {
            id: self.id.clone(),
            version: self.version,
            timestamp: self.timestamp,
            user_id: self.user_id,
            operation: self.operation.duplicate(),
        }
    }
}

/// A participant's reported cursor: a caret position and an optional
/// selection range.
#[derive(Debug, Clone)]
pub struct CursorUpdate {
    pub user_id: u128,
    pub session_id: u128,
    pub cursor_position: i32,
    pub selection_start: Option<i32>,
    pub selection_end: Option<i32>,
}

/// The operations a client must reconcile against, as reported by conflict
/// detection.
#[derive(Debug, Clone)]
pub struct ConflictDetection {
    pub session_id: u128,
    pub conflicting_operations: Vec<DocumentOperation>,
    pub detected_at: i64,
}

/// Outcome of replaying a set of conflicting operations over a base
/// document.
#[derive(Debug)]
pub struct ConflictResolution {
    pub version: u32,
    pub resolved_content: String,
    pub conflicting_operations: Vec<DocumentOperation>,
    pub resolution_strategy: String,
}

/// Copies a list of operations element for element.
pub fn duplicate_ops(ops: &Vec<DocumentOperation>) -> (r: Vec<DocumentOperation>)
    ensures
        r@ == ops@,
{
    let mut r: Vec<DocumentOperation> = Vec::new();
    let mut i: usize = 0;
    while i < ops.len()
        invariant
            i <= ops@.len(),
            r@ == ops@.take(i as int),
        decreases ops@.len() - i,
    {
        r.push(ops[i].duplicate());
        proof {
            assert(r@ =~= ops@.take(i + 1 as int));
        }
        i = i + 1;
    }
    proof {
        assert(r@ =~= ops@);
    }
    r
}

} // verus!
