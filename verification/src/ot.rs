//! Operational-transformation kernel.
//!
//! Pure functions over operations and document text: `apply_operation`
//! materialises a mutation, `validate_operation` checks it against a
//! document length, `transform_against` adjusts one operation so that it
//! can be applied after a concurrent one with the effect its author
//! intended, and `transform` folds that adjustment over a whole sequence.
//!
//! Conventions, chosen once and kept consistently:
//! - positions count Unicode code points, and positions beyond the end of
//!   the document saturate to the end (callers validate first);
//! - an insert falling strictly inside a concurrently deleted range moves
//!   to the start of that range;
//! - a delete absorbs text inserted strictly inside its range;
//! - equal-position concurrent inserts are ordered by their operation ids;
//! - Replace takes part in transformation unchanged, and `apply` treats it
//!   as removing as many characters as its old text holds at the recorded
//!   position and inserting its new text there.
//!
//! The delete-absorbs-insert convention deserves a word. When a concurrent
//! insert lands strictly inside a range being deleted, no single surviving
//! delete can remove the two separated halves of the range around the
//! inserted text; something must give. Absorbing the insert keeps the
//! transformed delete contiguous, agrees with `apply` on any document, and
//! coincides with the unambiguous rules at both boundaries of the range
//! (an insert at the start shifts the delete, one at the end leaves it).
//! Trimming the length or shifting the position instead would leave part
//! of the author's range undeleted or delete text outside it.

use vstd::prelude::*;

use crate::ops::{ConflictDetection, ConflictResolution, DocumentOperation, OperationType};
use crate::strorder::{lemma_lex_le_transitive, lemma_lex_trichotomy, lex_le, lex_lt, str_eq_str,
    str_lt};
use crate::system;

verus! {

/// The smaller of two mathematical integers.
pub open spec fn imin(a: int, b: int) -> int {
    if a <= b {
        a
    } else {
        b
    }
}

/// The larger of two mathematical integers.
pub open spec fn imax(a: int, b: int) -> int {
    if a >= b {
        a
    } else {
        b
    }
}

/// Addition clamped at the machine word, mirroring the executable
/// saturating addition on positions.
pub open spec fn sat_add(a: int, b: int) -> int {
    if a + b > usize::MAX as int {
        usize::MAX as int
    } else {
        a + b
    }
}

/// Saturating addition on positions.
pub fn sat_add_usize(a: usize, b: usize) -> (r: usize)
    ensures
        r as int == sat_add(a as int, b as int),
{
    if a > usize::MAX - b {
        usize::MAX
    } else {
        a + b
    }
}

/// The document that results from one operation. Positions beyond the end
/// saturate to the end; a Delete — or the replaced span of a Replace —
/// reaching past the end is cut at the end. A Replace removes as many
/// characters as its `old_content` holds and puts `new_content` in their
/// place; what actually stood there is not re-checked.
pub open spec fn spec_apply(content: Seq<char>, op: OperationType) -> Seq<char> {
    match op {
        OperationType::Insert { position, content: text } => {
            let p = imin(position as int, content.len() as int);
            content.subrange(0, p) + text@ + content.subrange(p, content.len() as int)
        },
        OperationType::Delete { position, length } => {
            let s = imin(position as int, content.len() as int);
            let e = imin(s + length as int, content.len() as int);
            content.subrange(0, s) + content.subrange(e, content.len() as int)
        },
        OperationType::Replace { position, old_content, new_content } => {
            let p = imin(position as int, content.len() as int);
            let e = imin(p + old_content@.len(), content.len() as int);
            content.subrange(0, p) + new_content@ + content.subrange(e, content.len() as int)
        },
    }
}

/// Whether an operation is feasible on a document of the given length:
/// Insert within the document and non-empty; Delete inside the document
/// with a positive in-range length; Replace within the document with at
/// least one non-empty side.
pub open spec fn spec_validate(op: OperationType, content_length: int) -> bool {
    match op {
        OperationType::Insert { position, content } => position <= content_length && content@.len()
            > 0,
        OperationType::Delete { position, length } => position < content_length && length > 0
            && position + length <= content_length,
        OperationType::Replace { position, old_content, new_content } => position <= content_length
            && (old_content@.len() > 0 || new_content@.len() > 0),
    }
}

/// The reason `validate_operation` reports, checking the conditions in a
/// fixed order.
pub open spec fn spec_validate_error(op: OperationType, content_length: int) -> Seq<char> {
    match op {
        OperationType::Insert { position, content } => {
            if position > content_length {
                "Insert position exceeds content length"@
            } else {
                "Insert content cannot be empty"@
            }
        },
        OperationType::Delete { position, length } => {
            if position >= content_length {
                "Delete position exceeds content length"@
            } else if length == 0 {
                "Delete length must be greater than 0"@
            } else {
                "Delete range exceeds content length"@
            }
        },
        OperationType::Replace { position, old_content, new_content } => {
            if position > content_length {
                "Replace position exceeds content length"@
            } else {
                "Replace must have non-empty old or new content"@
            }
        },
    }
}

/// `a`'s mutation adjusted so that applying it after `b` keeps `a`'s
/// intent; `aid` and `bid` break ties between equal-position inserts.
pub open spec fn spec_transform_op(
    aop: OperationType,
    bop: OperationType,
    aid: Seq<char>,
    bid: Seq<char>,
) -> OperationType {
    match (aop, bop) {
        (
            OperationType::Insert { position: pa, content: ca },
            OperationType::Insert { position: pb, content: cb },
        ) => {
            let np = if pb < pa {
                sat_add(pa as int, cb@.len() as int)
            } else if pb == pa {
                if lex_lt(aid, bid) {
                    pa as int
                } else {
                    sat_add(pa as int, cb@.len() as int)
                }
            } else {
                pa as int
            };
            OperationType::Insert { position: np as usize, content: ca }
        },
        (
            OperationType::Insert { position: pa, content: ca },
            OperationType::Delete { position: pb, length: lb },
        ) => {
            let np = if pb >= pa {
                pa as int
            } else if pb + lb <= pa {
                pa - lb
            } else {
                pb as int
            };
            OperationType::Insert { position: np as usize, content: ca }
        },
        (
            OperationType::Delete { position: pa, length: la },
            OperationType::Insert { position: pb, content: cb },
        ) => {
            if pb <= pa {
                OperationType::Delete {
                    position: sat_add(pa as int, cb@.len() as int) as usize,
                    length: la,
                }
            } else if pb >= pa + la {
                OperationType::Delete { position: pa, length: la }
            } else {
                OperationType::Delete {
                    position: pa,
                    length: sat_add(la as int, cb@.len() as int) as usize,
                }
            }
        },
        (
            OperationType::Delete { position: pa, length: la },
            OperationType::Delete { position: pb, length: lb },
        ) => {
            let shift = if pb < pa {
                imin(pb + lb, pa as int) - pb
            } else {
                0
            };
            let overlap = imax(0, imin(pa + la, pb + lb) - imax(pa as int, pb as int));
            OperationType::Delete { position: (pa - shift) as usize, length: (la - overlap) as usize }
        },
        _ => aop,
    }
}

/// The whole record transformed: the mutation is adjusted, identity and
/// metadata stay.
pub open spec fn spec_transform_against(a: DocumentOperation, b: DocumentOperation) -> DocumentOperation {
    DocumentOperation { operation: spec_transform_op(a.operation, b.operation, a.id@, b.id@), ..a }
}

/// `transform_against` folded over a sequence of concurrent operations, in
/// order.
pub open spec fn spec_transform_fold(op: DocumentOperation, ops: Seq<DocumentOperation>) -> DocumentOperation
    decreases ops.len(),
{
    if ops.len() == 0 {
        op
    } else {
        spec_transform_fold(spec_transform_against(op, ops[0]), ops.skip(1))
    }
}

/// Folding the transformation changes only the mutation: identity,
/// version, author and timestamp ride along unchanged.
pub proof fn lemma_transform_fold_metadata(op: DocumentOperation, ops: Seq<DocumentOperation>)
    ensures
        spec_transform_fold(op, ops).id == op.id,
        spec_transform_fold(op, ops).version == op.version,
        spec_transform_fold(op, ops).timestamp == op.timestamp,
        spec_transform_fold(op, ops).user_id == op.user_id,
    decreases ops.len(),
{
    if ops.len() > 0 {
        lemma_transform_fold_metadata(spec_transform_against(op, ops[0]), ops.skip(1));
    }
}

/// The predicate "this operation's version is at least `v`".
pub open spec fn version_at_or_after(v: u32) -> spec_fn(DocumentOperation) -> bool {
    |op: DocumentOperation| op.version >= v
}

/// The operations of `ops` whose version is at least `v`, in order.
pub open spec fn ops_at_or_after(ops: Seq<DocumentOperation>, v: u32) -> Seq<DocumentOperation> {
    ops.filter(version_at_or_after(v))
}

/// Operational-transformation engine: pure functions, no I/O, no state.
pub struct OTEngine;

impl OTEngine {
    /// Applies one operation to the document and returns the new document.
    pub fn apply_operation(content: &str, op: &DocumentOperation) -> (r: String)
        ensures
            r@ == spec_apply(content@, op.operation),
    {
        let n = content.unicode_len();
        match &op.operation {
            OperationType::Insert { position, content: text } => {
                let p = if *position > n {
                    n
                } else {
                    *position
                };
                let head = content.substring_char(0, p);
                let tail = content.substring_char(p, n);
                let mut r = head.to_owned();
                r.append(text.as_str());
                r.append(tail);
                proof {
                    assert(r@ =~= spec_apply(content@, op.operation));
                }
                r
            },
            OperationType::Delete { position, length } => {
                let s = if *position > n {
                    n
                } else {
                    *position
                };
                let e = if *length > n - s {
                    n
                } else {
                    s + *length
                };
                let head = content.substring_char(0, s);
                let tail = content.substring_char(e, n);
                let mut r = head.to_owned();
                r.append(tail);
                proof {
                    assert(r@ =~= spec_apply(content@, op.operation));
                }
                r
            },
            OperationType::Replace { position, old_content, new_content } => {
                let p = if *position > n {
                    n
                } else {
                    *position
                };
                let old_len = old_content.as_str().unicode_len();
                let e = if old_len > n - p {
                    n
                } else {
                    p + old_len
                };
                let head = content.substring_char(0, p);
                let tail = content.substring_char(e, n);
                let mut r = head.to_owned();
                r.append(new_content.as_str());
                r.append(tail);
                proof {
                    assert(r@ =~= spec_apply(content@, op.operation));
                }
                r
            },
        }
    }

    /// Checks an operation against a document length. Returns `Ok` exactly
    /// when the operation is feasible, and otherwise the reason for the
    /// first failing check.
    pub fn validate_operation(op: &DocumentOperation, content_length: usize) -> (r: Result<
        (),
        String,
    >)
        ensures
            r.is_ok() == spec_validate(op.operation, content_length as int),
            r matches Err(m) ==> m@ == spec_validate_error(op.operation, content_length as int),
    {
        match &op.operation {
            OperationType::Insert { position, content } => {
                if *position > content_length {
                    Err(String::from_str("Insert position exceeds content length"))
                } else if content.as_str().unicode_len() == 0 {
                    Err(String::from_str("Insert content cannot be empty"))
                } else {
                    Ok(())
                }
            },
            OperationType::Delete { position, length } => {
                if *position >= content_length {
                    Err(String::from_str("Delete position exceeds content length"))
                } else if *length == 0 {
                    Err(String::from_str("Delete length must be greater than 0"))
                } else if *length > content_length - *position {
                    Err(String::from_str("Delete range exceeds content length"))
                } else {
                    Ok(())
                }
            },
            OperationType::Replace { position, old_content, new_content } => {
                if *position > content_length {
                    Err(String::from_str("Replace position exceeds content length"))
                } else if old_content.as_str().unicode_len() == 0 && new_content.as_str().unicode_len()
                    == 0 {
                    Err(String::from_str("Replace must have non-empty old or new content"))
                } else {
                    Ok(())
                }
            },
        }
    }

    /// Transforms `base_op` against one concurrent `other_op`.
    pub fn transform_against(base_op: &DocumentOperation, other_op: &DocumentOperation) -> (r:
        DocumentOperation)
        ensures
            r == spec_transform_against(*base_op, *other_op),
    {
        let new_operation: OperationType = match (&base_op.operation, &other_op.operation) {
            (
                OperationType::Insert { position: pa, content: ca },
                OperationType::Insert { position: pb, content: cb },
            ) => {
                let np = if *pb < *pa {
                    sat_add_usize(*pa, cb.as_str().unicode_len())
                } else if *pb == *pa {
                    if str_lt(base_op.id.as_str(), other_op.id.as_str()) {
                        *pa
                    } else {
                        sat_add_usize(*pa, cb.as_str().unicode_len())
                    }
                } else {
                    *pa
                };
                OperationType::Insert { position: np, content: ca.clone() }
            },
            (
                OperationType::Insert { position: pa, content: ca },
                OperationType::Delete { position: pb, length: lb },
            ) => {
                let np = if *pb >= *pa {
                    *pa
                } else if *lb <= *pa - *pb {
                    *pa - *lb
                } else {
                    *pb
                };
                OperationType::Insert { position: np, content: ca.clone() }
            },
            (
                OperationType::Delete { position: pa, length: la },
                OperationType::Insert { position: pb, content: cb },
            ) => {
                if *pb <= *pa {
                    OperationType::Delete {
                        position: sat_add_usize(*pa, cb.as_str().unicode_len()),
                        length: *la,
                    }
                } else if *pb - *pa >= *la {
                    OperationType::Delete { position: *pa, length: *la }
                } else {
                    OperationType::Delete {
                        position: *pa,
                        length: sat_add_usize(*la, cb.as_str().unicode_len()),
                    }
                }
            },
            (
                OperationType::Delete { position: pa, length: la },
                OperationType::Delete { position: pb, length: lb },
            ) => {
                let (np, nl): (usize, usize) = if *pb < *pa {
                    let before = *pa - *pb;
                    if *lb <= before {
                        // b lies entirely before a: shift left, keep length
                        (*pa - *lb, *la)
                    } else {
                        // b covers a's start: a moves to b's start and loses
                        // the covered prefix
                        let rem = *lb - before;
                        let ov = if rem < *la {
                            rem
                        } else {
                            *la
                        };
                        (*pb, *la - ov)
                    }
                } else {
                    if *pb - *pa >= *la {
                        // b lies at or after a's end: unchanged
                        (*pa, *la)
                    } else {
                        // b starts inside a: a loses the overlap
                        let off = *pb - *pa;
                        let rest = *la - off;
                        let ov = if *lb < rest {
                            *lb
                        } else {
                            rest
                        };
                        (*pa, *la - ov)
                    }
                };
                OperationType::Delete { position: np, length: nl }
            },
            _ => base_op.operation.duplicate(),
        };
        DocumentOperation {
            id: base_op.id.clone(),
            version: base_op.version,
            timestamp: base_op.timestamp,
            user_id: base_op.user_id,
            operation: new_operation,
        }
    }

    /// Transforms a client operation against every concurrent server
    /// operation, in order.
    pub fn transform(client_op: &DocumentOperation, server_ops: &Vec<DocumentOperation>) -> (r:
        DocumentOperation)
        ensures
            r == spec_transform_fold(*client_op, server_ops@),
    {
        let mut transformed = client_op.duplicate();
        proof {
            assert(server_ops@.skip(0) =~= server_ops@);
        }
        let mut i: usize = 0;
        while i < server_ops.len()
            invariant
                0 <= i <= server_ops@.len(),
                spec_transform_fold(*client_op, server_ops@) == spec_transform_fold(
                    transformed,
                    server_ops@.skip(i as int),
                ),
            decreases server_ops@.len() - i,
        {
            proof {
                assert(server_ops@.skip(i as int)[0] == server_ops@[i as int]);
                assert(server_ops@.skip(i as int).skip(1) =~= server_ops@.skip(i as int + 1));
            }
            transformed = Self::transform_against(&transformed, &server_ops[i]);
            i = i + 1;
        }
        proof {
            assert(server_ops@.skip(server_ops@.len() as int).len() == 0);
        }
        transformed
    }

    /// Reports the operations a client at `client_version` has not seen.
    /// Returns `None` exactly when no listed operation has a version at or
    /// after the client's. The returned record carries a fresh identifier
    /// and the current time, about which nothing further is stated.
    pub fn detect_conflicts(client_version: u32, server_ops: &Vec<DocumentOperation>) -> (r: Option<
        ConflictDetection,
    >)
        ensures
            match r {
                Some(cd) => cd.conflicting_operations@ == ops_at_or_after(
                    server_ops@,
                    client_version,
                ) && cd.conflicting_operations@.len() > 0,
                None => ops_at_or_after(server_ops@, client_version).len() == 0,
            },
    {
        let conflicts = Self::select_at_or_after(server_ops, client_version);
        if conflicts.len() == 0 {
            None
        } else {
            Some(
                ConflictDetection {
                    session_id: system::fresh_id128(),
                    conflicting_operations: conflicts,
                    detected_at: system::now_millis(),
                },
            )
        }
    }

    /// Copies out the operations whose version is at least `v`, in order.
    pub fn select_at_or_after(ops: &Vec<DocumentOperation>, v: u32) -> (r: Vec<DocumentOperation>)
        ensures
            r@ == ops_at_or_after(ops@, v),
    {
        let ghost pred = version_at_or_after(v);
        let mut r: Vec<DocumentOperation> = Vec::new();
        let mut i: usize = 0;
        proof {
            reveal(Seq::filter);
            assert(ops@.take(0).filter(pred) =~= Seq::<DocumentOperation>::empty());
        }
        while i < ops.len()
            invariant
                0 <= i <= ops@.len(),
                pred == version_at_or_after(v),
                r@ == ops@.take(i as int).filter(pred),
            decreases ops@.len() - i,
        {
            proof {
                reveal(Seq::filter);
                let t1 = ops@.take(i as int + 1);
                assert(t1.drop_last() =~= ops@.take(i as int));
                assert(t1.last() == ops@[i as int]);
                assert(t1.filter(pred) == if pred(t1.last()) {
                    t1.drop_last().filter(pred).push(t1.last())
                } else {
                    t1.drop_last().filter(pred)
                });
            }
            if ops[i].version >= v {
                r.push(ops[i].duplicate());
            }
            i = i + 1;
        }
        proof {
            assert(ops@.take(ops@.len() as int) =~= ops@);
        }
        r
    }
}


/// Replay order: by version, then timestamp, then operation id.
pub open spec fn op_le(x: DocumentOperation, y: DocumentOperation) -> bool {
    x.version < y.version || (x.version == y.version && (x.timestamp < y.timestamp || (
    x.timestamp == y.timestamp && lex_le(x.id@, y.id@))))
}

/// Non-decreasing in replay order.
pub open spec fn ops_sorted(s: Seq<DocumentOperation>) -> bool {
    forall|i: int, j: int| 0 <= i < j < s.len() ==> op_le(#[trigger] s[i], #[trigger] s[j])
}

/// The replay order relates any two operations.
proof fn lemma_op_le_total(x: DocumentOperation, y: DocumentOperation)
    ensures
        op_le(x, y) || op_le(y, x),
{
    lemma_lex_trichotomy(x.id@, y.id@);
}

/// The replay order is transitive.
proof fn lemma_op_le_trans(x: DocumentOperation, y: DocumentOperation, z: DocumentOperation)
    requires
        op_le(x, y),
        op_le(y, z),
    ensures
        op_le(x, z),
{
    if x.version == y.version && y.version == z.version && x.timestamp == y.timestamp
        && y.timestamp == z.timestamp {
        lemma_lex_le_transitive(x.id@, y.id@, z.id@);
    }
}

/// Compares two operations in replay order.
fn op_le_exec(x: &DocumentOperation, y: &DocumentOperation) -> (r: bool)
    ensures
        r == op_le(*x, *y),
{
    if x.version < y.version {
        true
    } else if x.version == y.version {
        if x.timestamp < y.timestamp {
            true
        } else if x.timestamp == y.timestamp {
            str_lt(x.id.as_str(), y.id.as_str()) || str_eq_str(x.id.as_str(), y.id.as_str())
        } else {
            false
        }
    } else {
        false
    }
}

/// Inserting an element anywhere adds exactly it to the multiset.
proof fn lemma_to_multiset_insert(s: Seq<DocumentOperation>, i: int, v: DocumentOperation)
    requires
        0 <= i <= s.len(),
    ensures
        s.insert(i, v).to_multiset() =~= s.to_multiset().insert(v),
{
    broadcast use vstd::seq_lib::group_to_multiset_ensures;
    broadcast use vstd::multiset::group_multiset_axioms;

    assert(s.insert(i, v) =~= s.take(i).push(v) + s.skip(i));
    assert(s =~= s.take(i) + s.skip(i));
    vstd::seq_lib::lemma_multiset_commutative(s.take(i).push(v), s.skip(i));
    vstd::seq_lib::lemma_multiset_commutative(s.take(i), s.skip(i));
    assert(s.take(i).push(v).to_multiset() =~= s.take(i).to_multiset().insert(v));
}

/// The document after replaying a sequence of operations in order.
pub open spec fn spec_apply_fold(content: Seq<char>, ops: Seq<DocumentOperation>) -> Seq<char>
    decreases ops.len(),
{
    if ops.len() == 0 {
        content
    } else {
        spec_apply_fold(spec_apply(content, ops[0].operation), ops.skip(1))
    }
}

/// The largest version among the operations; zero when there are none.
pub open spec fn spec_max_version(ops: Seq<DocumentOperation>) -> u32
    decreases ops.len(),
{
    if ops.len() == 0 {
        0u32
    } else {
        let m = spec_max_version(ops.drop_last());
        if ops.last().version > m {
            ops.last().version
        } else {
            m
        }
    }
}

impl OTEngine {
    /// Copies the operations into replay order: sorted by version,
    /// timestamp and id, with exactly the same operations.
    pub fn sort_operations(ops: &Vec<DocumentOperation>) -> (r: Vec<DocumentOperation>)
        ensures
            ops_sorted(r@),
            r@.to_multiset() == ops@.to_multiset(),
    {
        broadcast use vstd::seq_lib::group_to_multiset_ensures;

        let mut r: Vec<DocumentOperation> = Vec::new();
        let mut i: usize = 0;
        proof {
            assert(ops@.take(0) =~= Seq::<DocumentOperation>::empty());
            assert(r@ =~= Seq::<DocumentOperation>::empty());
        }
        while i < ops.len()
            invariant
                0 <= i <= ops@.len(),
                ops_sorted(r@),
                r@.to_multiset() == ops@.take(i as int).to_multiset(),
            decreases ops@.len() - i,
        {
            let v = ops[i].duplicate();
            let ghost prev = r@;
            let mut j: usize = 0;
            while j < r.len() && op_le_exec(&r[j], &v)
                invariant
                    0 <= j <= r@.len(),
                    r@ == prev,
                    forall|k: int| 0 <= k < j ==> op_le(#[trigger] r@[k], v),
                decreases r@.len() - j,
            {
                j = j + 1;
            }
            proof {
                if (j as int) < prev.len() {
                    lemma_op_le_total(prev[j as int], v);
                    assert(op_le(v, prev[j as int]));
                }
            }
            r.insert(j, v);
            proof {
                let newr = r@;
                assert(newr == prev.insert(j as int, v));
                assert forall|p: int, q: int| 0 <= p < q < newr.len() implies op_le(
                    #[trigger] newr[p],
                    #[trigger] newr[q],
                ) by {
                    let jj = j as int;
                    if q < jj {
                        assert(newr[p] == prev[p] && newr[q] == prev[q]);
                    } else if p < jj && q == jj {
                        assert(newr[p] == prev[p]);
                    } else if p < jj && q > jj {
                        assert(newr[p] == prev[p] && newr[q] == prev[q - 1]);
                        if q - 1 == jj {
                            // prev[q - 1] is right of the scan point
                            lemma_op_le_trans(newr[p], v, prev[jj]);
                        }
                    } else if p == jj && q > jj {
                        assert(newr[q] == prev[q - 1]);
                        if q - 1 > jj {
                            lemma_op_le_trans(v, prev[jj], prev[q - 1]);
                        }
                    } else {
                        assert(p > jj && q > jj);
                        assert(newr[p] == prev[p - 1] && newr[q] == prev[q - 1]);
                    }
                }
                lemma_to_multiset_insert(prev, j as int, v);
                ops@.take(i as int).to_multiset_ensures();
                assert(ops@.take(i as int + 1) =~= ops@.take(i as int).push(ops@[i as int]));
                assert(ops@.take(i as int).push(ops@[i as int]).to_multiset() =~= ops@.take(
                    i as int,
                ).to_multiset().insert(ops@[i as int]));
            }
            i = i + 1;
        }
        proof {
            assert(ops@.take(ops@.len() as int) =~= ops@);
        }
        r
    }

    /// Replays conflicting operations over a base document: the operations
    /// are put into replay order and applied one after another, and the
    /// resulting version is one past the largest version seen.
    pub fn resolve_conflicts(original_content: &str, conflicting_ops: &Vec<DocumentOperation>) -> (r:
        ConflictResolution)
        requires
            spec_max_version(conflicting_ops@) < u32::MAX,
        ensures
            ops_sorted(r.conflicting_operations@),
            r.conflicting_operations@.to_multiset() == conflicting_ops@.to_multiset(),
            r.resolved_content@ == spec_apply_fold(original_content@, r.conflicting_operations@),
            r.version == spec_max_version(conflicting_ops@) + 1,
            r.resolution_strategy@ == "operational_transformation"@,
    {
        let sorted = Self::sort_operations(conflicting_ops);
        let mut resolved = original_content.to_owned();
        let mut k: usize = 0;
        proof {
            assert(sorted@.skip(0) =~= sorted@);
        }
        while k < sorted.len()
            invariant
                0 <= k <= sorted@.len(),
                spec_apply_fold(original_content@, sorted@) == spec_apply_fold(
                    resolved@,
                    sorted@.skip(k as int),
                ),
            decreases sorted@.len() - k,
        {
            proof {
                assert(sorted@.skip(k as int)[0] == sorted@[k as int]);
                assert(sorted@.skip(k as int).skip(1) =~= sorted@.skip(k as int + 1));
            }
            resolved = Self::apply_operation(resolved.as_str(), &sorted[k]);
            k = k + 1;
        }
        proof {
            assert(sorted@.skip(sorted@.len() as int).len() == 0);
        }
        let mut maxv: u32 = 0;
        let mut m: usize = 0;
        proof {
            assert(conflicting_ops@.take(0) =~= Seq::<DocumentOperation>::empty());
        }
        while m < conflicting_ops.len()
            invariant
                0 <= m <= conflicting_ops@.len(),
                maxv == spec_max_version(conflicting_ops@.take(m as int)),
                maxv <= spec_max_version(conflicting_ops@),
            decreases conflicting_ops@.len() - m,
        {
            proof {
                assert(conflicting_ops@.take(m as int + 1).drop_last() =~= conflicting_ops@.take(
                    m as int,
                ));
                assert(conflicting_ops@.take(m as int + 1).last() == conflicting_ops@[m as int]);
                lemma_max_version_take_le(conflicting_ops@, m as int + 1);
            }
            if conflicting_ops[m].version > maxv {
                maxv = conflicting_ops[m].version;
            }
            m = m + 1;
        }
        proof {
            assert(conflicting_ops@.take(conflicting_ops@.len() as int) =~= conflicting_ops@);
        }
        ConflictResolution {
            version: maxv + 1,
            resolved_content: resolved,
            conflicting_operations: sorted,
            resolution_strategy: String::from_str("operational_transformation"),
        }
    }
}

/// The maximum over a prefix never exceeds the maximum over the whole.
proof fn lemma_max_version_take_le(ops: Seq<DocumentOperation>, m: int)
    requires
        0 <= m <= ops.len(),
    ensures
        spec_max_version(ops.take(m)) <= spec_max_version(ops),
    decreases ops.len() - m,
{
    if m == ops.len() {
        assert(ops.take(m) =~= ops);
    } else {
        lemma_max_version_take_le(ops, m + 1);
        assert(ops.take(m + 1).drop_last() =~= ops.take(m));
    }
}

} // verus!
