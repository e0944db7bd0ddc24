//! Laws of the transformation kernel.
//!
//! `lemma_apply_insert_length` and `lemma_apply_delete_length` state how
//! applying a valid operation changes the document length.
//! `lemma_transform_convergence` states the convergence property for
//! concurrent Insert/Delete pairs: applying `a` and then `b` transformed
//! against `a` yields the same document as applying `b` and then `a`
//! transformed against `b`. The property holds for every pair except an
//! insert falling strictly inside a concurrent delete, where a single
//! surviving operation cannot both keep the inserted text and remove the
//! two separated halves of the deleted range.

use vstd::prelude::*;

use crate::ops::{DocumentOperation, OperationType};
use crate::ot::{imax, imin, sat_add, spec_apply, spec_transform_against, spec_transform_op,
    spec_validate};
use crate::strorder::{lemma_lex_trichotomy, lex_lt};

verus! {

/// Length of the text an Insert carries; zero for the other kinds.
pub open spec fn ins_len(op: OperationType) -> int {
    match op {
        OperationType::Insert { position, content } => content@.len() as int,
        _ => 0,
    }
}

/// `a` is an Insert landing strictly inside the range `b` deletes. For
/// such a pair the two operations' intents cannot both be kept by single
/// surviving operations, so convergence is not promised.
pub open spec fn insert_strictly_inside_delete(a: OperationType, b: OperationType) -> bool {
    match (a, b) {
        (
            OperationType::Insert { position: pa, content: ca },
            OperationType::Delete { position: pb, length: lb },
        ) => pb < pa && pa < pb + lb,
        _ => false,
    }
}

/// Both operations insert at the same position.
pub open spec fn inserts_at_same_position(a: OperationType, b: OperationType) -> bool {
    match (a, b) {
        (
            OperationType::Insert { position: pa, content: ca },
            OperationType::Insert { position: pb, content: cb },
        ) => pa == pb,
        _ => false,
    }
}

/// Applying a valid Insert grows the document by the inserted length.
pub proof fn lemma_apply_insert_length(s: Seq<char>, position: usize, text: String)
    requires
        position <= s.len(),
    ensures
        spec_apply(s, OperationType::Insert { position, content: text }).len() == s.len()
            + text@.len(),
{
}

/// Applying a valid Delete shrinks the document by the deleted length.
pub proof fn lemma_apply_delete_length(s: Seq<char>, position: usize, length: usize)
    requires
        position + length <= s.len(),
    ensures
        spec_apply(s, OperationType::Delete { position, length }).len() == s.len() - length,
{
}

/// Transformation is deterministic: it is a function of its arguments, so
/// equal inputs give equal outputs.
pub proof fn lemma_transform_deterministic(
    a1: DocumentOperation,
    b1: DocumentOperation,
    a2: DocumentOperation,
    b2: DocumentOperation,
)
    requires
        a1 == a2,
        b1 == b2,
    ensures
        spec_transform_against(a1, b1) == spec_transform_against(a2, b2),
{
}

/// Convergence for two concurrent Inserts.
proof fn lemma_conv_insert_insert(s: Seq<char>, a: DocumentOperation, b: DocumentOperation)
    requires
        a.operation matches OperationType::Insert { .. },
        b.operation matches OperationType::Insert { .. },
        spec_validate(a.operation, s.len() as int),
        spec_validate(b.operation, s.len() as int),
        inserts_at_same_position(a.operation, b.operation) ==> a.id@ != b.id@,
        s.len() + ins_len(a.operation) + ins_len(b.operation) <= usize::MAX as int,
    ensures
        spec_apply(spec_apply(s, a.operation), spec_transform_against(b, a).operation)
            == spec_apply(spec_apply(s, b.operation), spec_transform_against(a, b).operation),
{
    match (a.operation, b.operation) {
        (
            OperationType::Insert { position: pa, content: ca },
            OperationType::Insert { position: pb, content: cb },
        ) => {
            let n = s.len() as int;
            let pai = pa as int;
            let pbi = pb as int;
            let la = ca@.len() as int;
            let lb = cb@.len() as int;
            let lhs = spec_apply(spec_apply(s, a.operation), spec_transform_against(b, a).operation);
            let rhs = spec_apply(spec_apply(s, b.operation), spec_transform_against(a, b).operation);
            if pbi < pai {
                let target = s.subrange(0, pbi) + cb@ + s.subrange(pbi, pai) + ca@ + s.subrange(
                    pai,
                    n,
                );
                assert(lhs =~= target);
                assert(rhs =~= target);
            } else if pbi == pai {
                lemma_lex_trichotomy(a.id@, b.id@);
                if lex_lt(a.id@, b.id@) {
                    let target = s.subrange(0, pai) + ca@ + cb@ + s.subrange(pai, n);
                    assert(lhs =~= target);
                    assert(rhs =~= target);
                } else {
                    let target = s.subrange(0, pai) + cb@ + ca@ + s.subrange(pai, n);
                    assert(lhs =~= target);
                    assert(rhs =~= target);
                }
            } else {
                let target = s.subrange(0, pai) + ca@ + s.subrange(pai, pbi) + cb@ + s.subrange(
                    pbi,
                    n,
                );
                assert(lhs =~= target);
                assert(rhs =~= target);
            }
        },
        _ => {},
    }
}

/// Convergence for an Insert concurrent with a Delete that it does not
/// fall strictly inside.
proof fn lemma_conv_insert_delete(s: Seq<char>, a: DocumentOperation, b: DocumentOperation)
    requires
        a.operation matches OperationType::Insert { .. },
        b.operation matches OperationType::Delete { .. },
        spec_validate(a.operation, s.len() as int),
        spec_validate(b.operation, s.len() as int),
        !insert_strictly_inside_delete(a.operation, b.operation),
        s.len() + ins_len(a.operation) + ins_len(b.operation) <= usize::MAX as int,
    ensures
        spec_apply(spec_apply(s, a.operation), spec_transform_against(b, a).operation)
            == spec_apply(spec_apply(s, b.operation), spec_transform_against(a, b).operation),
{
    match (a.operation, b.operation) {
        (
            OperationType::Insert { position: pa, content: ca },
            OperationType::Delete { position: pb, length: lb },
        ) => {
            let n = s.len() as int;
            let pai = pa as int;
            let pbi = pb as int;
            let la = ca@.len() as int;
            let lbi = lb as int;
            let lhs = spec_apply(spec_apply(s, a.operation), spec_transform_against(b, a).operation);
            let rhs = spec_apply(spec_apply(s, b.operation), spec_transform_against(a, b).operation);
            if pbi >= pai {
                // the deleted range lies at or after the insertion point
                let target = s.subrange(0, pai) + ca@ + s.subrange(pai, pbi) + s.subrange(
                    pbi + lbi,
                    n,
                );
                assert(lhs =~= target);
                assert(rhs =~= target);
            } else {
                // pb + lb <= pa: the deleted range lies entirely before
                assert(pbi + lbi <= pai);
                let target = s.subrange(0, pbi) + s.subrange(pbi + lbi, pai) + ca@ + s.subrange(
                    pai,
                    n,
                );
                assert(lhs =~= target);
                assert(rhs =~= target);
            }
        },
        _ => {},
    }
}

/// Convergence for two Deletes when `a`'s range ends at or before `b`'s
/// begins.
proof fn lemma_conv_delete_delete_before(s: Seq<char>, a: DocumentOperation, b: DocumentOperation)
    requires
        a.operation matches OperationType::Delete { .. },
        b.operation matches OperationType::Delete { .. },
        spec_validate(a.operation, s.len() as int),
        spec_validate(b.operation, s.len() as int),
        delete_end(a.operation) <= delete_start(b.operation),
    ensures
        spec_apply(spec_apply(s, a.operation), spec_transform_against(b, a).operation)
            == spec_apply(spec_apply(s, b.operation), spec_transform_against(a, b).operation),
{
    match (a.operation, b.operation) {
        (
            OperationType::Delete { position: pa, length: la },
            OperationType::Delete { position: pb, length: lb },
        ) => {
            let n = s.len() as int;
            let pai = pa as int;
            let pbi = pb as int;
            let lai = la as int;
            let lbi = lb as int;
            let lhs = spec_apply(spec_apply(s, a.operation), spec_transform_against(b, a).operation);
            let rhs = spec_apply(spec_apply(s, b.operation), spec_transform_against(a, b).operation);
            let target = s.subrange(0, pai) + s.subrange(pai + lai, pbi) + s.subrange(pbi + lbi, n);
            assert(lhs =~= target);
            assert(rhs =~= target);
        },
        _ => {},
    }
}

/// Start of the range a Delete removes; zero for other kinds.
pub open spec fn delete_start(op: OperationType) -> int {
    match op {
        OperationType::Delete { position, length } => position as int,
        _ => 0,
    }
}

/// End of the range a Delete removes; zero for other kinds.
pub open spec fn delete_end(op: OperationType) -> int {
    match op {
        OperationType::Delete { position, length } => position + length,
        _ => 0,
    }
}

/// Convergence for two concurrent Deletes.
proof fn lemma_conv_delete_delete(s: Seq<char>, a: DocumentOperation, b: DocumentOperation)
    requires
        a.operation matches OperationType::Delete { .. },
        b.operation matches OperationType::Delete { .. },
        spec_validate(a.operation, s.len() as int),
        spec_validate(b.operation, s.len() as int),
    ensures
        spec_apply(spec_apply(s, a.operation), spec_transform_against(b, a).operation)
            == spec_apply(spec_apply(s, b.operation), spec_transform_against(a, b).operation),
{
    match (a.operation, b.operation) {
        (
            OperationType::Delete { position: pa, length: la },
            OperationType::Delete { position: pb, length: lb },
        ) => {
            let n = s.len() as int;
            let pai = pa as int;
            let pbi = pb as int;
            let lai = la as int;
            let lbi = lb as int;
            if pai + lai <= pbi {
                lemma_conv_delete_delete_before(s, a, b);
            } else if pbi + lbi <= pai {
                lemma_conv_delete_delete_before(s, b, a);
            } else {
                // the ranges overlap; both orders remove their union
                let m = imin(pai, pbi);
                let e = imax(pai + lai, pbi + lbi);
                let lhs = spec_apply(
                    spec_apply(s, a.operation),
                    spec_transform_against(b, a).operation,
                );
                let rhs = spec_apply(
                    spec_apply(s, b.operation),
                    spec_transform_against(a, b).operation,
                );
                let target = s.subrange(0, m) + s.subrange(e, n);
                assert(lhs =~= target);
                assert(rhs =~= target);
            }
        },
        _ => {},
    }
}

/// Convergence of the transformation for concurrent Insert/Delete pairs:
/// from any document on which both operations are valid, applying `a` and
/// then `b` transformed against `a` gives the same document as applying
/// `b` and then `a` transformed against `b`. Equal-position inserts must
/// carry distinct ids (the tie-break needs them), and an insert strictly
/// inside a concurrent delete is excluded, as is Replace.
pub proof fn lemma_transform_convergence(s: Seq<char>, a: DocumentOperation, b: DocumentOperation)
    requires
        !(a.operation matches OperationType::Replace { .. }),
        !(b.operation matches OperationType::Replace { .. }),
        spec_validate(a.operation, s.len() as int),
        spec_validate(b.operation, s.len() as int),
        inserts_at_same_position(a.operation, b.operation) ==> a.id@ != b.id@,
        !insert_strictly_inside_delete(a.operation, b.operation),
        !insert_strictly_inside_delete(b.operation, a.operation),
        s.len() + ins_len(a.operation) + ins_len(b.operation) <= usize::MAX as int,
    ensures
        spec_apply(spec_apply(s, a.operation), spec_transform_against(b, a).operation)
            == spec_apply(spec_apply(s, b.operation), spec_transform_against(a, b).operation),
{
    match (a.operation, b.operation) {
        (OperationType::Insert { .. }, OperationType::Insert { .. }) => {
            lemma_conv_insert_insert(s, a, b);
        },
        (OperationType::Insert { .. }, OperationType::Delete { .. }) => {
            lemma_conv_insert_delete(s, a, b);
        },
        (OperationType::Delete { .. }, OperationType::Insert { .. }) => {
            lemma_conv_insert_delete(s, b, a);
        },
        (OperationType::Delete { .. }, OperationType::Delete { .. }) => {
            lemma_conv_delete_delete(s, a, b);
        },
        _ => {},
    }
}

} // verus!
