//! In-memory hierarchy store: the read interface the permission resolver
//! consumes, together with the writes that keep it up to date.
//!
//! Resources live in two disjoint domains — teams and projects — that
//! never mix in one traversal. Directed edges `parent -> child` carry an
//! `inheritance_enabled` bit; only enabled edges take part in traversals.
//! A member row stores a user's role and permission tokens directly on a
//! resource; absence of a row is distinguished from a row with no tokens.

use vstd::prelude::*;
use vstd::pervasive::VecAdditionalExecFns;

use crate::rbac::TeamRole;

verus! {

/// The domain a resource belongs to.
#[derive(Debug, Clone, Copy, PartialEq, Eq, Structural)]
pub enum ResourceKind {
    Team,
    Project,
}

/// A directed inheritance edge `parent -> child` within one domain.
#[derive(Debug, Clone, Copy)]
pub struct HierarchyEdge {
    pub kind: ResourceKind,
    pub parent_id: u128,
    pub child_id: u128,
    pub inheritance_enabled: bool,
}

/// A direct grant: the user's role and permission tokens on one resource.
#[derive(Debug)]
pub struct MemberRow {
    pub kind: ResourceKind,
    pub resource_id: u128,
    pub user_id: u128,
    pub role: TeamRole,
    pub permissions: Vec<String>,
}

/// Edges and member rows, as a database layer would serve them.
#[derive(Debug)]
pub struct HierarchyStore {
    pub edges: Vec<HierarchyEdge>,
    pub members: Vec<MemberRow>,
}

/// The predicate selecting enabled edges of `kind` whose child is `id`.
pub open spec fn parent_edge_filter(kind: ResourceKind, id: u128) -> spec_fn(HierarchyEdge) -> bool {
    |e: HierarchyEdge| e.kind == kind && e.child_id == id && e.inheritance_enabled
}

/// The predicate selecting enabled edges of `kind` whose parent is `id`.
pub open spec fn child_edge_filter(kind: ResourceKind, id: u128) -> spec_fn(HierarchyEdge) -> bool {
    |e: HierarchyEdge| e.kind == kind && e.parent_id == id && e.inheritance_enabled
}

/// The parents reachable from `id` over enabled edges, in edge order.
pub open spec fn spec_parents(store: HierarchyStore, kind: ResourceKind, id: u128) -> Seq<u128> {
    store.edges@.filter(parent_edge_filter(kind, id)).map_values(|e: HierarchyEdge| e.parent_id)
}

/// The children reachable from `id` over enabled edges, in edge order.
pub open spec fn spec_children(store: HierarchyStore, kind: ResourceKind, id: u128) -> Seq<u128> {
    store.edges@.filter(child_edge_filter(kind, id)).map_values(|e: HierarchyEdge| e.child_id)
}

impl HierarchyStore {
    /// Member rows are unique per `(kind, resource, user)` triple.
    pub open spec fn wf(self) -> bool {
        forall|i: int, j: int|
            0 <= i < j < self.members@.len() ==> !((#[trigger] self.members@[i]).kind
                == (#[trigger] self.members@[j]).kind && self.members@[i].resource_id
                == self.members@[j].resource_id && self.members@[i].user_id
                == self.members@[j].user_id)
    }

    /// Whether a direct row exists for the triple.
    pub open spec fn has_member(self, kind: ResourceKind, resource_id: u128, user_id: u128) -> bool {
        exists|i: int|
            0 <= i < self.members@.len() && (#[trigger] self.members@[i]).kind == kind
                && self.members@[i].resource_id == resource_id && self.members@[i].user_id
                == user_id
    }

    /// The index of the row for the triple (meaningful when present).
    pub open spec fn member_index(self, kind: ResourceKind, resource_id: u128, user_id: u128) -> int {
        choose|i: int|
            0 <= i < self.members@.len() && (#[trigger] self.members@[i]).kind == kind
                && self.members@[i].resource_id == resource_id && self.members@[i].user_id
                == user_id
    }

    /// The row for the triple (meaningful when present).
    pub open spec fn member(self, kind: ResourceKind, resource_id: u128, user_id: u128) -> MemberRow {
        self.members@[self.member_index(kind, resource_id, user_id)]
    }

    /// An empty store.
    pub fn new() -> (r: HierarchyStore)
        ensures
            r.wf(),
            r.edges@.len() == 0,
            r.members@.len() == 0,
    {
        HierarchyStore { edges: Vec::new(), members: Vec::new() }
    }

    /// Finds the position of the member row for the triple.
    fn find_member(&self, kind: ResourceKind, resource_id: u128, user_id: u128) -> (r: Option<usize>)
        ensures
            match r {
                Some(i) => i < self.members@.len() && self.members@[i as int].kind == kind
                    && self.members@[i as int].resource_id == resource_id && self.members@[
                i as int].user_id == user_id,
                None => !self.has_member(kind, resource_id, user_id),
            },
    {
        let mut i: usize = 0;
        while i < self.members.len()
            invariant
                0 <= i <= self.members@.len(),
                forall|k: int|
                    0 <= k < i ==> !((#[trigger] self.members@[k]).kind == kind && self.members@[
                    k].resource_id == resource_id && self.members@[k].user_id == user_id),
            decreases self.members@.len() - i,
        {
            let row = &self.members[i];
            if row.resource_id == resource_id && row.user_id == user_id && row.kind == kind {
                return Some(i);
            }
            i = i + 1;
        }
        None
    }

    /// With unique rows, any position holding the triple is the one the
    /// specification speaks of.
    pub proof fn lemma_member_determined(
        self,
        kind: ResourceKind,
        resource_id: u128,
        user_id: u128,
        i: int,
    )
        requires
            self.wf(),
            0 <= i < self.members@.len(),
            self.members@[i].kind == kind,
            self.members@[i].resource_id == resource_id,
            self.members@[i].user_id == user_id,
        ensures
            self.has_member(kind, resource_id, user_id),
            self.member_index(kind, resource_id, user_id) == i,
    {
        let j = self.member_index(kind, resource_id, user_id);
        if j != i {
            if i < j {
                assert(!(self.members@[i].kind == self.members@[j].kind && self.members@[
                i].resource_id == self.members@[j].resource_id && self.members@[i].user_id
                    == self.members@[j].user_id));
            } else {
                assert(!(self.members@[j].kind == self.members@[i].kind && self.members@[
                j].resource_id == self.members@[i].resource_id && self.members@[j].user_id
                    == self.members@[i].user_id));
            }
        }
    }

    /// The parents of `id` over enabled edges of `kind`, in edge order —
    /// only edges with inheritance enabled count.
    pub fn parents_of(&self, kind: ResourceKind, resource_id: u128) -> (r: Vec<u128>)
        ensures
            r@ == spec_parents(*self, kind, resource_id),
    {
        let ghost pred = parent_edge_filter(kind, resource_id);
        let mut r: Vec<u128> = Vec::new();
        let mut i: usize = 0;
        proof {
            reveal(Seq::filter);
            assert(self.edges@.take(0).filter(pred) =~= Seq::<HierarchyEdge>::empty());
            assert(r@ =~= self.edges@.take(0).filter(pred).map_values(
                |e: HierarchyEdge| e.parent_id,
            ));
        }
        while i < self.edges.len()
            invariant
                0 <= i <= self.edges@.len(),
                pred == parent_edge_filter(kind, resource_id),
                r@ == self.edges@.take(i as int).filter(pred).map_values(
                    |e: HierarchyEdge| e.parent_id,
                ),
            decreases self.edges@.len() - i,
        {
            proof {
                reveal(Seq::filter);
                let t1 = self.edges@.take(i as int + 1);
                assert(t1.drop_last() =~= self.edges@.take(i as int));
                assert(t1.last() == self.edges@[i as int]);
                assert(t1.filter(pred) == if pred(t1.last()) {
                    t1.drop_last().filter(pred).push(t1.last())
                } else {
                    t1.drop_last().filter(pred)
                });
                if pred(t1.last()) {
                    assert(t1.filter(pred).map_values(|e: HierarchyEdge| e.parent_id)
                        =~= t1.drop_last().filter(pred).map_values(|e: HierarchyEdge| e.parent_id)
                        .push(t1.last().parent_id));
                }
            }
            let e = self.edges[i];
            if e.child_id == resource_id && e.inheritance_enabled && e.kind == kind {
                r.push(e.parent_id);
            }
            i = i + 1;
        }
        proof {
            assert(self.edges@.take(self.edges@.len() as int) =~= self.edges@);
        }
        r
    }

    /// The children of `id` over enabled edges of `kind`, in edge order —
    /// only edges with inheritance enabled count.
    pub fn children_of(&self, kind: ResourceKind, resource_id: u128) -> (r: Vec<u128>)
        ensures
            r@ == spec_children(*self, kind, resource_id),
    {
        let ghost pred = child_edge_filter(kind, resource_id);
        let mut r: Vec<u128> = Vec::new();
        let mut i: usize = 0;
        proof {
            reveal(Seq::filter);
            assert(self.edges@.take(0).filter(pred) =~= Seq::<HierarchyEdge>::empty());
            assert(r@ =~= self.edges@.take(0).filter(pred).map_values(
                |e: HierarchyEdge| e.child_id,
            ));
        }
        while i < self.edges.len()
            invariant
                0 <= i <= self.edges@.len(),
                pred == child_edge_filter(kind, resource_id),
                r@ == self.edges@.take(i as int).filter(pred).map_values(
                    |e: HierarchyEdge| e.child_id,
                ),
            decreases self.edges@.len() - i,
        {
            proof {
                reveal(Seq::filter);
                let t1 = self.edges@.take(i as int + 1);
                assert(t1.drop_last() =~= self.edges@.take(i as int));
                assert(t1.last() == self.edges@[i as int]);
                assert(t1.filter(pred) == if pred(t1.last()) {
                    t1.drop_last().filter(pred).push(t1.last())
                } else {
                    t1.drop_last().filter(pred)
                });
                if pred(t1.last()) {
                    assert(t1.filter(pred).map_values(|e: HierarchyEdge| e.child_id)
                        =~= t1.drop_last().filter(pred).map_values(|e: HierarchyEdge| e.child_id)
                        .push(t1.last().child_id));
                }
            }
            let e = self.edges[i];
            if e.parent_id == resource_id && e.inheritance_enabled && e.kind == kind {
                r.push(e.child_id);
            }
            i = i + 1;
        }
        proof {
            assert(self.edges@.take(self.edges@.len() as int) =~= self.edges@);
        }
        r
    }

    /// The direct grant for a user on a resource: `Some` with the row's
    /// role and tokens when a row exists, `None` when it does not — so
    /// that role defaulting happens only on absence.
    pub fn direct_permissions(&self, kind: ResourceKind, resource_id: u128, user_id: u128) -> (r:
        Option<(TeamRole, Vec<String>)>)
        requires
            self.wf(),
        ensures
            r.is_some() <==> self.has_member(kind, resource_id, user_id),
            r matches Some(p) ==> {
                let row = self.member(kind, resource_id, user_id);
                &&& p.0 == row.role
                &&& p.1@ == row.permissions@
            },
    {
        match self.find_member(kind, resource_id, user_id) {
            None => None,
            Some(i) => {
                proof {
                    self.lemma_member_determined(kind, resource_id, user_id, i as int);
                }
                let row = &self.members[i];
                Some((row.role, duplicate_strings(&row.permissions)))
            },
        }
    }

    /// Adds an edge `parent -> child` in the given domain.
    pub fn add_edge(
        &mut self,
        kind: ResourceKind,
        parent_id: u128,
        child_id: u128,
        inheritance_enabled: bool,
    )
        requires
            old(self).wf(),
        ensures
            final(self).wf(),
            final(self).members@ == old(self).members@,
            final(self).edges@ == old(self).edges@.push(
                HierarchyEdge { kind, parent_id, child_id, inheritance_enabled },
            ),
    {
        self.edges.push(HierarchyEdge { kind, parent_id, child_id, inheritance_enabled });
    }

    /// Turns inheritance on or off on every edge `parent -> child` of the
    /// given domain.
    pub fn set_inheritance(
        &mut self,
        kind: ResourceKind,
        parent_id: u128,
        child_id: u128,
        enabled: bool,
    )
        requires
            old(self).wf(),
        ensures
            final(self).wf(),
            final(self).members@ == old(self).members@,
            final(self).edges@.len() == old(self).edges@.len(),
            forall|i: int|
                0 <= i < old(self).edges@.len() ==> {
                    let o = old(self).edges@[i];
                    let n = #[trigger] final(self).edges@[i];
                    if o.kind == kind && o.parent_id == parent_id && o.child_id == child_id {
                        n == (HierarchyEdge { inheritance_enabled: enabled, ..o })
                    } else {
                        n == o
                    }
                },
    {
        let ghost orig = self.edges@;
        let mut i: usize = 0;
        while i < self.edges.len()
            invariant
                0 <= i <= self.edges@.len(),
                self.members@ == old(self).members@,
                self.edges@.len() == orig.len(),
                orig == old(self).edges@,
                forall|k: int| i <= k < orig.len() ==> #[trigger] self.edges@[k] == orig[k],
                forall|k: int|
                    0 <= k < i ==> {
                        let o = orig[k];
                        let n = #[trigger] self.edges@[k];
                        if o.kind == kind && o.parent_id == parent_id && o.child_id == child_id {
                            n == (HierarchyEdge { inheritance_enabled: enabled, ..o })
                        } else {
                            n == o
                        }
                    },
            decreases self.edges@.len() - i,
        {
            let e = self.edges[i];
            if e.kind == kind && e.parent_id == parent_id && e.child_id == child_id {
                self.edges.set(
                    i,
                    HierarchyEdge { kind, parent_id, child_id, inheritance_enabled: enabled },
                );
            }
            i = i + 1;
        }
    }

    /// Creates or replaces the direct grant for a user on a resource.
    pub fn set_member(
        &mut self,
        kind: ResourceKind,
        resource_id: u128,
        user_id: u128,
        role: TeamRole,
        permissions: Vec<String>,
    )
        requires
            old(self).wf(),
        ensures
            final(self).wf(),
            final(self).edges@ == old(self).edges@,
            final(self).has_member(kind, resource_id, user_id),
            final(self).member(kind, resource_id, user_id).role == role,
            final(self).member(kind, resource_id, user_id).permissions@ == permissions@,
            final(self).member(kind, resource_id, user_id).kind == kind,
            final(self).member(kind, resource_id, user_id).resource_id == resource_id,
            final(self).member(kind, resource_id, user_id).user_id == user_id,
            // every other triple keeps its row (or its absence)
            forall|k2: ResourceKind, r2: u128, u2: u128|
                !(k2 == kind && r2 == resource_id && u2 == user_id) ==> (
                #[trigger] final(self).has_member(k2, r2, u2) == old(self).has_member(k2, r2, u2)
                    && (old(self).has_member(k2, r2, u2) ==> final(self).member(k2, r2, u2) == old(
                    self,
                ).member(k2, r2, u2))),
    {
        let row = MemberRow { kind, resource_id, user_id, role, permissions };
        match self.find_member(kind, resource_id, user_id) {
            Some(i) => {
                proof {
                    old(self).lemma_member_determined(kind, resource_id, user_id, i as int);
                }
                self.members.set(i, row);
                proof {
                    self.lemma_member_determined(kind, resource_id, user_id, i as int);
                    assert forall|k2: ResourceKind, r2: u128, u2: u128|
                        !(k2 == kind && r2 == resource_id && u2 == user_id) implies (
                    #[trigger] final(self).has_member(k2, r2, u2) == old(self).has_member(
                        k2,
                        r2,
                        u2,
                    ) && (old(self).has_member(k2, r2, u2) ==> final(self).member(k2, r2, u2)
                        == old(self).member(k2, r2, u2))) by {
                        lemma_member_other_triples(*old(self), *self, i as int, k2, r2, u2);
                    }
                }
            },
            None => {
                self.members.push(row);
                proof {
                    self.lemma_member_determined(
                        kind,
                        resource_id,
                        user_id,
                        old(self).members@.len() as int,
                    );
                    assert forall|k2: ResourceKind, r2: u128, u2: u128|
                        !(k2 == kind && r2 == resource_id && u2 == user_id) implies (
                    #[trigger] final(self).has_member(k2, r2, u2) == old(self).has_member(
                        k2,
                        r2,
                        u2,
                    ) && (old(self).has_member(k2, r2, u2) ==> final(self).member(k2, r2, u2)
                        == old(self).member(k2, r2, u2))) by {
                        lemma_member_other_triples(
                            *old(self),
                            *self,
                            old(self).members@.len() as int,
                            k2,
                            r2,
                            u2,
                        );
                    }
                }
            },
        }
    }
}

/// When only the row at position `i` changed (or was appended), every
/// other triple's row, and its absence, is as it was.
proof fn lemma_member_other_triples(
    pre: HierarchyStore,
    post: HierarchyStore,
    i: int,
    k2: ResourceKind,
    r2: u128,
    u2: u128,
)
    requires
        pre.wf(),
        post.wf(),
        0 <= i < post.members@.len(),
        pre.members@.len() == post.members@.len() || pre.members@.len() + 1 == post.members@.len(),
        pre.members@.len() == post.members@.len() ==> forall|k: int|
            0 <= k < pre.members@.len() && k != i ==> #[trigger] post.members@[k]
                == pre.members@[k],
        pre.members@.len() + 1 == post.members@.len() ==> (i == pre.members@.len() && forall|k: int|
            0 <= k < pre.members@.len() ==> #[trigger] post.members@[k] == pre.members@[k]),
        !(k2 == post.members@[i].kind && r2 == post.members@[i].resource_id && u2
            == post.members@[i].user_id),
        pre.members@.len() == post.members@.len() ==> !(k2 == pre.members@[i].kind && r2
            == pre.members@[i].resource_id && u2 == pre.members@[i].user_id),
    ensures
        post.has_member(k2, r2, u2) == pre.has_member(k2, r2, u2),
        pre.has_member(k2, r2, u2) ==> post.member(k2, r2, u2) == pre.member(k2, r2, u2),
{
    if pre.has_member(k2, r2, u2) {
        let k = pre.member_index(k2, r2, u2);
        assert(post.members@[k] == pre.members@[k]);
        post.lemma_member_determined(k2, r2, u2, k);
        pre.lemma_member_determined(k2, r2, u2, k);
    }
    if post.has_member(k2, r2, u2) {
        let k = post.member_index(k2, r2, u2);
        assert(k != i);
        assert(pre.members@[k] == post.members@[k]);
        pre.lemma_member_determined(k2, r2, u2, k);
    }
}

/// Copies a list of strings element for element.
pub fn duplicate_strings(v: &Vec<String>) -> (r: Vec<String>)
    ensures
        r@ == v@,
{
    let mut r: Vec<String> = Vec::new();
    let mut i: usize = 0;
    while i < v.len()
        invariant
            0 <= i <= v@.len(),
            r@ == v@.take(i as int),
        decreases v@.len() - i,
    {
        r.push(v[i].clone());
        proof {
            assert(r@ =~= v@.take(i + 1 as int));
        }
        i = i + 1;
    }
    proof {
        assert(r@ =~= v@);
    }
    r
}

} // verus!
