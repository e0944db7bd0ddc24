//! Hierarchical permission resolver.
//!
//! A user's effective permissions on a resource merge the direct grant on
//! the resource itself with grants inherited from ancestors, found by a
//! breadth-first walk over enabled edges: the frontier starts at the
//! resource, each level up contributes the parents not seen before, and
//! the walk stops at the configured depth. A visited set makes the walk
//! safe on accidental cycles and keeps every ancestor from contributing
//! more than once. Results are cached per `(user, resource)`; every write
//! that could change an answer drops the affected entries.

use vstd::prelude::*;

use crate::hierarchy::{duplicate_strings, spec_children, spec_parents, HierarchyEdge,
    HierarchyStore, ResourceKind};
use crate::rbac::TeamRole;
use crate::strorder::{contains_string, sorted_insert, strictly_sorted, string_set};

verus! {

/// Configuration of the resolver: whether inheritance is consulted at all,
/// and how many levels up the walk may go.
#[derive(Debug, Clone, Copy)]
pub struct InheritanceConfig {
    pub enabled: bool,
    pub max_depth: i32,
    pub cascading_updates: bool,
    pub override_allowed: bool,
}

impl Default for InheritanceConfig {
    /// Inheritance on, five levels deep, cascading updates and overrides
    /// allowed.
    fn default() -> (r: InheritanceConfig)
        ensures
            r.enabled == true,
            r.max_depth == 5,
            r.cascading_updates == true,
            r.override_allowed == true,
    {
        InheritanceConfig { enabled: true, max_depth: 5, cascading_updates: true, override_allowed: true }
    }
}

/// One ancestor's contribution: where it came from, how deep, and what it
/// grants.
#[derive(Debug)]
#[verifier::ext_equal]
pub struct InheritedPermissionInfo {
    pub source_id: u128,
    pub source_type: ResourceKind,
    pub permissions: Vec<String>,
    pub depth: i32,
    pub from_role: TeamRole,
}

/// The resolver's answer: direct and inherited grants and their merge.
#[derive(Debug)]
#[verifier::ext_equal]
pub struct ResolvedPermissions {
    pub user_id: u128,
    pub resource_id: u128,
    pub resource_type: ResourceKind,
    pub direct_permissions: Vec<String>,
    pub inherited_permissions: Vec<InheritedPermissionInfo>,
    pub effective_permissions: Vec<String>,
    pub role: TeamRole,
}

/// One node of the hierarchy as handed to operators for visualisation.
#[derive(Debug)]
pub struct HierarchyTree {
    pub id: u128,
    pub name: String,
    pub resource_type: ResourceKind,
    pub children: Vec<HierarchyTree>,
    pub permissions_inherited: bool,
}

/// The elements of `xs` not in `seen`, first occurrence kept, in order.
pub open spec fn dedup_new(xs: Seq<u128>, seen: Seq<u128>) -> Seq<u128>
    decreases xs.len(),
{
    if xs.len() == 0 {
        Seq::empty()
    } else if seen.contains(xs[0]) {
        dedup_new(xs.skip(1), seen)
    } else {
        seq![xs[0]] + dedup_new(xs.skip(1), seen.push(xs[0]))
    }
}

/// The nodes one level further up: the parents of the frontier's nodes in
/// order, skipping anything seen before and keeping first occurrences.
pub open spec fn spec_next_level(
    store: HierarchyStore,
    kind: ResourceKind,
    frontier: Seq<u128>,
    seen: Seq<u128>,
) -> Seq<u128>
    decreases frontier.len(),
{
    if frontier.len() == 0 {
        Seq::empty()
    } else {
        let firsts = dedup_new(spec_parents(store, kind, frontier[0]), seen);
        firsts + spec_next_level(store, kind, frontier.skip(1), seen + firsts)
    }
}

/// Every newly discovered ancestor paired with its depth: level `d` holds
/// the nodes first reached `d` steps above the resource, for at most
/// `depth_left` further levels.
pub open spec fn spec_ancestor_pairs(
    store: HierarchyStore,
    kind: ResourceKind,
    frontier: Seq<u128>,
    seen: Seq<u128>,
    d: int,
    depth_left: nat,
) -> Seq<(u128, int)>
    decreases depth_left,
{
    if depth_left == 0 || frontier.len() == 0 {
        Seq::empty()
    } else {
        let next = spec_next_level(store, kind, frontier, seen);
        next.map_values(|n: u128| (n, d)) + spec_ancestor_pairs(
            store,
            kind,
            next,
            seen + next,
            d + 1,
            (depth_left - 1) as nat,
        )
    }
}

/// How many levels the configuration allows.
pub open spec fn depth_budget(config: InheritanceConfig) -> nat {
    if config.enabled && config.max_depth > 0 {
        config.max_depth as nat
    } else {
        0
    }
}

/// All ancestors the walk discovers for a resource, with their depths.
pub open spec fn spec_ancestors(
    store: HierarchyStore,
    config: InheritanceConfig,
    kind: ResourceKind,
    resource_id: u128,
) -> Seq<(u128, int)> {
    spec_ancestor_pairs(
        store,
        kind,
        seq![resource_id],
        seq![resource_id],
        1,
        depth_budget(config),
    )
}

/// Whether an ancestor contributes for a user: it holds a direct row for
/// the user with at least one token.
pub open spec fn contributes(
    store: HierarchyStore,
    kind: ResourceKind,
    user_id: u128,
    n: u128,
) -> bool {
    store.has_member(kind, n, user_id) && store.member(
        kind,
        n,
        user_id,
    ).permissions@.len() > 0
}

/// The predicate form of `contributes` over ancestor pairs.
pub open spec fn contrib_filter(
    store: HierarchyStore,
    kind: ResourceKind,
    user_id: u128,
) -> spec_fn((u128, int)) -> bool {
    |p: (u128, int)| contributes(store, kind, user_id, p.0)
}

/// The ancestors that contribute for a user, in discovery order.
pub open spec fn spec_contributions(
    store: HierarchyStore,
    config: InheritanceConfig,
    user_id: u128,
    kind: ResourceKind,
    resource_id: u128,
) -> Seq<(u128, int)> {
    spec_ancestors(store, config, kind, resource_id).filter(contrib_filter(store, kind, user_id))
}

/// The character sequences of a list of strings, element for element.
pub open spec fn views_of(v: Seq<String>) -> Seq<Seq<char>> {
    Seq::new(v.len(), |i: int| v[i]@)
}

/// Contribution records match a list of `(source, depth)` pairs against
/// the store's rows for the user.
pub open spec fn infos_match(
    infos: Seq<InheritedPermissionInfo>,
    cs: Seq<(u128, int)>,
    store: HierarchyStore,
    kind: ResourceKind,
    user_id: u128,
) -> bool {
    &&& infos.len() == cs.len()
    &&& forall|k: int|
        0 <= k < cs.len() ==> {
            let info = #[trigger] infos[k];
            let row = store.member(kind, cs[k].0, user_id);
            &&& info.source_id == cs[k].0
            &&& info.depth as int == cs[k].1
            &&& info.source_type == kind
            &&& info.from_role == row.role
            &&& info.permissions@ == row.permissions@
        }
}

/// Membership check by linear search.
fn contains_id(seen: &Vec<u128>, x: u128) -> (r: bool)
    ensures
        r == seen@.contains(x),
{
    let mut i: usize = 0;
    while i < seen.len()
        invariant
            0 <= i <= seen@.len(),
            forall|k: int| 0 <= k < i ==> seen@[k] != x,
        decreases seen@.len() - i,
    {
        if seen[i] == x {
            return true;
        }
        i = i + 1;
    }
    false
}

/// Appends the unseen elements of `xs` to `out` and marks them seen.
fn dedup_new_exec(xs: &Vec<u128>, seen: &mut Vec<u128>, out: &mut Vec<u128>)
    ensures
        final(out)@ == old(out)@ + dedup_new(xs@, old(seen)@),
        final(seen)@ == old(seen)@ + dedup_new(xs@, old(seen)@),
{
    let ghost seen0 = seen@;
    let ghost out0 = out@;
    let mut i: usize = 0;
    proof {
        assert(xs@.skip(0) =~= xs@);
        assert(out0 + dedup_new(xs@, seen0) == out0 + dedup_new(xs@.skip(0), seen0));
    }
    while i < xs.len()
        invariant
            0 <= i <= xs@.len(),
            out0 + dedup_new(xs@, seen0) == out@ + dedup_new(xs@.skip(i as int), seen@),
            seen0 + dedup_new(xs@, seen0) == seen@ + dedup_new(xs@.skip(i as int), seen@),
        decreases xs@.len() - i,
    {
        proof {
            assert(xs@.skip(i as int)[0] == xs@[i as int]);
            assert(xs@.skip(i as int).skip(1) =~= xs@.skip(i as int + 1));
        }
        let x = xs[i];
        if !contains_id(seen, x) {
            proof {
                assert(out@ + (seq![x] + dedup_new(xs@.skip(i as int + 1), seen@.push(x)))
                    =~= out@.push(x) + dedup_new(xs@.skip(i as int + 1), seen@.push(x)));
                assert(seen@ + (seq![x] + dedup_new(xs@.skip(i as int + 1), seen@.push(x)))
                    =~= seen@.push(x) + dedup_new(xs@.skip(i as int + 1), seen@.push(x)));
            }
            out.push(x);
            seen.push(x);
        }
        i = i + 1;
    }
    proof {
        assert(xs@.skip(xs@.len() as int).len() == 0);
        assert(out@ + Seq::<u128>::empty() =~= out@);
        assert(seen@ + Seq::<u128>::empty() =~= seen@);
        assert(out@ =~= out0 + dedup_new(xs@, seen0));
        assert(seen@ =~= seen0 + dedup_new(xs@, seen0));
    }
}

/// Computes the next level of the walk: new parents of the frontier.
fn next_level_exec(
    store: &HierarchyStore,
    kind: ResourceKind,
    frontier: &Vec<u128>,
    seen: &mut Vec<u128>,
) -> (r: Vec<u128>)
    ensures
        r@ == spec_next_level(*store, kind, frontier@, old(seen)@),
        final(seen)@ == old(seen)@ + r@,
{
    let ghost seen0 = seen@;
    let mut out: Vec<u128> = Vec::new();
    let mut i: usize = 0;
    proof {
        assert(frontier@.skip(0) =~= frontier@);
        assert(Seq::<u128>::empty() + spec_next_level(*store, kind, frontier@, seen0)
            =~= spec_next_level(*store, kind, frontier@, seen0));
    }
    while i < frontier.len()
        invariant
            0 <= i <= frontier@.len(),
            spec_next_level(*store, kind, frontier@, seen0) == out@ + spec_next_level(
                *store,
                kind,
                frontier@.skip(i as int),
                seen@,
            ),
            seen@ == seen0 + out@,
        decreases frontier@.len() - i,
    {
        proof {
            assert(frontier@.skip(i as int)[0] == frontier@[i as int]);
            assert(frontier@.skip(i as int).skip(1) =~= frontier@.skip(i as int + 1));
        }
        let parents = store.parents_of(kind, frontier[i]);
        let ghost seen_before = seen@;
        let ghost out_before = out@;
        dedup_new_exec(&parents, seen, &mut out);
        proof {
            let firsts = dedup_new(parents@, seen_before);
            assert(out@ == out_before + firsts);
            assert(seen@ == seen_before + firsts);
            assert((out_before + firsts) + spec_next_level(
                *store,
                kind,
                frontier@.skip(i as int + 1),
                seen_before + firsts,
            ) =~= out_before + (firsts + spec_next_level(
                *store,
                kind,
                frontier@.skip(i as int + 1),
                seen_before + firsts,
            )));
        }
        i = i + 1;
    }
    proof {
        assert(frontier@.skip(frontier@.len() as int).len() == 0);
        assert(out@ + Seq::<u128>::empty() =~= out@);
        assert(out@ =~= spec_next_level(*store, kind, frontier@, seen0));
        assert(seen@ =~= seen0 + out@);
    }
    out
}


/// The tokens a direct row grants, as a set; empty when no row exists.
pub open spec fn direct_token_set(
    store: HierarchyStore,
    kind: ResourceKind,
    resource_id: u128,
    user_id: u128,
) -> Set<Seq<char>> {
    if store.has_member(kind, resource_id, user_id) {
        string_set(store.member(kind, resource_id, user_id).permissions@)
    } else {
        Set::empty()
    }
}

/// The tokens a direct row grants, listed in row order; empty when no row
/// exists.
pub open spec fn direct_tokens_seq(
    store: HierarchyStore,
    kind: ResourceKind,
    resource_id: u128,
    user_id: u128,
) -> Seq<Seq<char>> {
    if store.has_member(kind, resource_id, user_id) {
        views_of(store.member(kind, resource_id, user_id).permissions@)
    } else {
        Seq::empty()
    }
}

/// The union of the tokens granted by a list of contributing sources.
pub open spec fn contrib_token_union(
    store: HierarchyStore,
    kind: ResourceKind,
    user_id: u128,
    cs: Seq<(u128, int)>,
) -> Set<Seq<char>>
    decreases cs.len(),
{
    if cs.len() == 0 {
        Set::empty()
    } else {
        contrib_token_union(store, kind, user_id, cs.drop_last()).union(
            string_set(store.member(kind, cs.last().0, user_id).permissions@),
        )
    }
}

/// The union of the tokens carried by contribution records.
pub open spec fn infos_token_union(infos: Seq<InheritedPermissionInfo>) -> Set<Seq<char>>
    decreases infos.len(),
{
    if infos.len() == 0 {
        Set::empty()
    } else {
        infos_token_union(infos.drop_last()).union(string_set(infos.last().permissions@))
    }
}

/// The highest role among a list of contributing sources; viewer when
/// there are none.
pub open spec fn max_contrib_role(
    store: HierarchyStore,
    kind: ResourceKind,
    user_id: u128,
    cs: Seq<(u128, int)>,
) -> TeamRole
    decreases cs.len(),
{
    if cs.len() == 0 {
        TeamRole::Viewer
    } else {
        max_contrib_role(store, kind, user_id, cs.drop_last()).spec_max(
            store.member(kind, cs.last().0, user_id).role,
        )
    }
}

/// The highest role among contribution records; viewer when there are
/// none.
pub open spec fn max_info_role(infos: Seq<InheritedPermissionInfo>) -> TeamRole
    decreases infos.len(),
{
    if infos.len() == 0 {
        TeamRole::Viewer
    } else {
        max_info_role(infos.drop_last()).spec_max(infos.last().from_role)
    }
}

/// The effective token set: direct tokens joined with every contributing
/// ancestor's tokens.
pub open spec fn spec_effective(
    store: HierarchyStore,
    config: InheritanceConfig,
    user_id: u128,
    kind: ResourceKind,
    resource_id: u128,
) -> Set<Seq<char>> {
    direct_token_set(store, kind, resource_id, user_id).union(
        contrib_token_union(
            store,
            kind,
            user_id,
            spec_contributions(store, config, user_id, kind, resource_id),
        ),
    )
}

/// The resolved role: the direct role when a row exists, else the highest
/// role among contributing ancestors, else viewer.
pub open spec fn spec_role(
    store: HierarchyStore,
    config: InheritanceConfig,
    user_id: u128,
    kind: ResourceKind,
    resource_id: u128,
) -> TeamRole {
    if store.has_member(kind, resource_id, user_id) {
        store.member(kind, resource_id, user_id).role
    } else {
        max_contrib_role(
            store,
            kind,
            user_id,
            spec_contributions(store, config, user_id, kind, resource_id),
        )
    }
}

/// What it means for a resolver answer to be the right one for a store and
/// configuration.
pub open spec fn resolved_matches(
    store: HierarchyStore,
    config: InheritanceConfig,
    rp: ResolvedPermissions,
    user_id: u128,
    kind: ResourceKind,
    resource_id: u128,
) -> bool {
    &&& rp.user_id == user_id
    &&& rp.resource_id == resource_id
    &&& rp.resource_type == kind
    &&& views_of(rp.direct_permissions@) == direct_tokens_seq(store, kind, resource_id, user_id)
    &&& infos_match(
        rp.inherited_permissions@,
        spec_contributions(store, config, user_id, kind, resource_id),
        store,
        kind,
        user_id,
    )
    &&& strictly_sorted(rp.effective_permissions@)
    &&& string_set(rp.effective_permissions@) == spec_effective(
        store,
        config,
        user_id,
        kind,
        resource_id,
    )
    &&& rp.role == spec_role(store, config, user_id, kind, resource_id)
}

/// Matching records carry the same token sets as their sources.
proof fn lemma_infos_union_matches(
    infos: Seq<InheritedPermissionInfo>,
    cs: Seq<(u128, int)>,
    store: HierarchyStore,
    kind: ResourceKind,
    user_id: u128,
)
    requires
        infos_match(infos, cs, store, kind, user_id),
    ensures
        infos_token_union(infos) == contrib_token_union(store, kind, user_id, cs),
        max_info_role(infos) == max_contrib_role(store, kind, user_id, cs),
    decreases infos.len(),
{
    if infos.len() > 0 {
        assert(infos_match(infos.drop_last(), cs.drop_last(), store, kind, user_id)) by {
            assert forall|k: int| 0 <= k < cs.drop_last().len() implies {
                let info = #[trigger] infos.drop_last()[k];
                let row = store.member(kind, cs.drop_last()[k].0, user_id);
                &&& info.source_id == cs.drop_last()[k].0
                &&& info.depth as int == cs.drop_last()[k].1
                &&& info.source_type == kind
                &&& info.from_role == row.role
                &&& info.permissions@ == row.permissions@
            } by {
                assert(infos.drop_last()[k] == infos[k]);
                assert(cs.drop_last()[k] == cs[k]);
            }
        }
        lemma_infos_union_matches(infos.drop_last(), cs.drop_last(), store, kind, user_id);
        assert(infos.last() == infos[infos.len() - 1]);
        assert(cs.last() == cs[cs.len() - 1]);
    }
}

/// Appending one string to a list adds exactly its characters to the set.
proof fn lemma_string_set_push(v: Seq<String>, s: String)
    ensures
        string_set(v.push(s)) =~= string_set(v).insert(s@),
{
    assert forall|t: Seq<char>|
        string_set(v.push(s)).contains(t) == string_set(v).insert(s@).contains(t) by {
        if string_set(v.push(s)).contains(t) {
            let k = choose|k: int| 0 <= k < v.push(s).len() && v.push(s)[k]@ == t;
            if k < v.len() {
                assert(v[k]@ == t);
            }
        }
        if t == s@ {
            assert(v.push(s)[v.len() as int]@ == t);
        } else if string_set(v).contains(t) {
            let k = choose|k: int| 0 <= k < v.len() && v[k]@ == t;
            assert(v.push(s)[k]@ == t);
        }
    }
}

/// Taking one more element grows the set by exactly that element.
proof fn lemma_string_set_take_step(v: Seq<String>, i: int)
    requires
        0 <= i < v.len(),
    ensures
        string_set(v.take(i + 1)) =~= string_set(v.take(i)).insert(v[i]@),
{
    assert(v.take(i + 1) =~= v.take(i).push(v[i]));
    lemma_string_set_push(v.take(i), v[i]);
}

/// Merges direct and inherited tokens into one sorted, duplicate-free
/// list whose set is exactly the union of what went in.
pub fn merge_permissions(direct: &Vec<String>, inherited: &Vec<InheritedPermissionInfo>) -> (r: Vec<
    String,
>)
    ensures
        strictly_sorted(r@),
        string_set(r@) == string_set(direct@).union(infos_token_union(inherited@)),
{
    let mut out: Vec<String> = Vec::new();
    let mut i: usize = 0;
    proof {
        assert(string_set(direct@.take(0)) =~= Set::<Seq<char>>::empty());
        assert(string_set(out@) =~= Set::<Seq<char>>::empty());
    }
    while i < direct.len()
        invariant
            0 <= i <= direct@.len(),
            strictly_sorted(out@),
            string_set(out@) == string_set(direct@.take(i as int)),
        decreases direct@.len() - i,
    {
        proof {
            lemma_string_set_take_step(direct@, i as int);
        }
        sorted_insert(&mut out, direct[i].as_str());
        i = i + 1;
    }
    proof {
        assert(direct@.take(direct@.len() as int) =~= direct@);
        assert(infos_token_union(inherited@.take(0)) =~= Set::<Seq<char>>::empty());
        assert(string_set(out@) =~= string_set(direct@).union(infos_token_union(inherited@.take(0))));
    }
    let mut k: usize = 0;
    while k < inherited.len()
        invariant
            0 <= k <= inherited@.len(),
            strictly_sorted(out@),
            string_set(out@) == string_set(direct@).union(
                infos_token_union(inherited@.take(k as int)),
            ),
        decreases inherited@.len() - k,
    {
        let toks = &inherited[k].permissions;
        let mut j: usize = 0;
        proof {
            assert(string_set(toks@.take(0)) =~= Set::<Seq<char>>::empty());
            assert(string_set(out@) =~= string_set(direct@).union(
                infos_token_union(inherited@.take(k as int)),
            ).union(string_set(toks@.take(0))));
        }
        while j < toks.len()
            invariant
                0 <= j <= toks@.len(),
                toks == &inherited@[k as int].permissions,
                0 <= k < inherited@.len(),
                strictly_sorted(out@),
                string_set(out@) == string_set(direct@).union(
                    infos_token_union(inherited@.take(k as int)),
                ).union(string_set(toks@.take(j as int))),
            decreases toks@.len() - j,
        {
            proof {
                lemma_string_set_take_step(toks@, j as int);
            }
            sorted_insert(&mut out, toks[j].as_str());
            proof {
                assert(string_set(out@) =~= string_set(direct@).union(
                    infos_token_union(inherited@.take(k as int)),
                ).union(string_set(toks@.take(j as int + 1))));
            }
            j = j + 1;
        }
        proof {
            assert(toks@.take(toks@.len() as int) =~= toks@);
            assert(inherited@.take(k as int + 1).drop_last() =~= inherited@.take(k as int));
            assert(inherited@.take(k as int + 1).last() == inherited@[k as int]);
            assert(string_set(out@) =~= string_set(direct@).union(
                infos_token_union(inherited@.take(k as int + 1)),
            ));
        }
        k = k + 1;
    }
    proof {
        assert(inherited@.take(inherited@.len() as int) =~= inherited@);
    }
    out
}

/// Two contribution records carrying the same content.
pub open spec fn info_like(a: InheritedPermissionInfo, b: InheritedPermissionInfo) -> bool {
    &&& a.source_id == b.source_id
    &&& a.source_type == b.source_type
    &&& a.permissions@ == b.permissions@
    &&& a.depth == b.depth
    &&& a.from_role == b.from_role
}

/// Two resolver answers carrying the same content.
pub open spec fn resolved_like(a: ResolvedPermissions, b: ResolvedPermissions) -> bool {
    &&& a.user_id == b.user_id
    &&& a.resource_id == b.resource_id
    &&& a.resource_type == b.resource_type
    &&& a.direct_permissions@ == b.direct_permissions@
    &&& a.inherited_permissions@.len() == b.inherited_permissions@.len()
    &&& forall|k: int|
        0 <= k < a.inherited_permissions@.len() ==> info_like(
            #[trigger] a.inherited_permissions@[k],
            #[trigger] b.inherited_permissions@[k],
        )
    &&& a.effective_permissions@ == b.effective_permissions@
    &&& a.role == b.role
}

/// An answer with the same content as a right one is right.
proof fn lemma_resolved_like_matches(
    store: HierarchyStore,
    config: InheritanceConfig,
    a: ResolvedPermissions,
    b: ResolvedPermissions,
    user_id: u128,
    kind: ResourceKind,
    resource_id: u128,
)
    requires
        resolved_like(a, b),
        resolved_matches(store, config, a, user_id, kind, resource_id),
    ensures
        resolved_matches(store, config, b, user_id, kind, resource_id),
{
    assert(views_of(b.direct_permissions@) == direct_tokens_seq(store, kind, resource_id, user_id));
    let cs = spec_contributions(store, config, user_id, kind, resource_id);
    assert forall|k: int| 0 <= k < cs.len() implies {
        let info = #[trigger] b.inherited_permissions@[k];
        let row = store.member(kind, cs[k].0, user_id);
        &&& info.source_id == cs[k].0
        &&& info.depth as int == cs[k].1
        &&& info.source_type == kind
        &&& info.from_role == row.role
        &&& info.permissions@ == row.permissions@
    } by {
        assert(info_like(a.inherited_permissions@[k], b.inherited_permissions@[k]));
    }
}

impl InheritedPermissionInfo {
    /// Deep copy carrying the same content as the original.
    pub fn duplicate(&self) -> (r: InheritedPermissionInfo)
        ensures
            info_like(r, *self),
    {
        InheritedPermissionInfo {
            source_id: self.source_id,
            source_type: self.source_type,
            permissions: duplicate_strings(&self.permissions),
            depth: self.depth,
            from_role: self.from_role,
        }
    }
}

/// Copies a list of contribution records element for element.
fn duplicate_infos(v: &Vec<InheritedPermissionInfo>) -> (r: Vec<InheritedPermissionInfo>)
    ensures
        r@.len() == v@.len(),
        forall|k: int| 0 <= k < v@.len() ==> info_like(#[trigger] r@[k], #[trigger] v@[k]),
{
    let mut r: Vec<InheritedPermissionInfo> = Vec::new();
    let mut i: usize = 0;
    while i < v.len()
        invariant
            0 <= i <= v@.len(),
            r@.len() == i,
            forall|k: int| 0 <= k < i ==> info_like(#[trigger] r@[k], #[trigger] v@[k]),
        decreases v@.len() - i,
    {
        r.push(v[i].duplicate());
        i = i + 1;
    }
    r
}

impl ResolvedPermissions {
    /// Deep copy carrying the same content as the original.
    pub fn duplicate(&self) -> (r: ResolvedPermissions)
        ensures
            resolved_like(*self, r),
    {
        ResolvedPermissions {
            user_id: self.user_id,
            resource_id: self.resource_id,
            resource_type: self.resource_type,
            direct_permissions: duplicate_strings(&self.direct_permissions),
            inherited_permissions: duplicate_infos(&self.inherited_permissions),
            effective_permissions: duplicate_strings(&self.effective_permissions),
            role: self.role,
        }
    }
}

/// One cached answer.
pub struct CacheEntry {
    pub user_id: u128,
    pub resource_id: u128,
    pub kind: ResourceKind,
    pub value: ResolvedPermissions,
}

/// The resolver: a hierarchy store, a configuration, and a cache of
/// answers that is dropped whenever a write could change one.
pub struct InheritanceEngine {
    pub store: HierarchyStore,
    pub config: InheritanceConfig,
    pub cache: Vec<CacheEntry>,
}

impl InheritanceEngine {
    /// Internal invariant: the store is well formed and every cached
    /// answer is the one the current store and configuration give.
    pub open spec fn wf(self) -> bool {
        &&& self.store.wf()
        &&& forall|i: int|
            0 <= i < self.cache@.len() ==> resolved_matches(
                self.store,
                self.config,
                (#[trigger] self.cache@[i]).value,
                self.cache@[i].user_id,
                self.cache@[i].kind,
                self.cache@[i].resource_id,
            )
    }

    /// A resolver over a store, with the given configuration or the
    /// default one.
    pub fn new(store: HierarchyStore, config: Option<InheritanceConfig>) -> (r: InheritanceEngine)
        requires
            store.wf(),
        ensures
            r.wf(),
            r.store == store,
            match config {
                Some(c) => r.config == c,
                None => r.config.enabled == true && r.config.max_depth == 5,
            },
    {
        let config = match config {
            Some(c) => c,
            None => InheritanceConfig::default(),
        };
        InheritanceEngine { store, config, cache: Vec::new() }
    }

    /// Every contribution a user inherits on a resource: one record per
    /// contributing ancestor, in discovery order.
    pub fn get_inherited_permissions(
        &self,
        user_id: u128,
        resource_id: u128,
        resource_type: ResourceKind,
    ) -> (r: Vec<InheritedPermissionInfo>)
        requires
            self.wf(),
        ensures
            infos_match(
                r@,
                spec_contributions(self.store, self.config, user_id, resource_type, resource_id),
                self.store,
                resource_type,
                user_id,
            ),
    {
        let ghost pairs_total = spec_ancestors(self.store, self.config, resource_type, resource_id);
        let ghost cfilter = contrib_filter(self.store, resource_type, user_id);
        let budget: i64 = if self.config.enabled && self.config.max_depth > 0 {
            self.config.max_depth as i64
        } else {
            0
        };
        let mut frontier: Vec<u128> = Vec::new();
        frontier.push(resource_id);
        let mut seen: Vec<u128> = Vec::new();
        seen.push(resource_id);
        let mut infos: Vec<InheritedPermissionInfo> = Vec::new();
        let mut d: i64 = 1;
        let ghost mut pairs_done: Seq<(u128, int)> = Seq::empty();
        proof {
            reveal(Seq::filter);
            assert(frontier@ =~= seq![resource_id]);
            assert(seen@ =~= seq![resource_id]);
            assert(pairs_total == pairs_done + spec_ancestor_pairs(
                self.store,
                resource_type,
                frontier@,
                seen@,
                1,
                depth_budget(self.config),
            ));
            assert(infos_match(infos@, pairs_done.filter(cfilter), self.store, resource_type, user_id));
        }
        while d <= budget && frontier.len() > 0
            invariant
                self.wf(),
                1 <= d <= budget + 1,
                budget as int == depth_budget(self.config),
                cfilter == contrib_filter(self.store, resource_type, user_id),
                pairs_total == pairs_done + spec_ancestor_pairs(
                    self.store,
                    resource_type,
                    frontier@,
                    seen@,
                    d as int,
                    (budget + 1 - d) as nat,
                ),
                infos_match(
                    infos@,
                    pairs_done.filter(cfilter),
                    self.store,
                    resource_type,
                    user_id,
                ),
            decreases budget + 1 - d,
        {
            let next = next_level_exec(&self.store, resource_type, &frontier, &mut seen);
            let ghost level_pairs = next@.map_values(|n: u128| (n, d as int));
            let mut j: usize = 0;
            while j < next.len()
                invariant
                    0 <= j <= next@.len(),
                    self.wf(),
                    1 <= d <= i32::MAX as i64,
                    cfilter == contrib_filter(self.store, resource_type, user_id),
                    level_pairs == next@.map_values(|n: u128| (n, d as int)),
                    infos_match(
                        infos@,
                        (pairs_done + level_pairs.take(j as int)).filter(cfilter),
                        self.store,
                        resource_type,
                        user_id,
                    ),
                decreases next@.len() - j,
            {
                let ghost done_before = pairs_done + level_pairs.take(j as int);
                let ghost pair = level_pairs[j as int];
                proof {
                    reveal(Seq::filter);
                    assert(pair == (next@[j as int], d as int));
                    let t1 = pairs_done + level_pairs.take(j as int + 1);
                    assert(t1.drop_last() =~= done_before);
                    assert(t1.last() == pair);
                    assert(t1.filter(cfilter) == if cfilter(pair) {
                        done_before.filter(cfilter).push(pair)
                    } else {
                        done_before.filter(cfilter)
                    });
                }
                let node = next[j];
                match self.store.direct_permissions(resource_type, node, user_id) {
                    Some(p) => {
                        let (role, toks) = p;
                        if toks.len() > 0 {
                            proof {
                                assert(contributes(self.store, resource_type, user_id, node));
                            }
                            infos.push(
                                InheritedPermissionInfo {
                                    source_id: node,
                                    source_type: resource_type,
                                    permissions: toks,
                                    depth: d as i32,
                                    from_role: role,
                                },
                            );
                        } else {
                            proof {
                                assert(!contributes(self.store, resource_type, user_id, node));
                            }
                        }
                    },
                    None => {
                        proof {
                            assert(!contributes(self.store, resource_type, user_id, node));
                        }
                    },
                }
                j = j + 1;
            }
            proof {
                assert(level_pairs.take(next@.len() as int) =~= level_pairs);
                assert((pairs_done + level_pairs) + spec_ancestor_pairs(
                    self.store,
                    resource_type,
                    next@,
                    seen@,
                    d as int + 1,
                    (budget - d) as nat,
                ) =~= pairs_done + (level_pairs + spec_ancestor_pairs(
                    self.store,
                    resource_type,
                    next@,
                    seen@,
                    d as int + 1,
                    (budget - d) as nat,
                )));
                pairs_done = pairs_done + level_pairs;
            }
            frontier = next;
            d = d + 1;
        }
        proof {
            if frontier@.len() == 0 {
                assert(spec_ancestor_pairs(
                    self.store,
                    resource_type,
                    frontier@,
                    seen@,
                    d as int,
                    (budget + 1 - d) as nat,
                ) =~= Seq::<(u128, int)>::empty());
            } else {
                assert((budget + 1 - d) as nat == 0);
                assert(spec_ancestor_pairs(
                    self.store,
                    resource_type,
                    frontier@,
                    seen@,
                    d as int,
                    0,
                ) =~= Seq::<(u128, int)>::empty());
            }
            assert(pairs_total =~= pairs_done + Seq::<(u128, int)>::empty());
            assert(pairs_total =~= pairs_done);
        }
        infos
    }

    /// Finds the position of a cached answer.
    fn find_cache(&self, user_id: u128, resource_id: u128, kind: ResourceKind) -> (r: Option<usize>)
        ensures
            match r {
                Some(i) => i < self.cache@.len() && self.cache@[i as int].user_id == user_id
                    && self.cache@[i as int].resource_id == resource_id && self.cache@[
                i as int].kind == kind,
                None => true,
            },
    {
        let mut i: usize = 0;
        while i < self.cache.len()
            invariant
                0 <= i <= self.cache@.len(),
            decreases self.cache@.len() - i,
        {
            let e = &self.cache[i];
            if e.user_id == user_id && e.resource_id == resource_id && e.kind == kind {
                return Some(i);
            }
            i = i + 1;
        }
        None
    }

    /// The highest role among contribution records, viewer when there are
    /// none.
    fn max_inherited_role(inherited: &Vec<InheritedPermissionInfo>) -> (r: TeamRole)
        ensures
            r == max_info_role(inherited@),
    {
        let mut cur = TeamRole::Viewer;
        let mut k: usize = 0;
        proof {
            assert(inherited@.take(0) =~= Seq::<InheritedPermissionInfo>::empty());
        }
        while k < inherited.len()
            invariant
                0 <= k <= inherited@.len(),
                cur == max_info_role(inherited@.take(k as int)),
            decreases inherited@.len() - k,
        {
            proof {
                assert(inherited@.take(k as int + 1).drop_last() =~= inherited@.take(k as int));
                assert(inherited@.take(k as int + 1).last() == inherited@[k as int]);
            }
            cur = cur.max_role(inherited[k].from_role);
            k = k + 1;
        }
        proof {
            assert(inherited@.take(inherited@.len() as int) =~= inherited@);
        }
        cur
    }

    /// Resolves a user's permissions on a resource: the direct grant, the
    /// inherited contributions, their sorted merged token set, and the
    /// resolved role. Cached per `(user, resource, kind)`; a hit returns a
    /// copy of the cached answer, which the invariant keeps equal to what
    /// a fresh walk would give.
    pub fn resolve_permissions(
        &mut self,
        user_id: u128,
        resource_id: u128,
        resource_type: ResourceKind,
    ) -> (r: ResolvedPermissions)
        requires
            old(self).wf(),
        ensures
            final(self).wf(),
            final(self).store == old(self).store,
            final(self).config == old(self).config,
            resolved_matches(
                old(self).store,
                old(self).config,
                r,
                user_id,
                resource_type,
                resource_id,
            ),
    {
        match self.find_cache(user_id, resource_id, resource_type) {
            Some(i) => {
                let r = self.cache[i].value.duplicate();
                proof {
                    lemma_resolved_like_matches(
                        self.store,
                        self.config,
                        self.cache@[i as int].value,
                        r,
                        user_id,
                        resource_type,
                        resource_id,
                    );
                }
                return r;
            },
            None => {},
        }
        let direct = self.store.direct_permissions(resource_type, resource_id, user_id);
        let (direct_role, direct_perms, has_direct): (TeamRole, Vec<String>, bool) = match direct {
            Some(p) => (p.0, p.1, true),
            None => (TeamRole::Viewer, Vec::new(), false),
        };
        let inherited = self.get_inherited_permissions(user_id, resource_id, resource_type);
        let effective = merge_permissions(&direct_perms, &inherited);
        let role = if has_direct {
            direct_role
        } else {
            Self::max_inherited_role(&inherited)
        };
        proof {
            let cs = spec_contributions(
                self.store,
                self.config,
                user_id,
                resource_type,
                resource_id,
            );
            lemma_infos_union_matches(inherited@, cs, self.store, resource_type, user_id);
            if has_direct {
                assert(direct_perms@ == self.store.member(
                    resource_type,
                    resource_id,
                    user_id,
                ).permissions@);
                assert(views_of(direct_perms@) =~= direct_tokens_seq(
                    self.store,
                    resource_type,
                    resource_id,
                    user_id,
                ));
            } else {
                assert(views_of(direct_perms@) =~= Seq::<Seq<char>>::empty());
                assert(string_set(direct_perms@) =~= Set::<Seq<char>>::empty());
                assert(string_set(direct_perms@) =~= direct_token_set(
                    self.store,
                    resource_type,
                    resource_id,
                    user_id,
                ));
            }
        }
        let rp = ResolvedPermissions {
            user_id,
            resource_id,
            resource_type,
            direct_permissions: direct_perms,
            inherited_permissions: inherited,
            effective_permissions: effective,
            role,
        };
        let copy = rp.duplicate();
        proof {
            lemma_resolved_like_matches(
                self.store,
                self.config,
                rp,
                copy,
                user_id,
                resource_type,
                resource_id,
            );
        }
        self.cache.push(CacheEntry { user_id, resource_id, kind: resource_type, value: copy });
        rp
    }

    /// Whether the user's effective permissions on the resource include
    /// the given token.
    pub fn has_permission(
        &mut self,
        user_id: u128,
        resource_id: u128,
        resource_type: ResourceKind,
        permission: &str,
    ) -> (r: bool)
        requires
            old(self).wf(),
        ensures
            final(self).wf(),
            final(self).store == old(self).store,
            final(self).config == old(self).config,
            r == spec_effective(
                old(self).store,
                old(self).config,
                user_id,
                resource_type,
                resource_id,
            ).contains(permission@),
    {
        let resolved = self.resolve_permissions(user_id, resource_id, resource_type);
        contains_string(&resolved.effective_permissions, permission)
    }

    /// Drops every cached answer.
    pub fn clear_cache(&mut self)
        requires
            old(self).wf(),
        ensures
            final(self).wf(),
            final(self).store == old(self).store,
            final(self).config == old(self).config,
            final(self).cache@.len() == 0,
    {
        self.cache.clear();
    }

    /// Drops exactly the cached answers for one `(user, resource)` pair,
    /// keeping every other entry in place.
    pub fn clear_cache_for_resource(&mut self, user_id: u128, resource_id: u128)
        requires
            old(self).wf(),
        ensures
            final(self).wf(),
            final(self).store == old(self).store,
            final(self).config == old(self).config,
            final(self).cache@ == old(self).cache@.filter(cache_keep(user_id, resource_id)),
            forall|k: int|
                0 <= k < final(self).cache@.len() ==> !((#[trigger] final(self).cache@[k]).user_id
                    == user_id && final(self).cache@[k].resource_id == resource_id),
    {
        let ghost orig = self.cache@;
        let ghost pred = cache_keep(user_id, resource_id);
        let mut kept: Vec<CacheEntry> = Vec::new();
        let ghost mut i: int = 0;
        proof {
            reveal(Seq::filter);
            assert(kept@ =~= orig.take(0).filter(pred));
            assert(self.cache@ =~= orig.skip(0));
        }
        while self.cache.len() > 0
            invariant
                0 <= i <= orig.len(),
                orig == old(self).cache@,
                old(self).wf(),
                pred == cache_keep(user_id, resource_id),
                self.store == old(self).store,
                self.config == old(self).config,
                self.cache@ == orig.skip(i),
                kept@ == orig.take(i).filter(pred),
            decreases self.cache@.len(),
        {
            proof {
                reveal(Seq::filter);
                let t1 = orig.take(i + 1);
                assert(t1.drop_last() =~= orig.take(i));
                assert(t1.last() == orig[i]);
                assert(orig.skip(i)[0] == orig[i]);
                assert(t1.filter(pred) == if pred(t1.last()) {
                    orig.take(i).filter(pred).push(orig[i])
                } else {
                    orig.take(i).filter(pred)
                });
            }
            let e = self.cache.remove(0);
            proof {
                assert(self.cache@ =~= orig.skip(i + 1));
            }
            if !(e.user_id == user_id && e.resource_id == resource_id) {
                kept.push(e);
            }
            proof {
                i = i + 1;
            }
        }
        proof {
            assert(orig.take(orig.len() as int) =~= orig);
        }
        core::mem::swap(&mut self.cache, &mut kept);
        proof {
            broadcast use vstd::seq_lib::group_filter_ensures;

            lemma_filter_subset(orig, pred);
            assert forall|k: int|
                0 <= k < self.cache@.len() implies resolved_matches(
                self.store,
                self.config,
                (#[trigger] self.cache@[k]).value,
                self.cache@[k].user_id,
                self.cache@[k].kind,
                self.cache@[k].resource_id,
            ) by {
                assert(self.cache@.contains(self.cache@[k]));
                assert(orig.contains(self.cache@[k]));
                let j = choose|j: int| 0 <= j < orig.len() && orig[j] == self.cache@[k];
                assert(resolved_matches(
                    old(self).store,
                    old(self).config,
                    orig[j].value,
                    orig[j].user_id,
                    orig[j].kind,
                    orig[j].resource_id,
                ));
            }
            assert forall|k: int|
                0 <= k < self.cache@.len() implies !((#[trigger] self.cache@[k]).user_id == user_id
                && self.cache@[k].resource_id == resource_id) by {
                assert(pred(self.cache@[k]));
            }
        }
    }
}

/// The predicate keeping every cache entry that is not for the given
/// `(user, resource)` pair.
pub open spec fn cache_keep(user_id: u128, resource_id: u128) -> spec_fn(CacheEntry) -> bool {
    |e: CacheEntry| !(e.user_id == user_id && e.resource_id == resource_id)
}


/// Membership in a concatenation is membership in either part.
proof fn lemma_concat_contains(a: Seq<u128>, b: Seq<u128>, x: u128)
    ensures
        (a + b).contains(x) == (a.contains(x) || b.contains(x)),
{
    if a.contains(x) {
        let i = choose|i: int| 0 <= i < a.len() && a[i] == x;
        assert((a + b)[i] == x);
    }
    if b.contains(x) {
        let i = choose|i: int| 0 <= i < b.len() && b[i] == x;
        assert((a + b)[a.len() + i] == x);
    }
    if (a + b).contains(x) {
        let i = choose|i: int| 0 <= i < (a + b).len() && (a + b)[i] == x;
        if i < a.len() {
            assert(a[i] == x);
        } else {
            assert(b[i - a.len()] == x);
        }
    }
}

/// Elements kept by a filter come from the sequence.
proof fn lemma_filter_subset<A>(s: Seq<A>, pred: spec_fn(A) -> bool)
    ensures
        forall|x: A| #[trigger] s.filter(pred).contains(x) ==> s.contains(x),
    decreases s.len(),
{
    reveal(Seq::filter);
    if s.len() > 0 {
        lemma_filter_subset(s.drop_last(), pred);
        assert forall|x: A| #[trigger] s.filter(pred).contains(x) implies s.contains(x) by {
            let f = s.filter(pred);
            let sub = s.drop_last().filter(pred);
            let i = choose|i: int| 0 <= i < f.len() && f[i] == x;
            if pred(s.last()) && i == f.len() - 1 {
                assert(s[s.len() - 1] == x);
            } else {
                assert(sub[i] == x);
                assert(sub.contains(x));
                assert(s.drop_last().contains(x));
                let j = choose|j: int| 0 <= j < s.drop_last().len() && s.drop_last()[j] == x;
                assert(s[j] == x);
            }
        }
    }
}

/// The new elements are new: not seen before, and pairwise distinct.
proof fn lemma_dedup_new_distinct(xs: Seq<u128>, seen: Seq<u128>)
    ensures
        forall|i: int|
            0 <= i < dedup_new(xs, seen).len() ==> !seen.contains(#[trigger] dedup_new(xs, seen)[i]),
        forall|i: int, j: int|
            0 <= i < j < dedup_new(xs, seen).len() ==> dedup_new(xs, seen)[i] != dedup_new(
                xs,
                seen,
            )[j],
    decreases xs.len(),
{
    if xs.len() > 0 {
        if seen.contains(xs[0]) {
            lemma_dedup_new_distinct(xs.skip(1), seen);
            assert(dedup_new(xs, seen) == dedup_new(xs.skip(1), seen));
        } else {
            lemma_dedup_new_distinct(xs.skip(1), seen.push(xs[0]));
            let rest = dedup_new(xs.skip(1), seen.push(xs[0]));
            let d = dedup_new(xs, seen);
            assert(d == seq![xs[0]] + rest);
            assert(d[0] == xs[0]);
            assert forall|i: int| 0 <= i < d.len() implies !seen.contains(#[trigger] d[i]) by {
                if i > 0 {
                    assert(d[i] == rest[i - 1]);
                    assert(!seen.push(xs[0]).contains(rest[i - 1]));
                    if seen.contains(rest[i - 1]) {
                        let k = choose|k: int| 0 <= k < seen.len() && seen[k] == rest[i - 1];
                        assert(seen.push(xs[0])[k] == rest[i - 1]);
                    }
                }
            }
            assert forall|i: int, j: int| 0 <= i < j < d.len() implies d[i] != d[j] by {
                if i == 0 {
                    assert(d[j] == rest[j - 1]);
                    assert(!seen.push(xs[0]).contains(rest[j - 1]));
                    assert(seen.push(xs[0])[seen.len() as int] == xs[0]);
                    if rest[j - 1] == xs[0] {
                        assert(seen.push(xs[0]).contains(rest[j - 1]));
                    }
                } else {
                    assert(d[i] == rest[i - 1] && d[j] == rest[j - 1]);
                }
            }
        }
    }
}

/// A level's nodes are new and pairwise distinct.
proof fn lemma_next_level_distinct(
    store: HierarchyStore,
    kind: ResourceKind,
    frontier: Seq<u128>,
    seen: Seq<u128>,
)
    ensures
        forall|i: int|
            0 <= i < spec_next_level(store, kind, frontier, seen).len() ==> !seen.contains(
                #[trigger] spec_next_level(store, kind, frontier, seen)[i],
            ),
        forall|i: int, j: int|
            0 <= i < j < spec_next_level(store, kind, frontier, seen).len() ==> spec_next_level(
                store,
                kind,
                frontier,
                seen,
            )[i] != spec_next_level(store, kind, frontier, seen)[j],
    decreases frontier.len(),
{
    if frontier.len() > 0 {
        let parents = spec_parents(store, kind, frontier[0]);
        let firsts = dedup_new(parents, seen);
        let rest = spec_next_level(store, kind, frontier.skip(1), seen + firsts);
        let nl = spec_next_level(store, kind, frontier, seen);
        assert(nl == firsts + rest);
        lemma_dedup_new_distinct(parents, seen);
        lemma_next_level_distinct(store, kind, frontier.skip(1), seen + firsts);
        assert forall|i: int| 0 <= i < nl.len() implies !seen.contains(#[trigger] nl[i]) by {
            if i < firsts.len() {
                assert(nl[i] == firsts[i]);
            } else {
                assert(nl[i] == rest[i - firsts.len()]);
                lemma_concat_contains(seen, firsts, rest[i - firsts.len()]);
            }
        }
        assert forall|i: int, j: int| 0 <= i < j < nl.len() implies nl[i] != nl[j] by {
            if j < firsts.len() {
                assert(nl[i] == firsts[i] && nl[j] == firsts[j]);
            } else if i < firsts.len() {
                assert(nl[i] == firsts[i] && nl[j] == rest[j - firsts.len()]);
                lemma_concat_contains(seen, firsts, rest[j - firsts.len()]);
                if firsts[i] == rest[j - firsts.len()] {
                    assert(firsts.contains(rest[j - firsts.len()]));
                }
            } else {
                assert(nl[i] == rest[i - firsts.len()] && nl[j] == rest[j - firsts.len()]);
            }
        }
    }
}

/// Discovered ancestors are new, pairwise distinct, and lie within the
/// depth window.
proof fn lemma_pairs_distinct(
    store: HierarchyStore,
    kind: ResourceKind,
    frontier: Seq<u128>,
    seen: Seq<u128>,
    d: int,
    budget: nat,
)
    ensures
        forall|i: int|
            0 <= i < spec_ancestor_pairs(store, kind, frontier, seen, d, budget).len()
                ==> !seen.contains(
                (#[trigger] spec_ancestor_pairs(store, kind, frontier, seen, d, budget)[i]).0,
            ) && d <= spec_ancestor_pairs(store, kind, frontier, seen, d, budget)[i].1 < d
                + budget,
        forall|i: int, j: int|
            0 <= i < j < spec_ancestor_pairs(store, kind, frontier, seen, d, budget).len()
                ==> spec_ancestor_pairs(store, kind, frontier, seen, d, budget)[i].0
                != spec_ancestor_pairs(store, kind, frontier, seen, d, budget)[j].0,
    decreases budget,
{
    if budget > 0 && frontier.len() > 0 {
        let next = spec_next_level(store, kind, frontier, seen);
        let mapped = next.map_values(|n: u128| (n, d));
        let rest = spec_ancestor_pairs(store, kind, next, seen + next, d + 1, (budget - 1) as nat);
        let ps = spec_ancestor_pairs(store, kind, frontier, seen, d, budget);
        assert(ps == mapped + rest);
        lemma_next_level_distinct(store, kind, frontier, seen);
        lemma_pairs_distinct(store, kind, next, seen + next, d + 1, (budget - 1) as nat);
        assert forall|i: int|
            0 <= i < ps.len() implies !seen.contains((#[trigger] ps[i]).0) && d <= ps[i].1 < d
            + budget by {
            if i < mapped.len() {
                assert(ps[i] == mapped[i]);
                assert(mapped[i] == (next[i], d));
            } else {
                assert(ps[i] == rest[i - mapped.len()]);
                lemma_concat_contains(seen, next, rest[i - mapped.len()].0);
            }
        }
        assert forall|i: int, j: int| 0 <= i < j < ps.len() implies ps[i].0 != ps[j].0 by {
            if j < mapped.len() {
                assert(ps[i] == mapped[i] && ps[j] == mapped[j]);
                assert(mapped[i] == (next[i], d) && mapped[j] == (next[j], d));
            } else if i < mapped.len() {
                assert(ps[i] == mapped[i] && ps[j] == rest[j - mapped.len()]);
                assert(mapped[i] == (next[i], d));
                lemma_concat_contains(seen, next, rest[j - mapped.len()].0);
                if next[i] == rest[j - mapped.len()].0 {
                    assert(next.contains(rest[j - mapped.len()].0));
                }
            } else {
                assert(ps[i] == rest[i - mapped.len()] && ps[j] == rest[j - mapped.len()]);
            }
        }
    }
}

/// A filter of pairs with pairwise-distinct sources keeps them pairwise
/// distinct.
proof fn lemma_filter_pairs_distinct(s: Seq<(u128, int)>, pred: spec_fn((u128, int)) -> bool)
    requires
        forall|i: int, j: int| 0 <= i < j < s.len() ==> (#[trigger] s[i]).0 != (#[trigger] s[j]).0,
    ensures
        forall|i: int, j: int|
            0 <= i < j < s.filter(pred).len() ==> (#[trigger] s.filter(pred)[i]).0 != (
            #[trigger] s.filter(pred)[j]).0,
    decreases s.len(),
{
    reveal(Seq::filter);
    if s.len() > 0 {
        lemma_filter_pairs_distinct(s.drop_last(), pred);
        lemma_filter_subset(s.drop_last(), pred);
        let f = s.filter(pred);
        let sub = s.drop_last().filter(pred);
        assert forall|i: int, j: int| 0 <= i < j < f.len() implies (#[trigger] f[i]).0 != (
        #[trigger] f[j]).0 by {
            if pred(s.last()) && j == f.len() - 1 {
                assert(f[i] == sub[i]);
                assert(sub.contains(sub[i]));
                assert(s.drop_last().contains(sub[i]));
                let k = choose|k: int|
                    0 <= k < s.drop_last().len() && s.drop_last()[k] == sub[i];
                assert(s[k] == sub[i]);
                assert(s[k].0 != s[s.len() - 1].0);
            } else {
                assert(f[i] == sub[i] && f[j] == sub[j]);
            }
        }
    }
}

/// Depth bound: every contribution a user inherits lies between one and
/// the configured maximum depth.
pub proof fn lemma_contribution_depth_bound(
    store: HierarchyStore,
    config: InheritanceConfig,
    user_id: u128,
    kind: ResourceKind,
    resource_id: u128,
)
    ensures
        forall|k: int|
            0 <= k < spec_contributions(store, config, user_id, kind, resource_id).len() ==> 1 <= (
            #[trigger] spec_contributions(store, config, user_id, kind, resource_id)[k]).1
                <= config.max_depth,
{
    let pairs = spec_ancestors(store, config, kind, resource_id);
    let cs = spec_contributions(store, config, user_id, kind, resource_id);
    lemma_pairs_distinct(
        store,
        kind,
        seq![resource_id],
        seq![resource_id],
        1,
        depth_budget(config),
    );
    lemma_filter_subset(pairs, contrib_filter(store, kind, user_id));
    assert forall|k: int| 0 <= k < cs.len() implies 1 <= (#[trigger] cs[k]).1
        <= config.max_depth by {
        assert(cs.contains(cs[k]));
        assert(pairs.contains(cs[k]));
        let i = choose|i: int| 0 <= i < pairs.len() && pairs[i] == cs[k];
        assert(1 <= pairs[i].1 < 1 + depth_budget(config));
    }
}

/// Cycle safety: however the edges loop, no ancestor contributes twice.
pub proof fn lemma_contributions_distinct(
    store: HierarchyStore,
    config: InheritanceConfig,
    user_id: u128,
    kind: ResourceKind,
    resource_id: u128,
)
    ensures
        forall|i: int, j: int|
            0 <= i < j < spec_contributions(store, config, user_id, kind, resource_id).len() ==> (
            #[trigger] spec_contributions(store, config, user_id, kind, resource_id)[i]).0 != (
            #[trigger] spec_contributions(store, config, user_id, kind, resource_id)[j]).0,
{
    let pairs = spec_ancestors(store, config, kind, resource_id);
    lemma_pairs_distinct(
        store,
        kind,
        seq![resource_id],
        seq![resource_id],
        1,
        depth_budget(config),
    );
    lemma_filter_pairs_distinct(pairs, contrib_filter(store, kind, user_id));
}

/// A token is in the union exactly when some listed source grants it.
proof fn lemma_union_contains(
    store: HierarchyStore,
    kind: ResourceKind,
    user_id: u128,
    cs: Seq<(u128, int)>,
    t: Seq<char>,
)
    ensures
        contrib_token_union(store, kind, user_id, cs).contains(t) <==> exists|k: int|
            0 <= k < cs.len() && string_set(
                store.member(kind, (#[trigger] cs[k]).0, user_id).permissions@,
            ).contains(t),
    decreases cs.len(),
{
    if cs.len() > 0 {
        lemma_union_contains(store, kind, user_id, cs.drop_last(), t);
        if contrib_token_union(store, kind, user_id, cs).contains(t) {
            if contrib_token_union(store, kind, user_id, cs.drop_last()).contains(t) {
                let k = choose|k: int|
                    0 <= k < cs.drop_last().len() && string_set(
                        store.member(kind, (#[trigger] cs.drop_last()[k]).0, user_id).permissions@,
                    ).contains(t);
                assert(cs[k] == cs.drop_last()[k]);
                assert(string_set(store.member(kind, cs[k].0, user_id).permissions@).contains(t));
            } else {
                assert(string_set(
                    store.member(kind, cs[cs.len() - 1].0, user_id).permissions@,
                ).contains(t));
            }
        }
        if exists|k: int|
            0 <= k < cs.len() && string_set(
                store.member(kind, (#[trigger] cs[k]).0, user_id).permissions@,
            ).contains(t) {
            let k = choose|k: int|
                0 <= k < cs.len() && string_set(
                    store.member(kind, (#[trigger] cs[k]).0, user_id).permissions@,
                ).contains(t);
            if k < cs.len() - 1 {
                assert(cs.drop_last()[k] == cs[k]);
            }
        }
    }
}

/// One store extends another: the edges are the same, and every direct
/// row is kept with at least its old tokens.
pub open spec fn store_extends(s1: HierarchyStore, s2: HierarchyStore) -> bool {
    &&& s2.edges@ == s1.edges@
    &&& forall|k: ResourceKind, r: u128, u: u128|
        #[trigger] s1.has_member(k, r, u) ==> s2.has_member(k, r, u) && string_set(
            s1.member(k, r, u).permissions@,
        ).subset_of(string_set(s2.member(k, r, u).permissions@))
}

/// Stores with the same edges discover the same ancestors.
proof fn lemma_next_level_same_edges(
    s1: HierarchyStore,
    s2: HierarchyStore,
    kind: ResourceKind,
    frontier: Seq<u128>,
    seen: Seq<u128>,
)
    requires
        s1.edges@ == s2.edges@,
    ensures
        spec_next_level(s1, kind, frontier, seen) == spec_next_level(s2, kind, frontier, seen),
    decreases frontier.len(),
{
    if frontier.len() > 0 {
        assert(spec_parents(s1, kind, frontier[0]) == spec_parents(s2, kind, frontier[0]));
        let firsts = dedup_new(spec_parents(s1, kind, frontier[0]), seen);
        lemma_next_level_same_edges(s1, s2, kind, frontier.skip(1), seen + firsts);
    }
}

/// Stores with the same edges discover the same ancestor pairs.
proof fn lemma_pairs_same_edges(
    s1: HierarchyStore,
    s2: HierarchyStore,
    kind: ResourceKind,
    frontier: Seq<u128>,
    seen: Seq<u128>,
    d: int,
    budget: nat,
)
    requires
        s1.edges@ == s2.edges@,
    ensures
        spec_ancestor_pairs(s1, kind, frontier, seen, d, budget) == spec_ancestor_pairs(
            s2,
            kind,
            frontier,
            seen,
            d,
            budget,
        ),
    decreases budget,
{
    if budget > 0 && frontier.len() > 0 {
        lemma_next_level_same_edges(s1, s2, kind, frontier, seen);
        let next = spec_next_level(s1, kind, frontier, seen);
        lemma_pairs_same_edges(s1, s2, kind, next, seen + next, d + 1, (budget - 1) as nat);
    }
}

/// Monotonicity of tokens: extending a store — in particular, adding a
/// direct permission — never shrinks anyone's effective token set on any
/// resource.
pub proof fn lemma_token_monotonicity(
    s1: HierarchyStore,
    s2: HierarchyStore,
    config: InheritanceConfig,
    user_id: u128,
    kind: ResourceKind,
    resource_id: u128,
)
    requires
        s1.wf(),
        s2.wf(),
        store_extends(s1, s2),
    ensures
        spec_effective(s1, config, user_id, kind, resource_id).subset_of(
            spec_effective(s2, config, user_id, kind, resource_id),
        ),
{
    lemma_pairs_same_edges(
        s1,
        s2,
        kind,
        seq![resource_id],
        seq![resource_id],
        1,
        depth_budget(config),
    );
    let pairs = spec_ancestors(s1, config, kind, resource_id);
    assert(spec_ancestors(s2, config, kind, resource_id) == pairs);
    let f1 = contrib_filter(s1, kind, user_id);
    let f2 = contrib_filter(s2, kind, user_id);
    let cs1 = pairs.filter(f1);
    let cs2 = pairs.filter(f2);
    lemma_filter_subset(pairs, f1);
    assert forall|t: Seq<char>|
        spec_effective(s1, config, user_id, kind, resource_id).contains(t) implies spec_effective(
        s2,
        config,
        user_id,
        kind,
        resource_id,
    ).contains(t) by {
        broadcast use vstd::seq_lib::group_filter_ensures;

        if direct_token_set(s1, kind, resource_id, user_id).contains(t) {
            assert(direct_token_set(s2, kind, resource_id, user_id).contains(t));
        } else {
            lemma_union_contains(s1, kind, user_id, cs1, t);
            let k = choose|k: int|
                0 <= k < cs1.len() && string_set(
                    s1.member(kind, (#[trigger] cs1[k]).0, user_id).permissions@,
                ).contains(t);
            let node = cs1[k].0;
            assert(cs1.contains(cs1[k]));
            assert(pairs.contains(cs1[k]));
            let i = choose|i: int| 0 <= i < pairs.len() && pairs[i] == cs1[k];
            assert(f1(pairs[i]));
            assert(contributes(s1, kind, user_id, node));
            assert(s1.has_member(kind, node, user_id));
            assert(string_set(s2.member(kind, node, user_id).permissions@).contains(t));
            // a set containing a token is the set of a non-empty row
            assert(s2.member(kind, node, user_id).permissions@.len() > 0) by {
                let m = choose|m: int|
                    0 <= m < s2.member(kind, node, user_id).permissions@.len() && s2.member(
                        kind,
                        node,
                        user_id,
                    ).permissions@[m]@ == t;
            }
            assert(contributes(s2, kind, user_id, node));
            assert(f2(pairs[i]));
            assert(cs2.contains(pairs[i]));
            let k2 = choose|k2: int| 0 <= k2 < cs2.len() && cs2[k2] == pairs[i];
            lemma_union_contains(s2, kind, user_id, cs2, t);
            assert(string_set(s2.member(kind, cs2[k2].0, user_id).permissions@).contains(t));
        }
    }
}

/// Default role: a user who appears in no direct row resolves to viewer
/// with an empty effective token set, on every resource.
pub proof fn lemma_default_role(
    store: HierarchyStore,
    config: InheritanceConfig,
    user_id: u128,
    kind: ResourceKind,
    resource_id: u128,
)
    requires
        store.wf(),
        forall|i: int|
            0 <= i < store.members@.len() ==> (#[trigger] store.members@[i]).user_id != user_id,
    ensures
        spec_effective(store, config, user_id, kind, resource_id) == Set::<Seq<char>>::empty(),
        spec_role(store, config, user_id, kind, resource_id) == TeamRole::Viewer,
{
    assert forall|n: u128| !store.has_member(kind, n, user_id) by {
        if store.has_member(kind, n, user_id) {
            let i = choose|i: int|
                0 <= i < store.members@.len() && (#[trigger] store.members@[i]).kind == kind
                    && store.members@[i].resource_id == n && store.members@[i].user_id == user_id;
        }
    }
    let pairs = spec_ancestors(store, config, kind, resource_id);
    let f = contrib_filter(store, kind, user_id);
    assert forall|i: int| 0 <= i < pairs.len() implies !f(#[trigger] pairs[i]) by {
        assert(!store.has_member(kind, pairs[i].0, user_id));
    }
    pairs.lemma_all_neg_filter_empty(f);
    let cs = spec_contributions(store, config, user_id, kind, resource_id);
    assert(cs.len() == 0);
    assert(spec_effective(store, config, user_id, kind, resource_id) =~= Set::<Seq<char>>::empty());
}


impl InheritanceEngine {
    /// Adds a hierarchy edge; every cached answer is dropped, since any
    /// resolution may now change.
    pub fn add_edge(
        &mut self,
        kind: ResourceKind,
        parent_id: u128,
        child_id: u128,
        inheritance_enabled: bool,
    )
        requires
            old(self).wf(),
        ensures
            final(self).wf(),
            final(self).config == old(self).config,
            final(self).store.edges@ == old(self).store.edges@.push(
                HierarchyEdge { kind, parent_id, child_id, inheritance_enabled },
            ),
            final(self).store.members@ == old(self).store.members@,
    {
        self.cache.clear();
        self.store.add_edge(kind, parent_id, child_id, inheritance_enabled);
    }

    /// Turns inheritance on or off on an edge; every cached answer is
    /// dropped.
    pub fn set_inheritance(
        &mut self,
        kind: ResourceKind,
        parent_id: u128,
        child_id: u128,
        enabled: bool,
    )
        requires
            old(self).wf(),
        ensures
            final(self).wf(),
            final(self).config == old(self).config,
            final(self).store.members@ == old(self).store.members@,
            final(self).store.edges@.len() == old(self).store.edges@.len(),
            forall|i: int|
                0 <= i < old(self).store.edges@.len() ==> {
                    let o = old(self).store.edges@[i];
                    let n = #[trigger] final(self).store.edges@[i];
                    if o.kind == kind && o.parent_id == parent_id && o.child_id == child_id {
                        n == (HierarchyEdge { inheritance_enabled: enabled, ..o })
                    } else {
                        n == o
                    }
                },
    {
        self.cache.clear();
        self.store.set_inheritance(kind, parent_id, child_id, enabled);
    }

    /// Creates or replaces a direct grant; every cached answer is dropped.
    pub fn set_member(
        &mut self,
        kind: ResourceKind,
        resource_id: u128,
        user_id: u128,
        role: TeamRole,
        permissions: Vec<String>,
    )
        requires
            old(self).wf(),
        ensures
            final(self).wf(),
            final(self).config == old(self).config,
            final(self).store.edges@ == old(self).store.edges@,
            final(self).store.has_member(kind, resource_id, user_id),
            final(self).store.member(kind, resource_id, user_id).role == role,
            final(self).store.member(kind, resource_id, user_id).permissions@ == permissions@,
            forall|k2: ResourceKind, r2: u128, u2: u128|
                !(k2 == kind && r2 == resource_id && u2 == user_id) ==> (
                #[trigger] final(self).store.has_member(k2, r2, u2) == old(self).store.has_member(
                    k2,
                    r2,
                    u2,
                ) && (old(self).store.has_member(k2, r2, u2) ==> final(self).store.member(
                    k2,
                    r2,
                    u2,
                ) == old(self).store.member(k2, r2, u2))),
    {
        self.cache.clear();
        self.store.set_member(kind, resource_id, user_id, role, permissions);
        proof {
            let post = self.store;
            let pre = old(self).store;
            assert forall|k2: ResourceKind, r2: u128, u2: u128|
                !(k2 == kind && r2 == resource_id && u2 == user_id) implies (
            #[trigger] post.has_member(k2, r2, u2) == pre.has_member(k2, r2, u2) && (
            pre.has_member(k2, r2, u2) ==> post.member(k2, r2, u2) == pre.member(
                k2,
                r2,
                u2,
            ))) by {
                assert(post.has_member(k2, r2, u2) == pre.has_member(k2, r2, u2));
            }
        }
    }

    /// Adds one permission token to a user's direct grant on a resource,
    /// creating the grant (as a viewer) when none exists; every cached
    /// answer is dropped. The store afterwards extends the store before,
    /// so by monotonicity nobody's effective set shrinks.
    pub fn grant_permission(
        &mut self,
        kind: ResourceKind,
        resource_id: u128,
        user_id: u128,
        token: &str,
    )
        requires
            old(self).wf(),
        ensures
            final(self).wf(),
            final(self).config == old(self).config,
            final(self).store.edges@ == old(self).store.edges@,
            final(self).store.has_member(kind, resource_id, user_id),
            string_set(final(self).store.member(kind, resource_id, user_id).permissions@)
                == direct_token_set(old(self).store, kind, resource_id, user_id).insert(token@),
            final(self).store.member(kind, resource_id, user_id).role == (if old(
                self,
            ).store.has_member(kind, resource_id, user_id) {
                old(self).store.member(kind, resource_id, user_id).role
            } else {
                TeamRole::Viewer
            }),
            store_extends(old(self).store, final(self).store),
    {
        let ghost oldstore = self.store;
        self.cache.clear();
        match self.store.direct_permissions(kind, resource_id, user_id) {
            Some(p) => {
                let (role, mut toks) = p;
                let ghost oldtoks = toks@;
                if !contains_string(&toks, token) {
                    toks.push(token.to_owned());
                    proof {
                        lemma_string_set_push(oldtoks, toks@.last());
                        assert(toks@ =~= oldtoks.push(toks@.last()));
                        assert(string_set(toks@) =~= string_set(oldtoks).insert(token@));
                    }
                } else {
                    proof {
                        assert(string_set(oldtoks).contains(token@));
                        assert(string_set(toks@) =~= string_set(oldtoks).insert(token@));
                    }
                }
                let ghost newtoks = toks@;
                self.store.set_member(kind, resource_id, user_id, role, toks);
                proof {
                    assert(self.store.member(kind, resource_id, user_id).permissions@ == newtoks);
                    assert(string_set(newtoks) == direct_token_set(
                        oldstore,
                        kind,
                        resource_id,
                        user_id,
                    ).insert(token@));
                }
            },
            None => {
                let mut toks: Vec<String> = Vec::new();
                toks.push(token.to_owned());
                proof {
                    assert forall|t: Seq<char>|
                        string_set(toks@).contains(t) == Set::<Seq<char>>::empty().insert(
                            token@,
                        ).contains(t) by {
                        if string_set(toks@).contains(t) {
                            let k = choose|k: int| 0 <= k < toks@.len() && toks@[k]@ == t;
                        }
                        if t == token@ {
                            assert(toks@[0]@ == t);
                        }
                    }
                    assert(string_set(toks@) =~= Set::<Seq<char>>::empty().insert(token@));
                }
                let ghost newtoks = toks@;
                self.store.set_member(kind, resource_id, user_id, TeamRole::Viewer, toks);
                proof {
                    assert(self.store.member(kind, resource_id, user_id).permissions@ == newtoks);
                    assert(string_set(newtoks) == direct_token_set(
                        oldstore,
                        kind,
                        resource_id,
                        user_id,
                    ).insert(token@));
                }
            },
        }
        proof {
            assert forall|k2: ResourceKind, r2: u128, u2: u128|
                #[trigger] oldstore.has_member(k2, r2, u2) implies self.store.has_member(k2, r2, u2)
                && string_set(oldstore.member(k2, r2, u2).permissions@).subset_of(
                string_set(self.store.member(k2, r2, u2).permissions@),
            ) by {
                if !(k2 == kind && r2 == resource_id && u2 == user_id) {
                    assert(self.store.has_member(k2, r2, u2) == oldstore.has_member(k2, r2, u2));
                }
                if k2 == kind && r2 == resource_id && u2 == user_id {
                    assert(string_set(self.store.member(k2, r2, u2).permissions@)
                        == string_set(oldstore.member(k2, r2, u2).permissions@).insert(token@));
                }
            }
        }
    }

    /// The hierarchy below a resource, for operator visualisation: each
    /// node carries its id, a name, the domain, whether it passes anything
    /// on (it has children), and its children over enabled edges. The
    /// descent is bounded by the configured depth, and a node already on
    /// the path from the root is not descended into again, so a cycle
    /// cannot repeat a node within one path.
    pub fn build_hierarchy_tree(
        &self,
        resource_id: u128,
        resource_type: ResourceKind,
        name: &str,
    ) -> (r: HierarchyTree)
        requires
            self.wf(),
        ensures
            r.id == resource_id,
            r.name@ == name@,
            tree_follows(
                r,
                self.store,
                resource_type,
                seq![resource_id],
                tree_depth_budget(self.config),
            ),
    {
        let depth_left: i64 = if self.config.max_depth > 0 {
            self.config.max_depth as i64
        } else {
            0
        };
        let mut path: Vec<u128> = Vec::new();
        path.push(resource_id);
        proof {
            assert(path@ =~= seq![resource_id]);
        }
        build_tree_node(&self.store, resource_type, resource_id, name, &mut path, depth_left)
    }
}

/// How many levels the tree descent may go.
pub open spec fn tree_depth_budget(config: InheritanceConfig) -> nat {
    if config.max_depth > 0 {
        config.max_depth as nat
    } else {
        0
    }
}

/// The predicate keeping child nodes not already on the path from the
/// root.
pub open spec fn off_path(path: Seq<u128>) -> spec_fn(u128) -> bool {
    |c: u128| !path.contains(c)
}

/// The children a node descends into: its children over enabled edges,
/// skipping any node already on the path from the root.
pub open spec fn spec_new_children(
    store: HierarchyStore,
    kind: ResourceKind,
    id: u128,
    path: Seq<u128>,
) -> Seq<u128> {
    spec_children(store, kind, id).filter(off_path(path))
}

/// The whole descent below a node is right: every node carries the
/// domain, marks `permissions_inherited` exactly when it has children,
/// and — down to the remaining depth — its children are exactly its
/// children over enabled edges that are not already on the path from the
/// root (so no node repeats within one path, however the edges loop),
/// each named `child` and itself right one level deeper.
pub open spec fn tree_follows(
    t: HierarchyTree,
    store: HierarchyStore,
    kind: ResourceKind,
    path: Seq<u128>,
    depth_left: nat,
) -> bool
    decreases depth_left,
{
    &&& t.resource_type == kind
    &&& t.permissions_inherited == (t.children@.len() > 0)
    &&& if depth_left == 0 {
        t.children@.len() == 0
    } else {
        let kids = spec_new_children(store, kind, t.id, path);
        &&& t.children@.len() == kids.len()
        &&& forall|k: int|
            0 <= k < kids.len() ==> {
                let c = #[trigger] t.children@[k];
                &&& c.id == kids[k]
                &&& c.name@ == "child"@
                &&& tree_follows(c, store, kind, path.push(kids[k]), (depth_left - 1) as nat)
            }
    }
}

/// One node of the descent: children over enabled edges, skipping nodes
/// already on the path, down to the remaining depth.
fn build_tree_node(
    store: &HierarchyStore,
    kind: ResourceKind,
    id: u128,
    name: &str,
    path: &mut Vec<u128>,
    depth_left: i64,
) -> (r: HierarchyTree)
    requires
        store.wf(),
        depth_left >= 0,
    ensures
        r.id == id,
        r.name@ == name@,
        final(path)@ == old(path)@,
        tree_follows(r, *store, kind, old(path)@, depth_left as nat),
    decreases depth_left,
{
    let ghost path0 = path@;
    let ghost pred = off_path(path0);
    let mut children: Vec<HierarchyTree> = Vec::new();
    if depth_left > 0 {
        let kids = store.children_of(kind, id);
        proof {
            reveal(Seq::filter);
            assert(kids@.take(0).filter(pred) =~= Seq::<u128>::empty());
        }
        let mut i: usize = 0;
        while i < kids.len()
            invariant
                0 <= i <= kids@.len(),
                store.wf(),
                depth_left >= 1,
                path@ == path0,
                pred == off_path(path0),
                kids@ == spec_children(*store, kind, id),
                children@.len() == kids@.take(i as int).filter(pred).len(),
                forall|k: int|
                    0 <= k < children@.len() ==> {
                        let c = #[trigger] children@[k];
                        &&& c.id == kids@.take(i as int).filter(pred)[k]
                        &&& c.name@ == "child"@
                        &&& tree_follows(
                            c,
                            *store,
                            kind,
                            path0.push(kids@.take(i as int).filter(pred)[k]),
                            (depth_left - 1) as nat,
                        )
                    },
            decreases kids@.len() - i,
        {
            proof {
                reveal(Seq::filter);
                let t1 = kids@.take(i as int + 1);
                assert(t1.drop_last() =~= kids@.take(i as int));
                assert(t1.last() == kids@[i as int]);
                assert(t1.filter(pred) == if pred(t1.last()) {
                    kids@.take(i as int).filter(pred).push(t1.last())
                } else {
                    kids@.take(i as int).filter(pred)
                });
            }
            let c = kids[i];
            if !contains_id(path, c) {
                path.push(c);
                let sub = build_tree_node(store, kind, c, "child", path, depth_left - 1);
                path.pop();
                proof {
                    assert(path@ =~= path0);
                }
                children.push(sub);
                proof {
                    let cs = kids@.take(i as int + 1).filter(pred);
                    assert(children@[children@.len() - 1] == sub);
                    assert(cs[cs.len() - 1] == c);
                    assert forall|k: int|
                        0 <= k < children@.len() - 1 implies #[trigger] children@[k]
                        == children@.subrange(0, children@.len() - 1)[k] by {}
                }
            }
            i = i + 1;
        }
        proof {
            assert(kids@.take(kids@.len() as int) =~= kids@);
        }
    }
    let permissions_inherited = children.len() > 0;
    let t = HierarchyTree {
        id,
        name: name.to_owned(),
        resource_type: kind,
        children,
        permissions_inherited,
    };
    proof {
        if depth_left > 0 {
            assert(t.children@.len() == spec_new_children(*store, kind, id, path0).len());
        }
        assert(tree_follows(t, *store, kind, path0, depth_left as nat));
    }
    t
}


impl InheritanceEngine {
    /// Merges direct and inherited tokens into one sorted, duplicate-free
    /// list whose set is exactly the union of what went in.
    pub fn merge_permissions(
        direct: &Vec<String>,
        inherited: &Vec<InheritedPermissionInfo>,
    ) -> (r: Vec<String>)
        ensures
            strictly_sorted(r@),
            string_set(r@) == string_set(direct@).union(infos_token_union(inherited@)),
    {
        merge_permissions(direct, inherited)
    }

    /// The user's direct role on a resource, defaulting to viewer when no
    /// row exists.
    pub fn get_user_role(
        &self,
        user_id: u128,
        resource_id: u128,
        resource_type: ResourceKind,
    ) -> (r: TeamRole)
        requires
            self.wf(),
        ensures
            r == (if self.store.has_member(resource_type, resource_id, user_id) {
                self.store.member(resource_type, resource_id, user_id).role
            } else {
                TeamRole::Viewer
            }),
    {
        match self.store.direct_permissions(resource_type, resource_id, user_id) {
            Some(p) => p.0,
            None => TeamRole::Viewer,
        }
    }
}

} // verus!
