use collab_core::hierarchy::{HierarchyStore, ResourceKind};
use collab_core::rbac::TeamRole;
use collab_core::resolver::{InheritanceConfig, InheritanceEngine, InheritedPermissionInfo};

const USER: u128 = 0xabc;

fn strings(items: &[&str]) -> Vec<String> {
    items.iter().map(|s| s.to_string()).collect()
}

#[test]
fn test_merge_permissions() {
    let direct = vec!["read".to_string(), "write".to_string()];
    let inherited = vec![InheritedPermissionInfo {
        source_id: 0x77,
        source_type: ResourceKind::Team,
        permissions: vec!["admin".to_string(), "read".to_string()],
        depth: 1,
        from_role: TeamRole::Admin,
    }];

    let merged = InheritanceEngine::merge_permissions(&direct, &inherited);
    assert_eq!(merged.len(), 3);
    assert!(merged.contains(&"read".to_string()));
    assert!(merged.contains(&"write".to_string()));
    assert!(merged.contains(&"admin".to_string()));
}

#[test]
fn test_merge_is_sorted_and_deduplicated() {
    let direct = strings(&["write", "read", "read"]);
    let merged = InheritanceEngine::merge_permissions(&direct, &Vec::new());
    assert_eq!(merged, strings(&["read", "write"]));
}

#[test]
fn test_inheritance_scenario() {
    // Child project 1 inherits from parent project 2; the user has a row
    // only on the parent.
    let mut store = HierarchyStore::new();
    store.add_edge(ResourceKind::Project, 2, 1, true);
    store.set_member(
        ResourceKind::Project,
        2,
        USER,
        TeamRole::Member,
        strings(&["read", "write"]),
    );
    let mut engine = InheritanceEngine::new(store, None);

    let resolved = engine.resolve_permissions(USER, 1, ResourceKind::Project);
    assert_eq!(resolved.effective_permissions, strings(&["read", "write"]));
    assert_eq!(resolved.role, TeamRole::Member);
    assert_eq!(resolved.inherited_permissions.len(), 1);
    assert_eq!(resolved.inherited_permissions[0].source_id, 2);
    assert_eq!(resolved.inherited_permissions[0].depth, 1);

    // the same query is answered from the cache
    let again = engine.resolve_permissions(USER, 1, ResourceKind::Project);
    assert_eq!(again.effective_permissions, strings(&["read", "write"]));

    // disabling inheritance on the edge invalidates the cache and empties
    // the answer
    engine.set_inheritance(ResourceKind::Project, 2, 1, false);
    let resolved = engine.resolve_permissions(USER, 1, ResourceKind::Project);
    assert!(resolved.effective_permissions.is_empty());
    assert_eq!(resolved.role, TeamRole::Viewer);
    assert!(resolved.inherited_permissions.is_empty());
}

#[test]
fn test_depth_cap() {
    // chain: P0 <- P1 <- ... <- P6, grant only at P6
    let mut store = HierarchyStore::new();
    for i in 0..6u128 {
        store.add_edge(ResourceKind::Project, i + 1, i, true);
    }
    store.set_member(ResourceKind::Project, 6, USER, TeamRole::Member, strings(&["read"]));

    let shallow = InheritanceConfig {
        enabled: true,
        max_depth: 5,
        cascading_updates: true,
        override_allowed: true,
    };
    let mut engine = InheritanceEngine::new(store, Some(shallow));
    let resolved = engine.resolve_permissions(USER, 0, ResourceKind::Project);
    assert!(resolved.effective_permissions.is_empty());

    let mut store = HierarchyStore::new();
    for i in 0..6u128 {
        store.add_edge(ResourceKind::Project, i + 1, i, true);
    }
    store.set_member(ResourceKind::Project, 6, USER, TeamRole::Member, strings(&["read"]));
    let deep = InheritanceConfig {
        enabled: true,
        max_depth: 6,
        cascading_updates: true,
        override_allowed: true,
    };
    let mut engine = InheritanceEngine::new(store, Some(deep));
    let resolved = engine.resolve_permissions(USER, 0, ResourceKind::Project);
    assert_eq!(resolved.effective_permissions, strings(&["read"]));
    assert_eq!(resolved.inherited_permissions[0].depth, 6);
}

#[test]
fn test_cycle_safety() {
    // edges A -> B and B -> A: the walk terminates and B contributes once
    let mut store = HierarchyStore::new();
    store.add_edge(ResourceKind::Team, 0xb, 0xa, true);
    store.add_edge(ResourceKind::Team, 0xa, 0xb, true);
    store.set_member(ResourceKind::Team, 0xb, USER, TeamRole::Admin, strings(&["read"]));
    let mut engine = InheritanceEngine::new(store, None);

    let resolved = engine.resolve_permissions(USER, 0xa, ResourceKind::Team);
    assert_eq!(resolved.inherited_permissions.len(), 1);
    assert_eq!(resolved.inherited_permissions[0].source_id, 0xb);
    assert_eq!(resolved.effective_permissions, strings(&["read"]));
    assert_eq!(resolved.role, TeamRole::Admin);

    // the tree builder also terminates, with each node at most once per path
    let tree = engine.build_hierarchy_tree(0xa, ResourceKind::Team, "a");
    assert_eq!(tree.id, 0xa);
    assert_eq!(tree.children.len(), 1);
    assert_eq!(tree.children[0].id, 0xb);
    assert!(tree.permissions_inherited);
}

#[test]
fn test_token_monotonicity_concrete() {
    let mut store = HierarchyStore::new();
    store.add_edge(ResourceKind::Project, 2, 1, true);
    store.set_member(ResourceKind::Project, 2, USER, TeamRole::Member, strings(&["write"]));
    let mut engine = InheritanceEngine::new(store, None);

    assert!(engine.has_permission(USER, 1, ResourceKind::Project, "write"));
    assert!(!engine.has_permission(USER, 1, ResourceKind::Project, "read"));

    // adding a direct permission never removes anything from the set
    engine.grant_permission(ResourceKind::Project, 1, USER, "read");
    assert!(engine.has_permission(USER, 1, ResourceKind::Project, "read"));
    assert!(engine.has_permission(USER, 1, ResourceKind::Project, "write"));
}

#[test]
fn test_default_role() {
    let mut store = HierarchyStore::new();
    store.add_edge(ResourceKind::Project, 2, 1, true);
    let mut engine = InheritanceEngine::new(store, None);

    let resolved = engine.resolve_permissions(USER, 1, ResourceKind::Project);
    assert_eq!(resolved.role, TeamRole::Viewer);
    assert_eq!(resolved.role.as_str(), "viewer");
    assert!(resolved.effective_permissions.is_empty());
    assert!(resolved.direct_permissions.is_empty());
    assert!(resolved.inherited_permissions.is_empty());
}

#[test]
fn test_direct_and_inherited_merge() {
    let mut store = HierarchyStore::new();
    store.add_edge(ResourceKind::Project, 2, 1, true);
    store.set_member(ResourceKind::Project, 1, USER, TeamRole::Owner, strings(&["write"]));
    store.set_member(ResourceKind::Project, 2, USER, TeamRole::Member, strings(&["read"]));
    let mut engine = InheritanceEngine::new(store, None);

    let resolved = engine.resolve_permissions(USER, 1, ResourceKind::Project);
    assert_eq!(resolved.direct_permissions, strings(&["write"]));
    assert_eq!(resolved.effective_permissions, strings(&["read", "write"]));
    // the direct role wins over inherited roles
    assert_eq!(resolved.role, TeamRole::Owner);
}

#[test]
fn test_clear_cache_for_resource() {
    let mut store = HierarchyStore::new();
    store.set_member(ResourceKind::Project, 1, USER, TeamRole::Member, strings(&["read"]));
    store.set_member(ResourceKind::Project, 2, USER, TeamRole::Member, strings(&["write"]));
    let mut engine = InheritanceEngine::new(store, None);
    let first = engine.resolve_permissions(USER, 1, ResourceKind::Project);
    assert_eq!(first.effective_permissions, strings(&["read"]));
    engine.resolve_permissions(USER, 2, ResourceKind::Project);
    assert_eq!(engine.cache.len(), 2);

    // the keyed clear drops exactly the (user, resource) entry
    engine.clear_cache_for_resource(USER, 1);
    assert_eq!(engine.cache.len(), 1);
    assert_eq!(engine.cache[0].resource_id, 2);

    // the full clear drops everything
    engine.clear_cache();
    assert_eq!(engine.cache.len(), 0);
    let second = engine.resolve_permissions(USER, 1, ResourceKind::Project);
    assert_eq!(second.effective_permissions, strings(&["read"]));
}
