use collab_core::analysis::CodeAnalyzer;
use collab_core::crypto::{hash_password, verify_password};
use collab_core::error::AppError;
use collab_core::gate::submit_with_gate;
use collab_core::hierarchy::{HierarchyStore, ResourceKind};
use collab_core::ops::{DocumentOperation, OperationType};
use collab_core::rbac::{check_permission, validate_permission_tokens, Permission,
    ProjectPermission, ReviewStatus, ApprovalStatus, TeamRole};
use collab_core::resolver::InheritanceEngine;
use collab_core::session::CollaborationManager;
use collab_core::slug::generate_slug;
use collab_core::validation::{validate_email, validate_password, validate_project_name};

#[test]
fn test_slug_generation() {
    assert_eq!(generate_slug("My Team"), "my-team");
    assert_eq!(generate_slug("Awesome_Project"), "awesome-project");
    assert_eq!(generate_slug("---test---"), "test");
}

#[test]
fn test_role_hierarchy() {
    assert!(4 >= 3); // owner >= admin
    assert!(3 >= 2); // admin >= member
    assert!(2 >= 1); // member >= viewer
    assert!(1 < 2); // viewer < member
}

#[test]
fn test_check_permission_levels() {
    assert!(check_permission(TeamRole::Owner, TeamRole::Admin));
    assert!(check_permission(TeamRole::Admin, TeamRole::Member));
    assert!(check_permission(TeamRole::Member, TeamRole::Member));
    assert!(!check_permission(TeamRole::Viewer, TeamRole::Member));
    assert_eq!(TeamRole::Owner.hierarchy_level(), 4);
    assert_eq!(TeamRole::Viewer.hierarchy_level(), 1);
}

#[test]
fn test_role_and_status_names() {
    assert_eq!(TeamRole::Owner.as_str(), "owner");
    assert_eq!(ProjectPermission::Write.as_str(), "write");
    assert_eq!(ReviewStatus::ChangesRequested.as_str(), "changes_requested");
    assert_eq!(ApprovalStatus::Commented.as_str(), "commented");
}

#[test]
fn test_permission_catalogue() {
    let all = Permission::all();
    assert_eq!(all.len(), 7);
    assert_eq!(all[0].name, "read");
    assert_eq!(all[6].name, "view_audit");
    assert_eq!(Permission::admin().category, "admin");
}

#[test]
fn test_permission_token_validation() {
    let good = vec!["read".to_string(), "admin".to_string()];
    assert!(validate_permission_tokens(&good));
    let bad = vec!["read".to_string(), "root".to_string()];
    assert!(!validate_permission_tokens(&bad));
    assert!(validate_permission_tokens(&Vec::new()));
}

#[test]
fn test_email_validation() {
    assert!(validate_email("test@example.com").is_ok());
    assert!(validate_email("invalid").is_err());
    assert!(validate_email("").is_err());
}

#[test]
fn test_password_validation() {
    assert!(validate_password("Secure123").is_ok());
    assert!(validate_password("short").is_err());
    assert!(validate_password("nouppercase123").is_err());
}

#[test]
fn test_password_validation_reasons() {
    let err = validate_password("NoDigitsHere").unwrap_err();
    match err {
        AppError::ValidationError(m) => assert_eq!(m, "Password must contain a number"),
        _ => panic!("expected a validation error"),
    }
}

#[test]
fn test_project_name_validation() {
    assert!(validate_project_name("core").is_ok());
    assert!(validate_project_name("").is_err());
    let long = "x".repeat(256);
    assert!(validate_project_name(&long).is_err());
}

#[test]
fn test_error_codes_and_statuses() {
    let e = AppError::NotFoundError("missing".to_string());
    assert_eq!(e.code(), "NOT_FOUND_ERROR");
    assert_eq!(e.http_status(), 404);
    assert_eq!(e.message(), "missing");
    let r = e.to_response();
    assert_eq!(r.code, "NOT_FOUND_ERROR");
    assert_eq!(r.message, "missing");
    assert_eq!(AppError::AuthorizationError(String::new()).http_status(), 403);
    assert_eq!(AppError::ExternalApiError(String::new()).http_status(), 502);
}

#[test]
fn test_password_hashing_and_verification() {
    let password = "TestPassword123";
    let hash = hash_password(password).unwrap();
    assert!(verify_password(password, &hash).unwrap());
    assert!(!verify_password("WrongPassword", &hash).unwrap());
}

#[test]
fn test_security_issue_detection() {
    let analyzer = CodeAnalyzer::new();
    let issues = analyzer.detect_security_issues("eval(userinput); var password = x;", "js");
    assert_eq!(issues.len(), 2);
    assert_eq!(issues[0], "Dynamic code execution detected");
    assert_eq!(issues[1], "Potential plaintext password handling");

    let clean = analyzer.detect_security_issues("let hash = hash(password);", "rust");
    assert!(clean.is_empty());

    let sql = analyzer.detect_security_issues("run SQL now", "sql");
    assert_eq!(sql, vec!["Potential SQL injection vulnerability".to_string()]);
}

#[test]
fn test_performance_issue_detection() {
    let analyzer = CodeAnalyzer::new();
    let loops = analyzer.detect_performance_issues("for (i = 0; i < n; i++) {}", "js");
    assert_eq!(loops.len(), 1);

    let cloning = "a.clone();b.clone();c.clone();d.clone();e.clone();f.clone();";
    let issues = analyzer.detect_performance_issues(cloning, "rust");
    assert_eq!(issues, vec!["Excessive cloning detected".to_string()]);

    let few = analyzer.detect_performance_issues("a.clone();", "rust");
    assert!(few.is_empty());
}

#[test]
fn test_authorisation_gate() {
    // USER2 lacks "write" on the project: the submit is rejected with
    // Forbidden, the version does not move, and no subscriber sees an op.
    let mut store = HierarchyStore::new();
    store.set_member(
        ResourceKind::Project,
        0x70,
        0x01,
        TeamRole::Member,
        vec!["read".to_string(), "write".to_string()],
    );
    let mut engine = InheritanceEngine::new(store, None);
    let mut manager = CollaborationManager::new();
    manager.create_session(0x51, 0x70, 0xf1).unwrap();
    manager.join_session(0x51, 0x01).unwrap();
    manager.join_session(0x51, 0x02).unwrap();
    let watcher = manager.subscribe(0x51, 0x01).unwrap();

    let op = DocumentOperation {
        id: "x".to_string(),
        version: 0,
        timestamp: 0,
        user_id: 0x02,
        operation: OperationType::Insert {
            position: 0,
            content: "attack".to_string(),
        },
    };
    let denied = submit_with_gate(&mut engine, &mut manager, 0x51, op);
    assert_eq!(denied.unwrap_err(), "Forbidden");
    assert_eq!(manager.get_version(0x51).unwrap(), 0);
    assert_eq!(manager.take_events(0x51, watcher).unwrap().len(), 0);

    // USER1 holds "write": the same submit goes through.
    let op = DocumentOperation {
        id: "y".to_string(),
        version: 0,
        timestamp: 0,
        user_id: 0x01,
        operation: OperationType::Insert {
            position: 0,
            content: "fix".to_string(),
        },
    };
    let accepted = submit_with_gate(&mut engine, &mut manager, 0x51, op);
    assert_eq!(accepted.unwrap(), 1);
    assert_eq!(manager.get_version(0x51).unwrap(), 1);
}
