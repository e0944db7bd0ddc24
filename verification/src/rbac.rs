//! Roles and permission tokens for role-based access control.
//!
//! Roles form a total order `viewer(1) < member(2) < admin(3) < owner(4)`;
//! a permission check succeeds when the actor's role level is at least the
//! required level.

use vstd::prelude::*;

use crate::strorder::str_eq_str;

verus! {

/// Role of a user inside a team, ordered by privilege.
#[derive(Debug, Clone, Copy, PartialEq, Eq, Structural)]
pub enum TeamRole {
    Owner,
    Admin,
    Member,
    Viewer,
}

impl TeamRole {
    /// Level of this role in the total order `viewer < member < admin < owner`.
    pub open spec fn spec_level(self) -> i32 {
        match self {
            TeamRole::Owner => 4,
            TeamRole::Admin => 3,
            TeamRole::Member => 2,
            TeamRole::Viewer => 1,
        }
    }

    pub fn as_str(&self) -> (r: &str)
        ensures
            r@ == self.spec_name(),
    {
        match self {
            TeamRole::Owner => "owner",
            TeamRole::Admin => "admin",
            TeamRole::Member => "member",
            TeamRole::Viewer => "viewer",
        }
    }

    pub open spec fn spec_name(self) -> Seq<char> {
        match self {
            TeamRole::Owner => "owner"@,
            TeamRole::Admin => "admin"@,
            TeamRole::Member => "member"@,
            TeamRole::Viewer => "viewer"@,
        }
    }

    pub fn hierarchy_level(&self) -> (r: i32)
        ensures
            r == self.spec_level(),
            1 <= r <= 4,
    {
        match self {
            TeamRole::Owner => 4,
            TeamRole::Admin => 3,
            TeamRole::Member => 2,
            TeamRole::Viewer => 1,
        }
    }

    /// The higher of two roles in the total order.
    pub fn max_role(self, other: TeamRole) -> (r: TeamRole)
        ensures
            r == self.spec_max(other),
            r.spec_level() >= self.spec_level(),
            r.spec_level() >= other.spec_level(),
    {
        if self.hierarchy_level() >= other.hierarchy_level() {
            self
        } else {
            other
        }
    }

    pub open spec fn spec_max(self, other: TeamRole) -> TeamRole {
        if self.spec_level() >= other.spec_level() {
            self
        } else {
            other
        }
    }
}

/// True when a user holding `user_role` may act where `required_role` is
/// demanded: the user's level is at least the required level.
pub fn check_permission(user_role: TeamRole, required_role: TeamRole) -> (r: bool)
    ensures
        r == (user_role.spec_level() >= required_role.spec_level()),
{
    user_role.hierarchy_level() >= required_role.hierarchy_level()
}

/// A token the project domain knows.
pub open spec fn spec_known_token(t: Seq<char>) -> bool {
    t == "read"@ || t == "write"@ || t == "admin"@ || t == "delete"@
}

/// True exactly when every listed token is one of `read`, `write`,
/// `admin`, `delete`: the check made before storing project permissions.
pub fn validate_permission_tokens(perms: &Vec<String>) -> (r: bool)
    ensures
        r == forall|i: int| 0 <= i < perms@.len() ==> spec_known_token((#[trigger] perms@[i])@),
{
    let mut i: usize = 0;
    while i < perms.len()
        invariant
            0 <= i <= perms@.len(),
            forall|k: int| 0 <= k < i ==> spec_known_token((#[trigger] perms@[k])@),
        decreases perms@.len() - i,
    {
        let p = perms[i].as_str();
        let known = str_eq_str(p, "read") || str_eq_str(p, "write") || str_eq_str(p, "admin")
            || str_eq_str(p, "delete");
        if !known {
            return false;
        }
        i = i + 1;
    }
    true
}

/// Permission a member may hold on a project.
#[derive(Debug, Clone, Copy, PartialEq, Eq, Structural)]
pub enum ProjectPermission {
    Read,
    Write,
    Admin,
    Delete,
}

impl ProjectPermission {
    pub fn as_str(&self) -> (r: &str)
        ensures
            r@ == self.spec_name(),
    {
        match self {
            ProjectPermission::Read => "read",
            ProjectPermission::Write => "write",
            ProjectPermission::Admin => "admin",
            ProjectPermission::Delete => "delete",
        }
    }

    pub open spec fn spec_name(self) -> Seq<char> {
        match self {
            ProjectPermission::Read => "read"@,
            ProjectPermission::Write => "write"@,
            ProjectPermission::Admin => "admin"@,
            ProjectPermission::Delete => "delete"@,
        }
    }
}

/// State of a code review.
#[derive(Debug, Clone, Copy, PartialEq, Eq, Structural)]
pub enum ReviewStatus {
    Open,
    Approved,
    ChangesRequested,
    Merged,
    Closed,
}

impl ReviewStatus {
    pub fn as_str(&self) -> (r: &str)
        ensures
            r@ == self.spec_name(),
    {
        match self {
            ReviewStatus::Open => "open",
            ReviewStatus::Approved => "approved",
            ReviewStatus::ChangesRequested => "changes_requested",
            ReviewStatus::Merged => "merged",
            ReviewStatus::Closed => "closed",
        }
    }

    pub open spec fn spec_name(self) -> Seq<char> {
        match self {
            ReviewStatus::Open => "open"@,
            ReviewStatus::Approved => "approved"@,
            ReviewStatus::ChangesRequested => "changes_requested"@,
            ReviewStatus::Merged => "merged"@,
            ReviewStatus::Closed => "closed"@,
        }
    }
}

/// Decision attached to a code-review approval.
#[derive(Debug, Clone, Copy, PartialEq, Eq, Structural)]
pub enum ApprovalStatus {
    Approved,
    ChangesRequested,
    Commented,
}

impl ApprovalStatus {
    pub fn as_str(&self) -> (r: &str)
        ensures
            r@ == self.spec_name(),
    {
        match self {
            ApprovalStatus::Approved => "approved",
            ApprovalStatus::ChangesRequested => "changes_requested",
            ApprovalStatus::Commented => "commented",
        }
    }

    pub open spec fn spec_name(self) -> Seq<char> {
        match self {
            ApprovalStatus::Approved => "approved"@,
            ApprovalStatus::ChangesRequested => "changes_requested"@,
            ApprovalStatus::Commented => "commented"@,
        }
    }
}

/// A named permission token with its human-readable description.
pub struct Permission {
    pub name: String,
    pub description: String,
    pub category: String,
}

/// A permission record holds exactly these three texts.
pub open spec fn permission_is(
    p: Permission,
    name: Seq<char>,
    description: Seq<char>,
    category: Seq<char>,
) -> bool {
    p.name@ == name && p.description@ == description && p.category@ == category
}

impl Permission {
    pub fn read() -> (r: Permission)
        ensures
            permission_is(r, "read"@, "Read access to resource"@, "basic"@),
    {
        Permission {
            name: String::from_str("read"),
            description: String::from_str("Read access to resource"),
            category: String::from_str("basic"),
        }
    }

    pub fn write() -> (r: Permission)
        ensures
            permission_is(r, "write"@, "Write access to resource"@, "basic"@),
    {
        Permission {
            name: String::from_str("write"),
            description: String::from_str("Write access to resource"),
            category: String::from_str("basic"),
        }
    }

    pub fn admin() -> (r: Permission)
        ensures
            permission_is(r, "admin"@, "Admin access to resource"@, "admin"@),
    {
        Permission {
            name: String::from_str("admin"),
            description: String::from_str("Admin access to resource"),
            category: String::from_str("admin"),
        }
    }

    pub fn delete() -> (r: Permission)
        ensures
            permission_is(r, "delete"@, "Delete access to resource"@, "destructive"@),
    {
        Permission {
            name: String::from_str("delete"),
            description: String::from_str("Delete access to resource"),
            category: String::from_str("destructive"),
        }
    }

    pub fn invite() -> (r: Permission)
        ensures
            permission_is(r, "invite"@, "Invite members"@, "management"@),
    {
        Permission {
            name: String::from_str("invite"),
            description: String::from_str("Invite members"),
            category: String::from_str("management"),
        }
    }

    pub fn manage_roles() -> (r: Permission)
        ensures
            permission_is(r, "manage_roles"@, "Manage user roles"@, "management"@),
    {
        Permission {
            name: String::from_str("manage_roles"),
            description: String::from_str("Manage user roles"),
            category: String::from_str("management"),
        }
    }

    pub fn view_audit() -> (r: Permission)
        ensures
            permission_is(r, "view_audit"@, "View audit logs"@, "audit"@),
    {
        Permission {
            name: String::from_str("view_audit"),
            description: String::from_str("View audit logs"),
            category: String::from_str("audit"),
        }
    }

    /// Every permission token the system knows, in a fixed order: the
    /// seven records the constructors above build.
    pub fn all() -> (r: Vec<Permission>)
        ensures
            r@.len() == 7,
            permission_is(r@[0], "read"@, "Read access to resource"@, "basic"@),
            permission_is(r@[1], "write"@, "Write access to resource"@, "basic"@),
            permission_is(r@[2], "admin"@, "Admin access to resource"@, "admin"@),
            permission_is(r@[3], "delete"@, "Delete access to resource"@, "destructive"@),
            permission_is(r@[4], "invite"@, "Invite members"@, "management"@),
            permission_is(r@[5], "manage_roles"@, "Manage user roles"@, "management"@),
            permission_is(r@[6], "view_audit"@, "View audit logs"@, "audit"@),
    {
        let mut v: Vec<Permission> = Vec::new();
        v.push(Self::read());
        v.push(Self::write());
        v.push(Self::admin());
        v.push(Self::delete());
        v.push(Self::invite());
        v.push(Self::manage_roles());
        v.push(Self::view_audit());
        v
    }
}

} // verus!
