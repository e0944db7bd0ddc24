//! Request shapes the service accepts at its edges. They carry plain
//! values; the handlers around the library decode requests into them and
//! hand them on.

use vstd::prelude::*;

verus! {

/// Registration of a new user.
#[derive(Debug)]
pub struct RegisterRequest {
    pub email: String,
    pub password: String,
    pub first_name: Option<String>,
    pub last_name: Option<String>,
}

/// Login with credentials.
#[derive(Debug)]
pub struct LoginRequest {
    pub email: String,
    pub password: String,
}

/// Creation of a project.
#[derive(Debug)]
pub struct CreateProjectRequest {
    pub name: String,
    pub description: Option<String>,
    pub language: Option<String>,
    pub repository_url: Option<String>,
}

/// Partial update of a project.
#[derive(Debug)]
pub struct UpdateProjectRequest {
    pub name: Option<String>,
    pub description: Option<String>,
    pub language: Option<String>,
}

/// Creation of a file in a project.
#[derive(Debug)]
pub struct CreateFileRequest {
    pub file_path: String,
    pub content: String,
    pub language: Option<String>,
}

/// A request to optimise a piece of code.
#[derive(Debug)]
pub struct OptimizeCodeRequest {
    pub code: String,
    pub language: String,
    pub file_path: Option<String>,
}

/// A request to review a piece of code.
#[derive(Debug)]
pub struct ReviewCodeRequest {
    pub code: String,
    pub language: String,
    pub file_path: Option<String>,
}

/// A request to refactor a piece of code.
#[derive(Debug)]
pub struct RefactorCodeRequest {
    pub code: String,
    pub language: String,
    pub target_pattern: Option<String>,
}

/// A request to exchange a refresh token.
#[derive(Debug)]
pub struct TokenRefreshRequest {
    pub refresh_token: String,
}

/// Creation of a team.
#[derive(Debug)]
pub struct CreateTeamRequest {
    pub name: String,
    pub description: Option<String>,
}

/// Partial update of a team.
#[derive(Debug)]
pub struct UpdateTeamRequest {
    pub name: Option<String>,
    pub description: Option<String>,
}

/// Change of a team member's role.
#[derive(Debug)]
pub struct UpdateTeamMemberRequest {
    pub role: String,
}

/// Change of a project member's role or permissions.
#[derive(Debug)]
pub struct UpdateProjectMemberRequest {
    pub role: Option<String>,
    pub permissions: Option<Vec<String>>,
}

/// Opening of a code review.
#[derive(Debug)]
pub struct CreateCodeReviewRequest {
    pub title: String,
    pub description: Option<String>,
    pub source_branch: Option<String>,
    pub target_branch: Option<String>,
}

/// Partial update of a code review.
#[derive(Debug)]
pub struct UpdateCodeReviewRequest {
    pub title: Option<String>,
    pub description: Option<String>,
    pub status: Option<String>,
}

/// A comment attached to a review.
#[derive(Debug)]
pub struct AddReviewCommentRequest {
    pub file_path: Option<String>,
    pub line_number: Option<i32>,
    pub content: String,
}

/// Update of a review comment.
#[derive(Debug)]
pub struct UpdateReviewCommentRequest {
    pub content: Option<String>,
    pub resolved: Option<bool>,
}

/// An approval decision submitted on a code review.
#[derive(Debug)]
pub struct SubmitApprovalRequest {
    pub status: String,
    pub comments: Option<String>,
}

/// Change of a permission rule.
#[derive(Debug)]
pub struct UpdatePermissionRuleRequest {
    pub permissions: Option<Vec<String>>,
    pub description: Option<String>,
    pub priority: Option<i32>,
}

/// Line-change counts of one file in a review.
#[derive(Debug)]
pub struct DiffStat {
    pub file_path: String,
    pub additions: u32,
    pub deletions: u32,
}

/// The claims carried by an access token.
#[derive(Debug)]
pub struct Claims {
    pub sub: String,
    pub exp: i64,
    pub iat: i64,
}

} // verus!
