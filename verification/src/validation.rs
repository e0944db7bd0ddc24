//! Input validation for emails, passwords and project names.

use vstd::prelude::*;

use vstd::string::StringSliceAdditionalSpecFns;

use crate::error::{AppError, AppResult};

verus! {

/// What `char::is_uppercase` returns: a function of the character alone.
pub uninterp spec fn is_uppercase_char(c: char) -> bool;

/// What `char::is_numeric` returns: a function of the character alone.
pub uninterp spec fn is_numeric_char(c: char) -> bool;

/// Relies on char::is_uppercase: whether the character is uppercase by the
/// Unicode derived property.
#[verifier::external_body]
fn char_is_uppercase(c: char) -> (r: bool)
    ensures
        r == is_uppercase_char(c),
{
    c.is_uppercase()
}

/// Relies on char::is_numeric: whether the character is numeric by its
/// Unicode general category.
#[verifier::external_body]
fn char_is_numeric(c: char) -> (r: bool)
    ensures
        r == is_numeric_char(c),
{
    c.is_numeric()
}

/// A valid email is non-empty and holds an `@`.
pub open spec fn spec_email_ok(email: Seq<char>) -> bool {
    email.len() > 0 && email.contains('@')
}

/// Accepts exactly the non-empty inputs holding an `@`.
pub fn validate_email(email: &str) -> (r: AppResult<()>)
    ensures
        r.is_ok() == spec_email_ok(email@),
        r matches Err(e) ==> e matches AppError::ValidationError(m) && m@
            == "Invalid email format"@,
{
    let n = email.unicode_len();
    let mut i: usize = 0;
    while i < n
        invariant
            0 <= i <= n,
            n == email@.len(),
            forall|k: int| 0 <= k < i ==> email@[k] != '@',
        decreases n - i,
    {
        if email.get_char(i) == '@' {
            return Ok(());
        }
        i = i + 1;
    }
    proof {
        if email@.contains('@') {
            let k = choose|k: int| 0 <= k < email@.len() && email@[k] == '@';
        }
    }
    Err(AppError::ValidationError(String::from_str("Invalid email format")))
}

/// A valid password has at least eight bytes, an uppercase letter, and a
/// numeric character.
pub open spec fn spec_password_ok(password: &str) -> bool {
    &&& password.spec_bytes().len() as usize >= 8
    &&& exists|k: int| 0 <= k < password@.len() && is_uppercase_char(#[trigger] password@[k])
    &&& exists|k: int| 0 <= k < password@.len() && is_numeric_char(#[trigger] password@[k])
}

/// Accepts exactly the passwords of at least eight bytes holding an
/// uppercase letter and a number, reporting the first missing property.
pub fn validate_password(password: &str) -> (r: AppResult<()>)
    ensures
        r.is_ok() == spec_password_ok(password),
        r matches Err(e) ==> e matches AppError::ValidationError(m) && (m@
            == "Password must be at least 8 characters"@ || m@
            == "Password must contain an uppercase letter"@ || m@
            == "Password must contain a number"@),
{
    if password.len() < 8 {
        return Err(
            AppError::ValidationError(
                String::from_str("Password must be at least 8 characters"),
            ),
        );
    }
    let n = password.unicode_len();
    let mut has_upper = false;
    let mut i: usize = 0;
    while i < n
        invariant
            0 <= i <= n,
            n == password@.len(),
            has_upper == exists|k: int|
                0 <= k < i && is_uppercase_char(#[trigger] password@[k]),
        decreases n - i,
    {
        if char_is_uppercase(password.get_char(i)) {
            has_upper = true;
        }
        i = i + 1;
    }
    if !has_upper {
        return Err(
            AppError::ValidationError(
                String::from_str("Password must contain an uppercase letter"),
            ),
        );
    }
    let mut has_digit = false;
    let mut j: usize = 0;
    while j < n
        invariant
            0 <= j <= n,
            n == password@.len(),
            has_digit == exists|k: int| 0 <= k < j && is_numeric_char(#[trigger] password@[k]),
        decreases n - j,
    {
        if char_is_numeric(password.get_char(j)) {
            has_digit = true;
        }
        j = j + 1;
    }
    if !has_digit {
        return Err(
            AppError::ValidationError(String::from_str("Password must contain a number")),
        );
    }
    Ok(())
}

/// A valid project name has one to 255 bytes.
pub open spec fn spec_project_name_ok(name: &str) -> bool {
    0 < name.spec_bytes().len() as usize <= 255
}

/// Accepts exactly the names of one to 255 bytes.
pub fn validate_project_name(name: &str) -> (r: AppResult<()>)
    ensures
        r.is_ok() == spec_project_name_ok(name),
        r matches Err(e) ==> e matches AppError::ValidationError(m) && m@
            == "Project name must be between 1 and 255 characters"@,
{
    if name.len() == 0 || name.len() > 255 {
        return Err(
            AppError::ValidationError(
                String::from_str("Project name must be between 1 and 255 characters"),
            ),
        );
    }
    Ok(())
}

} // verus!
