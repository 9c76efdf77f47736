//! Access rules of the user administration endpoints.

use vstd::prelude::*;
use crate::text::{contains, str_contains};

verus! {

#[derive(Clone, Copy, Debug, PartialEq, Eq, Structural)]
pub enum UserRole {
    Admin,
    User,
}

/// A user account; the identifier is the UUID as a 128-bit integer.
#[derive(Debug)]
pub struct User {
    pub id: u128,
    pub username: String,
    pub email: String,
    pub role: UserRole,
}

/// The authenticated caller of a request.
#[derive(Debug)]
pub struct AuthUser {
    pub user: User,
}

/// The user operation on the store that failed.
#[derive(Clone, Copy, Debug, PartialEq, Eq, Structural)]
pub enum StoreOp {
    Create,
    Update,
    Delete,
}

/// Errors of the user endpoints.
#[derive(Debug)]
pub enum UserError {
    PermissionDenied(String),
    NotFound(u128),
    DeleteRestricted(u128, String),
    DuplicateUsername(String),
    DuplicateEmail(String),
    /// The store failed in another way; its message is kept.
    Internal(StoreOp, String),
}

/// What a store failure's message reports.
#[derive(Clone, Copy, Debug, PartialEq, Eq, Structural)]
pub enum StoreFailure {
    DuplicateUsername,
    DuplicateEmail,
    NotFound,
    Other,
}

/// Reading of a store failure: unique-constraint breaches name the field on
/// creation and update; a missing user counts on update and deletion.
pub open spec fn store_failure(op: StoreOp, message: Seq<char>) -> StoreFailure {
    if op != StoreOp::Delete && contains(message, "username"@) && contains(message, "unique"@) {
        StoreFailure::DuplicateUsername
    } else if op != StoreOp::Delete && contains(message, "email"@) && contains(message, "unique"@) {
        StoreFailure::DuplicateEmail
    } else if op != StoreOp::Create && contains(message, "not found"@) {
        StoreFailure::NotFound
    } else {
        StoreFailure::Other
    }
}

/// Only administrators pass.
pub fn require_admin(auth_user: &AuthUser) -> (r: Result<(), UserError>)
    ensures
        r.is_ok() == (auth_user.user.role == UserRole::Admin),
        r.is_err() ==> (r matches Err(UserError::PermissionDenied(m)) && m@
            == "Admin access required"@),
{
    if auth_user.user.role != UserRole::Admin {
        Err(UserError::PermissionDenied("Admin access required".to_string()))
    } else {
        Ok(())
    }
}

/// An administrator may delete any account but their own.
pub fn check_delete_allowed(auth_user: &AuthUser, id: u128) -> (r: Result<(), UserError>)
    ensures
        r.is_ok() == (auth_user.user.role == UserRole::Admin && auth_user.user.id != id),
        auth_user.user.role != UserRole::Admin ==> (r matches Err(UserError::PermissionDenied(m))
            && m@ == "Admin access required"@),
        auth_user.user.role == UserRole::Admin && auth_user.user.id == id ==> (r matches Err(
            UserError::DeleteRestricted(x, m),
        ) && x == id && m@ == "Cannot delete your own account"@),
{
    require_admin(auth_user)?;
    if auth_user.user.id == id {
        return Err(UserError::DeleteRestricted(id, "Cannot delete your own account".to_string()));
    }
    Ok(())
}

/// Maps a store failure to the endpoint's error, keeping the message.
pub fn store_error(op: StoreOp, id: u128, message: String) -> (r: UserError)
    ensures
        match store_failure(op, message@) {
            StoreFailure::DuplicateUsername => (r matches UserError::DuplicateUsername(m) && m@
                == message@),
            StoreFailure::DuplicateEmail => (r matches UserError::DuplicateEmail(m) && m@
                == message@),
            StoreFailure::NotFound => r == UserError::NotFound(id),
            StoreFailure::Other => (r matches UserError::Internal(o, m) && o == op && m@
                == message@),
        },
{
    let not_delete = match op {
        StoreOp::Delete => false,
        _ => true,
    };
    let not_create = match op {
        StoreOp::Create => false,
        _ => true,
    };
    let unique = str_contains(message.as_str(), "unique");
    if not_delete && unique && str_contains(message.as_str(), "username") {
        UserError::DuplicateUsername(message)
    } else if not_delete && unique && str_contains(message.as_str(), "email") {
        UserError::DuplicateEmail(message)
    } else if not_create && str_contains(message.as_str(), "not found") {
        UserError::NotFound(id)
    } else {
        UserError::Internal(op, message)
    }
}

} // verus!
