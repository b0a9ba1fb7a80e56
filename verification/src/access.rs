//! Membership enforcement: the mandatory first step of every
//! investigation-scoped operation.

use vstd::prelude::*;

use crate::errors::AppError;
use crate::store::{find_member, is_member, Store};

verus! {

/// Succeed exactly when a membership row exists for the pair; every other
/// caller is turned away with `Unauthorized`. No investigation-scoped
/// operation, read or write, bypasses this check.
pub fn check_member_access(store: &Store, investigation_id: u128, user_id: i32) -> (r: Result<
    (),
    AppError,
>)
    ensures
        r is Ok <==> is_member(store.memberships@, investigation_id, user_id),
        r is Err ==> r->Err_0 is Unauthorized,
{
    match find_member(&store.memberships, investigation_id, user_id) {
        Some(_) => Ok(()),
        None => Err(AppError::Unauthorized("Not a member of this investigation".to_string())),
    }
}

} // verus!
