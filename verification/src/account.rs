//! Data shapes of the user-account service layer. The accounts
//! themselves are persisted outside the library; these are the plain
//! values the service exchanges.

use vstd::prelude::*;

verus! {

/// One stored user account: identifier, display name, creation time as
/// seconds since the Unix epoch, and win count.
pub struct User {
    pub _id: u128,
    pub name: String,
    pub created_at: i64,
    pub wins: i32,
}

/// Payload of a user-creation request.
pub struct PostUserJson {
    pub name: String,
}

} // verus!
