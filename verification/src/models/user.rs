//! An account of the admin interface.

use vstd::prelude::*;

verus! {

/// A user, with the hash of the password and the name of the role.
#[derive(Debug, Clone)]
pub struct User {
    pub username: String,
    pub password_hash: String,
    pub role: String,
}

} // verus!
