//! What a login takes and gives.

use vstd::prelude::*;

verus! {

/// The pair of tokens that a login gives.
pub struct Token {
    pub access_token: String,
    pub refresh_token: String,
}

/// The credentials that a login takes.
pub struct Login {
    pub username: String,
    pub password: String,
}

} // verus!
