//! The claims that a token carries.

use crate::enums::jwt::JwtType;
use crate::enums::role::RoleType;
use vstd::prelude::*;

verus! {

/// What a token says of its bearer.
#[derive(Debug, Clone)]
pub struct Claims {
    /// The subject: the user's identifier.
    pub sub: String,
    pub role: String,
    pub token_type: String,
    /// The second, counted from the Unix epoch, at which the token expires.
    pub exp: usize,
    /// The second, counted from the Unix epoch, at which it was issued.
    pub iat: usize,
}

/// The seconds for which a token of a kind is valid: an hour for an access
/// token, 6,200 seconds for a refresh token.
pub open spec fn token_lifetime(kind: JwtType) -> usize {
    match kind {
        JwtType::AccessToken => 3600,
        JwtType::RefreshToken => 6200,
    }
}

/// Computes the lifetime of a token of a kind.
pub fn lifetime_of(kind: &JwtType) -> (ttl: usize)
    ensures
        ttl == token_lifetime(*kind),
{
    match kind {
        JwtType::AccessToken => 3600,
        JwtType::RefreshToken => 6200,
    }
}

impl Claims {
    /// The claims of a token of the given kind, issued at the second `now`
    /// to the subject `sub` in the given role.
    pub fn issue(sub: String, role: &RoleType, kind: &JwtType, now: usize) -> (claims: Claims)
        requires
            now + token_lifetime(*kind) <= usize::MAX,
        ensures
            claims.sub@ == sub@,
            claims.role@ == role.name(),
            claims.token_type@ == kind.name(),
            claims.iat == now,
            claims.exp == now + token_lifetime(*kind),
    {
        Claims {
            sub,
            role: role.to_string(),
            token_type: kind.to_string(),
            exp: now + lifetime_of(kind),
            iat: now,
        }
    }
}

} // verus!
