//! The two kinds of token that the admin interface hands out.

use vstd::prelude::*;

verus! {

/// The kind of a token.
pub enum JwtType {
    AccessToken,
    RefreshToken,
}

impl JwtType {
    /// The name of the kind as it is written into a token's claims.
    pub open spec fn name(self) -> Seq<char> {
        match self {
            JwtType::AccessToken => "access_token"@,
            JwtType::RefreshToken => "refresh_token"@,
        }
    }

    /// The name of the kind.
    pub fn as_str(&self) -> (s: &'static str)
        ensures
            s@ == self.name(),
    {
        match self {
            JwtType::AccessToken => "access_token",
            JwtType::RefreshToken => "refresh_token",
        }
    }

    /// The name of the kind, as an owned string.
    pub fn to_string(&self) -> (s: String)
        ensures
            s@ == self.name(),
    {
        self.as_str().to_owned()
    }
}

} // verus!
