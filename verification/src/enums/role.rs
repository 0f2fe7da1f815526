//! The roles that the admin interface knows.

use vstd::prelude::*;

verus! {

/// The role of a user.
pub enum RoleType {
    Admin,
    User,
}

impl RoleType {
    /// The name of the role as policies and claims spell it.
    pub open spec fn name(self) -> Seq<char> {
        match self {
            RoleType::Admin => "admin"@,
            RoleType::User => "user"@,
        }
    }

    /// The name of the role.
    pub fn as_str(&self) -> (s: &'static str)
        ensures
            s@ == self.name(),
    {
        match self {
            RoleType::Admin => "admin",
            RoleType::User => "user",
        }
    }

    /// The name of the role, as an owned string.
    pub fn to_string(&self) -> (s: String)
        ensures
            s@ == self.name(),
    {
        self.as_str().to_owned()
    }
}

} // verus!
