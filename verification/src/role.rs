//! System role definitions and role-level comparison.

use crate::text::{join2, same_text};
use vstd::prelude::*;
use vstd::string::*;

verus! {

/// A system role with a fixed hierarchy: admin > poweruser > operator > viewer.
#[derive(Debug, Clone, Copy, PartialEq, Eq, Hash, Structural)]
pub enum Role {
    Admin,
    PowerUser,
    Operator,
    Viewer,
}

impl Role {
    /// The name of a role.
    pub open spec fn name(self) -> Seq<char> {
        match self {
            Role::Admin => "admin"@,
            Role::PowerUser => "poweruser"@,
            Role::Operator => "operator"@,
            Role::Viewer => "viewer"@,
        }
    }

    /// The level of a role.
    pub open spec fn level_spec(self) -> u8 {
        match self {
            Role::Admin => 4,
            Role::PowerUser => 3,
            Role::Operator => 2,
            Role::Viewer => 1,
        }
    }

    /// Numeric level for comparison (higher = more privilege).
    pub fn level(&self) -> (r: u8)
        ensures
            r == self.level_spec(),
    {
        match self {
            Role::Admin => 4,
            Role::PowerUser => 3,
            Role::Operator => 2,
            Role::Viewer => 1,
        }
    }

    /// The name of the role.
    pub fn as_str(&self) -> (r: &'static str)
        ensures
            r@ == self.name(),
    {
        match self {
            Role::Admin => "admin",
            Role::PowerUser => "poweruser",
            Role::Operator => "operator",
            Role::Viewer => "viewer",
        }
    }

    /// The role of a name.
    pub fn from_name(s: &str) -> (r: Result<Role, String>)
        ensures
            match r {
                Ok(role) => named_role(s@) == Some(role),
                Err(e) => named_role(s@) is None && e@ == "unknown role: "@ + s@,
            },
    {
        if same_text(s, "admin") {
            Ok(Role::Admin)
        } else if same_text(s, "poweruser") {
            Ok(Role::PowerUser)
        } else if same_text(s, "operator") {
            Ok(Role::Operator)
        } else if same_text(s, "viewer") {
            Ok(Role::Viewer)
        } else {
            Err(join2("unknown role: ", s))
        }
    }

    /// Check if a string is a valid role name.
    pub fn is_valid(s: &str) -> (r: bool)
        ensures
            r == named_role(s@) is Some,
    {
        Role::from_name(s).is_ok()
    }
}

/// The role with a given name.
pub open spec fn named_role(s: Seq<char>) -> Option<Role> {
    if s == "admin"@ {
        Some(Role::Admin)
    } else if s == "poweruser"@ {
        Some(Role::PowerUser)
    } else if s == "operator"@ {
        Some(Role::Operator)
    } else if s == "viewer"@ {
        Some(Role::Viewer)
    } else {
        None
    }
}

/// The level of a role name; 0 for a name that is no role.
pub open spec fn role_level_spec(s: Seq<char>) -> u8 {
    match named_role(s) {
        Some(role) => role.level_spec(),
        None => 0,
    }
}

/// Map role names to numeric levels for comparison.
pub fn role_level(role: &str) -> (r: u8)
    ensures
        r == role_level_spec(role@),
{
    match Role::from_name(role) {
        Ok(r) => r.level(),
        Err(_) => 0,
    }
}

/// Check if a role string is a valid role name.
pub fn is_valid_role(role: &str) -> (r: bool)
    ensures
        r == named_role(role@) is Some,
{
    same_text(role, "admin") || same_text(role, "poweruser") || same_text(role, "operator")
        || same_text(role, "viewer")
}

/// A name is a role exactly where it has a level, and each role is found
/// again by its name.
pub proof fn law_role_names(s: Seq<char>, role: Role)
    ensures
        named_role(s) is Some <==> role_level_spec(s) > 0,
        named_role(role.name()) == Some(role),
{
    reveal_strlit("admin");
    reveal_strlit("poweruser");
    reveal_strlit("operator");
    reveal_strlit("viewer");
    assert("admin"@.len() == 5 && "poweruser"@.len() == 9 && "operator"@.len() == 8
        && "viewer"@.len() == 6);
}

/// Roles are ordered by level, and no two share one.
pub proof fn law_role_levels(a: Role, b: Role)
    ensures
        a.level_spec() == b.level_spec() ==> a == b,
        Role::Admin.level_spec() > Role::PowerUser.level_spec(),
        Role::PowerUser.level_spec() > Role::Operator.level_spec(),
        Role::Operator.level_spec() > Role::Viewer.level_spec(),
{
}

} // verus!
