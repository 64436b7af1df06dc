//! Outcomes of policy evaluation, deployment regions and policy errors.

use vstd::prelude::*;
use crate::text::{str_eq, string_concat};

verus! {

/// What a policy decides for an entity.
#[derive(Debug, Clone, Copy, PartialEq, Eq, Structural)]
pub enum Action {
    Allow,
    Deny,
    Skip,
    Log,
}

/// The action with code `value`, if it is one.
pub open spec fn action_of(value: i32) -> Option<Action> {
    if value == 0 {
        Some(Action::Allow)
    } else if value == 1 {
        Some(Action::Deny)
    } else if value == 2 {
        Some(Action::Skip)
    } else if value == 3 {
        Some(Action::Log)
    } else {
        None
    }
}

/// The code of an action.
pub open spec fn action_code(a: Action) -> i32 {
    match a {
        Action::Allow => 0,
        Action::Deny => 1,
        Action::Skip => 2,
        Action::Log => 3,
    }
}

impl Action {
    /// The action with code `value` (0 allow, 1 deny, 2 skip, 3 log).
    pub fn try_from(value: i32) -> (r: Result<Action, String>)
        ensures
            match action_of(value) {
                Some(a) => r == Ok::<Action, String>(a),
                None => r matches Err(e) && e@ == "invalid Action"@,
            },
    {
        if value == 0 {
            Ok(Action::Allow)
        } else if value == 1 {
            Ok(Action::Deny)
        } else if value == 2 {
            Ok(Action::Skip)
        } else if value == 3 {
            Ok(Action::Log)
        } else {
            Err("invalid Action".to_owned())
        }
    }

    /// The code of this action.
    pub fn code(&self) -> (r: i32)
        ensures
            r == action_code(*self),
    {
        match self {
            Action::Allow => 0,
            Action::Deny => 1,
            Action::Skip => 2,
            Action::Log => 3,
        }
    }

    /// Whether the action keeps the entity from the caller.
    pub fn is_restrictive(&self) -> (r: bool)
        ensures
            r == (*self == Action::Deny || *self == Action::Skip),
    {
        match self {
            Action::Deny | Action::Skip => true,
            Action::Allow | Action::Log => false,
        }
    }
}

/// A region the service can run in.
#[derive(Debug, Clone, Copy, PartialEq, Eq, Structural)]
pub enum Location {
    UsEast1,
    UsWest,
    London,
    Germany,
}

/// The region named `s`, if any.
pub open spec fn location_of(s: Seq<char>) -> Option<Location> {
    if s == "us-east-1"@ {
        Some(Location::UsEast1)
    } else if s == "us-west"@ {
        Some(Location::UsWest)
    } else if s == "london"@ {
        Some(Location::London)
    } else if s == "germany"@ {
        Some(Location::Germany)
    } else {
        None
    }
}

impl Location {
    /// The region named `s`.
    pub fn from_str(s: &str) -> (r: Result<Location, String>)
        ensures
            match location_of(s@) {
                Some(l) => r == Ok::<Location, String>(l),
                None => r matches Err(e) && e@ == "unknown region "@ + s@,
            },
    {
        if str_eq(s, "us-east-1") {
            Ok(Location::UsEast1)
        } else if str_eq(s, "us-west") {
            Ok(Location::UsWest)
        } else if str_eq(s, "london") {
            Ok(Location::London)
        } else if str_eq(s, "germany") {
            Ok(Location::Germany)
        } else {
            proof {
                reveal_strlit("unknown region ");
            }
            Err(string_concat("unknown region ", s))
        }
    }
}

/// Why a policy refused an operation on an entity (by name).
#[derive(Debug, Clone)]
pub enum PolicyError {
    WritePermissionDenied(String),
    ReadPermissionDenied(String),
    DirtyEntity(String),
}

impl PolicyError {
    /// The message of the error.
    pub fn to_string(&self) -> (r: String)
        ensures
            r@ == match self {
                PolicyError::WritePermissionDenied(n) => "could not write `"@ + n@ + "` to disk: Permission denied"@,
                PolicyError::ReadPermissionDenied(n) => "could not Read `"@ + n@ + "`: Permission denied"@,
                PolicyError::DirtyEntity(n) => "could not write `"@ + n@ + "`: Entity is dirty: it was transformed by a policy."@,
            },
    {
        match self {
            PolicyError::WritePermissionDenied(n) => string_concat("could not write `", n.as_str()).concat("` to disk: Permission denied"),
            PolicyError::ReadPermissionDenied(n) => string_concat("could not Read `", n.as_str()).concat("`: Permission denied"),
            PolicyError::DirtyEntity(n) => string_concat("could not write `", n.as_str()).concat("`: Entity is dirty: it was transformed by a policy."),
        }
    }
}

} // verus!
