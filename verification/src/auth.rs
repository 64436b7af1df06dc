//! The built-in authentication entities and the paths reserved for them.

use vstd::prelude::*;
use crate::text::str_eq;
use crate::types::{ObjectType, TypeSystem};

verus! {

/// Name of the built-in entity of users.
pub const AUTH_USER_NAME: &'static str = "AuthUser";
/// Name of the built-in entity of sessions.
pub const AUTH_SESSION_NAME: &'static str = "AuthSession";
/// Name of the built-in entity of tokens.
pub const AUTH_TOKEN_NAME: &'static str = "AuthToken";
/// Name of the built-in entity of accounts.
pub const AUTH_ACCOUNT_NAME: &'static str = "AuthAccount";

/// The names of the authentication entities.
pub open spec fn auth_entity_names() -> Seq<Seq<char>> {
    seq!["AuthUser"@, "AuthSession"@, "AuthToken"@, "AuthAccount"@]
}

/// Whether `entity_name` names one of the authentication entities.
pub fn is_auth_entity_name(entity_name: &str) -> (r: bool)
    ensures
        r == auth_entity_names().contains(entity_name@),
{
    let r = str_eq(entity_name, "AuthUser") || str_eq(entity_name, "AuthSession")
        || str_eq(entity_name, "AuthToken") || str_eq(entity_name, "AuthAccount");
    proof {
        let names = auth_entity_names();
        if r {
            if entity_name@ == "AuthUser"@ {
                assert(names[0] == entity_name@);
            } else if entity_name@ == "AuthSession"@ {
                assert(names[1] == entity_name@);
            } else if entity_name@ == "AuthToken"@ {
                assert(names[2] == entity_name@);
            } else {
                assert(names[3] == entity_name@);
            }
        } else {
            assert forall|k: int| 0 <= k < names.len() implies names[k] != entity_name@ by {
                if k == 0 {} else if k == 1 {} else if k == 2 {} else {}
            }
        }
    }
    r
}

/// The built-in user entity of a type system, or the internal error when
/// it is missing.
pub fn get_auth_user_type(ts: &TypeSystem) -> (r: Result<&ObjectType, String>)
    requires
        ts.wf(),
    ensures
        ts.builtin@.contains_key("AuthUser"@) ==> (r matches Ok(e) && *e == ts.builtin@["AuthUser"@]),
        !ts.builtin@.contains_key("AuthUser"@) ==> (r matches Err(m) && m@ == "Internal error: type AuthUser not found"@),
{
    match ts.builtin.get("AuthUser") {
        Some(e) => Ok(e),
        None => Err("Internal error: type AuthUser not found".to_owned()),
    }
}

/// The query that reads the e-mail (which serves as user name) of the user
/// with a given id from the user entity's table.
pub fn username_query(user_type: &ObjectType) -> (r: String)
    ensures
        r@ == "SELECT email FROM \""@ + user_type.backing_table@ + "\" WHERE id=$1"@,
{
    let q = crate::text::string_concat("SELECT email FROM \"", user_type.backing_table.as_str());
    q.concat("\" WHERE id=$1")
}

/// Whether a request of API version `version_id` to `routing_path` goes to
/// the authentication endpoints.
pub fn is_auth_path(version_id: &str, routing_path: &str) -> (r: bool)
    ensures
        r == (version_id@ == "__chiselstrike"@ && "/auth/"@.is_prefix_of(routing_path@)),
{
    let prefix = "/auth/";
    proof {
        reveal_strlit("/auth/");
    }
    if !str_eq(version_id, "__chiselstrike") {
        return false;
    }
    crate::text::starts_with(routing_path, prefix)
}

} // verus!
