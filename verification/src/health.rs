//! The internal health routes: their answers and the readiness state that
//! the server flips as it starts and stops.

use vstd::prelude::*;
use crate::text::str_eq;

verus! {

/// The HTTP status the readiness route answers with.
#[derive(Debug)]
pub struct Health {
    pub readiness: u16,
}

impl Health {
    /// The state before the server is ready: the readiness route answers 404.
    pub fn new() -> (h: Self)
        ensures
            h.readiness == 404,
    {
        Health { readiness: 404 }
    }
}

/// Marks the server as ready: the readiness route answers 200.
pub fn mark_ready(h: &mut Health)
    ensures
        final(h).readiness == 200,
{
    h.readiness = 200;
}

/// Marks the server as not ready: the readiness route answers 400.
pub fn mark_not_ready(h: &mut Health)
    ensures
        final(h).readiness == 400,
{
    h.readiness = 400;
}

/// The body and status of the answer to a request for `path`.
pub open spec fn route_answer(path: Seq<char>, readiness: u16) -> (Seq<char>, u16) {
    if path == "/status"@ {
        ("ok"@, 200)
    } else if path == "/readiness"@ {
        ("ready"@, readiness)
    } else if path == "/liveness"@ {
        ("alive"@, 200)
    } else {
        ("not found"@, 404)
    }
}

/// Answers a request for `path` on the internal server.
pub fn route(path: &str, h: &Health) -> (r: (&'static str, u16))
    ensures
        (r.0@, r.1) == route_answer(path@, h.readiness),
{
    if str_eq(path, "/status") {
        ("ok", 200)
    } else if str_eq(path, "/readiness") {
        ("ready", h.readiness)
    } else if str_eq(path, "/liveness") {
        ("alive", 200)
    } else {
        ("not found", 404)
    }
}

} // verus!
