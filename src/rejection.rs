//! The reply to an HTTP request that no route accepted.

use vstd::prelude::*;
use vstd::string::StringExecFns;

verus! {

/// Why a request was turned down.
pub enum RejectionKind {
    NotFound,
    InvalidBody,
    NotAuthorized,
    MethodNotAllowed,
    Other,
}

/// The status code and the detail message of the reply.
pub fn rejection_reply(kind: &RejectionKind) -> (r: (u16, String))
    ensures
        match kind {
            RejectionKind::NotFound => r.0 == 404 && r.1@ == "Not found"@,
            RejectionKind::InvalidBody => r.0 == 400 && r.1@ == "Invalid Body"@,
            RejectionKind::NotAuthorized => r.0 == 401 && r.1@ == "Action not authorized"@,
            RejectionKind::MethodNotAllowed => r.0 == 405 && r.1@ == "Method not allowed"@,
            RejectionKind::Other => r.0 == 500 && r.1@ == "Internal server error"@,
        },
{
    match kind {
        RejectionKind::NotFound => (404, String::from_str("Not found")),
        RejectionKind::InvalidBody => (400, String::from_str("Invalid Body")),
        RejectionKind::NotAuthorized => (401, String::from_str("Action not authorized")),
        RejectionKind::MethodNotAllowed => (405, String::from_str("Method not allowed")),
        RejectionKind::Other => (500, String::from_str("Internal server error")),
    }
}

} // verus!
