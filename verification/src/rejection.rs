//! How a request that was turned away is answered.

use vstd::prelude::*;

verus! {

/// The room that a client asked to join does not exist.
#[derive(Clone, Copy, Debug, PartialEq, Eq, Structural)]
pub struct RoomNotFound;

/// What is known of a request that was turned away. More than one finding may
/// hold of one request.
#[derive(Clone, Copy, Debug)]
pub struct Rejected {
    /// The room that the request asked to join does not exist.
    pub room_not_found: bool,
    /// No route matches the request.
    pub not_found: bool,
    /// A route matches the path of the request, but not its method.
    pub method_not_allowed: bool,
}

/// The body of the answer to a request that was turned away.
#[derive(Debug)]
pub struct ErrorMessage {
    /// The status code of the answer.
    pub code: u16,
    /// The reason, in capitals.
    pub message: String,
}

/// The status code that answers a request that was turned away. A missing room
/// comes before a missing route, a missing route before a refused method, and
/// whatever else went wrong is an internal error.
pub open spec fn rejection_code(err: Rejected) -> u16 {
    if err.room_not_found {
        404
    } else if err.not_found {
        404
    } else if err.method_not_allowed {
        405
    } else {
        500
    }
}

/// The reason that answers a request that was turned away, in the same order.
pub open spec fn rejection_message(err: Rejected) -> Seq<char> {
    if err.room_not_found {
        "ROOM NOT_FOUND"@
    } else if err.not_found {
        "NOT_FOUND"@
    } else if err.method_not_allowed {
        "METHOD_NOT_ALLOWED"@
    } else {
        "UNHANDLED_REJECTION"@
    }
}

/// Answers a request that was turned away.
pub fn handle_rejection(err: Rejected) -> (reply: ErrorMessage)
    ensures
        reply.code == rejection_code(err),
        reply.message@ == rejection_message(err),
{
    let code: u16;
    let message: &str;
    if err.room_not_found {
        code = 404;
        message = "ROOM NOT_FOUND";
    } else if err.not_found {
        code = 404;
        message = "NOT_FOUND";
    } else if err.method_not_allowed {
        code = 405;
        message = "METHOD_NOT_ALLOWED";
    } else {
        code = 500;
        message = "UNHANDLED_REJECTION";
    }
    ErrorMessage { code, message: message.to_owned() }
}

impl RoomNotFound {
    /// What is known of a request that was turned away for a missing room.
    pub fn rejected(&self) -> (err: Rejected)
        ensures
            err.room_not_found,
            !err.not_found,
            !err.method_not_allowed,
    {
        Rejected { room_not_found: true, not_found: false, method_not_allowed: false }
    }
}

} // verus!
