//! Replies to HTTP requests: a status code and a body.

use vstd::prelude::*;

verus! {

/// Body of a reply.
#[derive(Debug)]
pub enum Body {
    /// Plain text.
    Text(&'static str),
    /// The paths of the frames written for a screenshot, sent as the JSON
    /// object `{"frames": [...]}`.
    Frames(Vec<String>),
}

/// A reply: an HTTP status code and a body.
#[derive(Debug)]
pub struct Reply {
    pub status: u16,
    pub body: Body,
}

/// `r` is the plain-text reply `text` with status `status`.
pub open spec fn is_text_reply(r: Reply, status: u16, text: Seq<char>) -> bool {
    &&& r.status == status
    &&& r.body matches Body::Text(t) && t@ == text
}

/// The reply to a request that failed inside the server: a generic
/// internal error, which tells nothing of the failure.
pub open spec fn is_internal_error_reply(r: Reply) -> bool {
    is_text_reply(r, 500, "Internal server error. Try again later."@)
}

/// Plain-text reply `text` with status `status`.
pub fn text_reply(status: u16, text: &'static str) -> (r: Reply)
    ensures
        is_text_reply(r, status, text@),
{
    Reply { status, body: Body::Text(text) }
}

/// The generic internal server error reply.
pub fn internal_error_reply() -> (r: Reply)
    ensures
        is_internal_error_reply(r),
{
    text_reply(500, "Internal server error. Try again later.")
}

} // verus!
