//! Unified error type handed around by the whole crate.

use vstd::prelude::*;
use crate::reply::{Reply, internal_error_reply, is_internal_error_reply};

verus! {

/// Unified error type for this crate.
///
/// Errors that come from outside libraries (I/O, URL parsing, the
/// browser, the image library, task plumbing) carry their message.
#[derive(Debug, PartialEq, Eq)]
pub enum Error {
    Io(String),
    Url(String),
    // Browser
    Chromiumoxide(String),
    BrowserConfig(String),
    Screenshot(String),
    // Image
    Libvips(String),
    Image(String),
    // Concurrency
    ChannelSend,
    OneshotRecv(String),
    Join(String),
    // Catch-all
    Other(String),
}

} // verus!

verus! {

impl Error {
    /// The reply to a request that failed with this error: a generic
    /// internal server error, so as not to leak internals. Whatever the
    /// error, the reply is the same.
    pub fn response(&self) -> (r: Reply)
        ensures
            is_internal_error_reply(r),
    {
        internal_error_reply()
    }
}

} // verus!
