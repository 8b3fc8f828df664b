//! Health-check endpoint.

use vstd::prelude::*;
use crate::reply::{Reply, is_text_reply, text_reply};

verus! {

/// Health check: always `200 OK` with a plain-text body.
pub fn status() -> (r: Reply)
    ensures
        is_text_reply(r, 200, "OK"@),
{
    text_reply(200, "OK")
}

} // verus!
