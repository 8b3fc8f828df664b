//! Limits shared by the request handlers.

use vstd::prelude::*;

verus! {

/// Server limits shared by all request handlers, mirroring the command
/// line options.
#[derive(Debug, Clone, Copy, PartialEq, Eq, Structural)]
pub struct Config {
    /// Maximum number of concurrent browser tasks
    pub concurrency: usize,
    /// Request timeout in milliseconds, and the cap of a request's own
    pub timeout_ms: u32,
    /// Maximum number of frames per page
    pub max_frames: u32,
}

} // verus!
