//! The HTTP endpoints' decisions: the status endpoint and the screenshot
//! endpoint, sharing one configuration.

pub mod config;
pub mod screenshot;
pub mod status;
