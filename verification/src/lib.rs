//! Web screenshot server: the request rules, the frame geometry and the
//! reply formats, with their contracts.
//!
//! Terminology:
//! - `vw`/`vh`: viewport width and height (px)
//! - `frames`: number of vertical chunks a page is sliced into
//! - `format`: screenshot output format ({jpeg, png, webp})

pub mod error;
pub mod image;
pub mod order;
pub mod reply;
pub mod routes;
pub mod text;
