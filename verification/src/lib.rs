//! Query-state and pagination resolver for a server-rendered list UI.
//!
//! The crate parses a raw URL query string into a typed [`query_params::StateParams`],
//! derives pagination facts ([`pagination::Pagination`]), rebuilds query strings that
//! keep every filter while switching the page ([`context::Context`]), and classifies
//! the trailing path segment of a detail route ([`path::DetailOperations`]).
//! All parsing is best-effort: malformed input falls back to defaults, never to an error.

pub mod context;
pub mod model;
pub mod pagination;
pub mod path;
pub mod query_params;
pub mod request_extension;
pub mod strutil;
pub mod view;
