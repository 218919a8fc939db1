//! Rewrites a README's markdown so that it can be embedded as a crate's
//! top-level documentation: the sole top-level header is removed, every other
//! header is demoted by one level, and reference-link definitions that point
//! at the `docs.rs` page of a given package are rewritten into intra-doc link
//! targets such as `crate::module::Item`. Text inside fenced code blocks is
//! never touched.

pub mod errors;
pub mod fence;
pub mod header;
pub mod laws;
pub mod link;
pub mod text;
pub mod transform;
pub mod url;

pub use errors::Error;
pub use transform::rustdocify;
