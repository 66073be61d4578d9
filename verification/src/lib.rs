//! Path-based access-control decisions for version-control push hooks.
//!
//! The crate parses a line-oriented rule file into an ordered list of
//! pattern rules, selects the governing rule for each changed path
//! (first match wins), and decides whether the acting user may write
//! that path. It also checks that the rule file itself is not left
//! writable by everyone.

pub mod acl;
pub mod engine;
pub mod rex;
pub mod text;
