//! A verified core for a read-only repository browser: resolving a
//! slash-separated request path inside a commit's file tree, walking recent
//! commit history, and turning Markdown text into titled, link-rewritten HTML.
//!
//! The library owns the logic only. Opening repositories, reading objects and
//! serving HTTP stay with the host program, which hands the library plain
//! values (trees, commit graphs, text) and takes plain values back.

pub mod paths;
pub mod tree;
pub mod history;
pub mod markdown;
pub mod resolve;
pub mod store;
