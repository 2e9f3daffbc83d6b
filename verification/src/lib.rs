//! Verified content store for a Markdown-based site-authoring workspace.
//!
//! The crate keeps the pure logic of the store: name sanitization, the
//! line-oriented frontmatter codec, template generation, and the planning
//! of every project and post operation over plain values. The surrounding
//! shell performs the actual filesystem reads and writes and hands the
//! results back as plain values.

pub mod atomic;
pub mod chars;
pub mod frontmatter;
pub mod numbers;
pub mod sanitize;
pub mod segments;
pub mod store;
pub mod templates;
