//! A tree-to-text rendering engine that turns a parsed document tree
//! (GitHub-flavored-Markdown semantics) into forum-style bracketed-tag
//! markup.
//!
//! The renderer walks the tree depth-first, left to right, emitting one
//! markup fragment per node. It threads a render state through the
//! recursion: deferred link definitions and footnotes, emitted once at
//! document end; a subtree-scoped table/row accumulator for tabular
//! content; and a diagnostics channel for node kinds the target dialect
//! cannot express. A final pass trims the result and normalizes the
//! whitespace artifacts the dialect's lack of a block model produces.
//!
//! `model` holds the mathematical description of the pass, `state` the
//! executable renderer proved against it, and `laws` the properties the
//! library guarantees.

pub mod grid;
pub mod laws;
pub mod model;
pub mod node;
pub mod state;
pub mod text;
