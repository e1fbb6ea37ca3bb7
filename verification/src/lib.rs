//! Interactive review state for a working tree's pending changes.
//!
//! The heart of the crate is the virtual diff-document engine: a pair of
//! source-of-truth structures (an immutable diff snapshot and a mutable
//! review session) together with pure traversal functions that flatten the
//! hierarchical document (files, comments, hunks, lines) into a single
//! addressable line space, and a controller that keeps a cursor and scroll
//! window consistent inside that space under every mutation.

pub mod model;
pub mod session;
pub mod index;
pub mod app;
pub mod text;
pub mod laws;
pub mod error;
pub mod markdown;
pub mod input;
