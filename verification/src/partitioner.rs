//! Partitioning of TypeScript and TSX sources into chunks along the syntax tree.
//!
//! The file is a sequence of line ranges. A range whose text is larger than the
//! target is divided at a line that the syntax tree proposes:
//!
//! - split scopes are nodes whose direct children define the boundaries;
//! - transparent conduits are wrappers that are passed through on the way down;
//! - the shallowest scope with a usable boundary decides.
pub mod node_analysis;
pub mod split_search;
pub mod types;
pub mod partition;
pub mod boundaries;
pub mod naming;
