//! A dataflow runtime for streaming signal-processing graphs.
//!
//! Blocks are wired into a flowgraph with stream edges (backed by buffers)
//! and message edges (backed by mailboxes); a cooperative scheduler drives
//! the graph until every block has finished.

pub mod blocks;
pub mod runtime;
