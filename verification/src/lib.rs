//! Byte-stream sources and sinks with a fully specified in-memory variant,
//! plus a line-oriented processor that annotates failures with the 1-based
//! line number at which they occurred.
//!
//! The standard-input / standard-output and file variants of the stream
//! abstraction live with the binary that drives them; this crate holds the
//! data model they all share: the in-memory buffer, the line splitter, the
//! error values and the processing rules.

pub mod args;
pub mod line_error;
pub mod lines;
pub mod memory;
pub mod processor;
pub mod stream_error;
mod text;
