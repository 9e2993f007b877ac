//! A minimal in-memory key-value server core, verified with Verus.
//!
//! The crate pairs a line-oriented request framing (array headers and bulk
//! string elements) with a key-value store that a single logical owner
//! mutates.  The pieces are:
//!
//! - [`text`]: ASCII helpers shared by framing and replies (case folding,
//!   decimal numbers, whitespace trimming).
//! - [`reply`]: the exact bytes of every reply the server can send.
//! - [`thread_safe_map`]: the store itself, together with the request
//!   messages its owner processes in arrival order.
//! - [`command`]: classification of a completed argument list into a command.
//! - [`frame`]: the per-connection frame reader that turns trimmed lines into
//!   complete argument lists.
//! - [`connection`]: command execution and the per-line step that a
//!   connection loop drives.

pub mod command;
pub mod connection;
pub mod frame;
pub mod reply;
pub mod text;
pub mod thread_safe_map;
