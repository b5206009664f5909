//! Streaming rewriter for the PNG chunk container format.
//!
//! The engine reads a signature-prefixed stream of framed chunks
//! (length, type tag, payload, checksum), merges adjacent chunks that
//! share a type tag into one logical payload, hands that payload to a
//! transform, and emits a structurally valid stream with freshly
//! computed length and checksum fields.

pub mod checksum;
pub mod chunk;
pub mod codec;
pub mod engine;
pub mod errors;
pub mod laws;
pub mod transform;
