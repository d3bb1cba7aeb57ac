//! Extraction of Othello position-analysis records from archive text.
//!
//! One text line describes a searched board position: a 64-character board
//! signature, the search settings used, the score bounds found, and the node
//! count spent. This crate parses such lines, validates them against the
//! domain invariants, selects the fully-searched ones, and encodes those to a
//! fixed 18-byte little-endian layout.

pub mod analysis;
pub mod grammar;
pub mod parse;
pub mod validate;
pub mod walker;
