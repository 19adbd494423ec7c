//! Line-ending conversion between CRLF (`\r\n`) and LF (`\n`).
//!
//! The conversion engine is a pair of pure functions over character
//! sequences: `crlf_to_lf` collapses every `\r\n` pair into `\n`, and
//! `lf_to_crlf` expands every `\n` that is not already part of a `\r\n`
//! pair into `\r\n`.  A `\r` that is not immediately followed by `\n`
//! (a "lone CR") is passed through unchanged in both directions.

pub mod engine;
pub mod laws;
pub mod model;

pub use engine::crlf_to_lf;
pub use engine::lf_to_crlf;
