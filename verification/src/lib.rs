//! Chronological image identifiers.
//!
//! The library resolves a timezone-correct capture timestamp from
//! metadata text, fingerprints decoded pixel data, and encodes both into
//! one fixed-width string whose byte-wise order follows the capture time.

pub mod digits;
pub mod encodings;
pub mod errors;
pub mod fingerprint;
pub mod identifier;
mod strutil;
pub mod timestamp;
