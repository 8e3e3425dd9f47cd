//! Byte-dump formatting: offset specifiers, chunked reading, column encoders
//! and the per-chunk line layout of an `od`-style dump, with the small
//! decisions of the companion tools (base names, removal, tee destinations).
pub mod basename;
pub mod digits;
pub mod dump;
pub mod encode;
pub mod offset;
pub mod remove;
pub mod tee;
