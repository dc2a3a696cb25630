//! Conversion of sieve-generated binary window files to CSV text.
//!
//! A window file is a 16-byte header (`range_start`, `range_end`, both
//! little-endian `u64`) followed by zero or more 16-byte records
//! (`prime`, `next_value`, both little-endian `u64`). The library decodes
//! such a byte stream into CSV text, optionally re-checking each record's
//! primality, and states the exact output text in its contracts.

pub mod primality;
pub mod text;
pub mod codec;
pub mod csv;
pub mod convert;
pub mod batch;
