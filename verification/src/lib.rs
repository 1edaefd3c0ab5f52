//! A small command-line task tracker library.
//!
//! Tasks are kept as an insertion-ordered collection and persisted as a
//! pretty-printed JSON array.  The library holds the verified logic: command
//! argument parsing, status parsing, the JSON codec for the store, and the
//! add / delete / edit / list operations.  File and console I/O live outside.

pub mod strutil;
pub mod entities;
pub mod numbers;
pub mod codec;
pub mod handlers;
