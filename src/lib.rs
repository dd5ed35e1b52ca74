//! Recursive, context-aware text search: a pattern compiler that encodes a
//! window of surrounding lines in one regular expression, a line scanner, and
//! a depth-first walk over a directory tree driven by its caller.
pub mod pattern;
pub mod scan;
pub mod text;
pub mod walk;
