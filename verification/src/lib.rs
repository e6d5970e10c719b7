//! Tag-discovery and relationship-graph construction for convention-tagged
//! source trees.
//!
//! The library scans a collection of source files (each a file stem plus its
//! lines, as raw bytes) for a case-insensitive marker token, derives the
//! vocabulary of tagged entities, and builds two order-preserving,
//! duplicate-free mappings: entity name to referencing file stems, and file
//! stem to referenced entity names. Reference detection is literal
//! (case-sensitive) substring matching of a configurable list of
//! naming-convention candidate patterns. Directory traversal and file reading
//! are the caller's concern: the scan itself is a pure function of its inputs.

pub mod bytes;
pub mod classify;
pub mod laws;
pub mod matching;
pub mod model;
pub mod scan;
