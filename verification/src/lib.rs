//! Builds a normalized, relationally-structured document describing the
//! public API surface of a crate, from a symbol graph exposed by an analysis
//! index: a breadth-first walk over the graph, a classifier from symbol kinds
//! to resource types, an assembler that groups resource records into
//! relationship buckets, and a serializer that renders the result as JSON.

pub mod assemble;
pub mod classify;
pub mod document;
pub mod error;
pub mod graph;
pub mod json;
pub mod serialize;
pub mod symbol;
