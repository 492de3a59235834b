//! Fact extraction for a borrow-checking analysis: given a small imperative
//! program (variables, typed references with named origins, structs, basic
//! blocks), derives the flat relational fact base consumed by a downstream
//! Datalog-style solver: control-flow edges, origin accesses, clears and
//! invalidations, and lifetime-subset obligations.

pub mod ast;
pub mod emitspec;
pub mod emitter;
pub mod facts;
pub mod laws;
pub mod loans;
pub mod names;
pub mod render;
pub mod resolve;
pub mod seqs;
pub mod text;
