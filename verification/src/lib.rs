//! Module harnesses: the structured doc comment at the top of a source file
//! that holds a module's `Spec`, `Agentic Contracts` and `Evals`.
//!
//! The library finds the comment in each supported comment syntax, reads
//! its sections and eval entries (with their type annotations), finds the
//! test functions a file defines, and tallies which evals they cover.
use vstd::prelude::*;

pub mod text;
pub mod eval;
pub mod parse;
pub mod report;
pub mod laws;
pub mod coverage_laws;
pub mod section_laws;

verus! {

} // verus!
