//! A line-scanning substring search library.
//!
//! Given a query and a document, the engine reports which lines
//! contain the query — case-sensitively or under a simple lowercase
//! fold — together with the exact non-overlapping spans of each
//! occurrence, and the presenter turns each matching line into its
//! display form with the occurrences emphasized.

pub mod fold;
pub mod lines;
pub mod scan;
pub mod engine;
pub mod render;
pub mod numfmt;
pub mod output;
pub mod laws;

use vstd::prelude::*;

verus! {

/// The parsed invocation: pattern to search for, file to search in,
/// and the two presentation flags.
#[derive(Debug)]
pub struct Config {
    pub pattern: String,
    pub filename: String,
    pub ignore_case: bool,
    pub line_number: bool,
}

} // verus!
