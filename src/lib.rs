//! Grading of test runs: reads the line-delimited JSON records that a test
//! runner prints, keeps those of finished tests, shares each suite's points
//! evenly among the tests it discovered, and gathers the graded tests of all
//! suites into one report.
//!
//! Points and scores are counted in hundredths of a point.
use vstd::prelude::*;

pub mod escape;
pub mod event;
pub mod output;
pub mod report;
pub mod score;
pub mod text;

verus! {

} // verus!
