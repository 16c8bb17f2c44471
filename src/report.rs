use vstd::prelude::*;

use crate::escape::MalformedEscape;
use crate::output::{collect_outcomes, outcomes_of_output};
use crate::score::{
    ScoredTest,
    ScoredTestView,
    SuiteSpec,
    SuiteSpecView,
    score_batch,
    scored_batch,
    scored_views,
};

verus! {

/// The graded tests of a suite whose run printed `output`.
pub open spec fn suite_tests(suite: SuiteSpecView, output: Seq<char>) -> Result<
    Seq<ScoredTestView>,
    MalformedEscape,
> {
    match outcomes_of_output(output) {
        Ok(os) => Ok(scored_batch(suite, os)),
        Err(e) => Err(e),
    }
}

/// Reads what a suite's run printed and grades the tests it reports.
pub fn grade_suite(suite: &SuiteSpec, output: &str) -> (r: Result<Vec<ScoredTest>, MalformedEscape>)
    ensures
        match r {
            Ok(ts) => suite_tests(suite@, output@) == Ok::<_, MalformedEscape>(scored_views(ts@)),
            Err(e) => suite_tests(suite@, output@) == Err::<Seq<ScoredTestView>, _>(e),
        },
{
    match collect_outcomes(output) {
        Ok(outcomes) => Ok(score_batch(suite, &outcomes)),
        Err(e) => Err(e),
    }
}

/// The grade report of a run: the graded tests of every suite, in order,
/// and the message of the last suite that could not be run (empty if none).
pub struct Report {
    pub tests: Vec<ScoredTest>,
    pub output: String,
}

impl Report {
    /// A report with no tests and no message.
    pub fn new() -> (r: Report)
        ensures
            r.tests@.len() == 0,
            r.output@.len() == 0,
    {
        Report { tests: Vec::new(), output: String::new() }
    }

    /// Adds the result of running `suite`: its output when the run
    /// happened, or why it could not be run. The graded tests of a run are
    /// appended; a failed run replaces the report's message and adds no
    /// test. Where the output holds a malformed escape the report is left
    /// as it was.
    pub fn add_suite(&mut self, suite: &SuiteSpec, run: &Result<String, String>) -> (r: Result<
        (),
        MalformedEscape,
    >)
        ensures
            match run {
                Err(msg) => {
                    &&& r is Ok
                    &&& final(self).output@ == msg@
                    &&& final(self).tests@ == old(self).tests@
                },
                Ok(text) => match suite_tests(suite@, text@) {
                    Ok(ts) => {
                        &&& r is Ok
                        &&& scored_views(final(self).tests@) == scored_views(old(self).tests@) + ts
                        &&& final(self).output@ == old(self).output@
                    },
                    Err(e) => {
                        &&& r == Err::<(), _>(e)
                        &&& final(self).tests@ == old(self).tests@
                        &&& final(self).output@ == old(self).output@
                    },
                },
            },
    {
        match run {
            Err(msg) => {
                self.output = msg.clone();
                Ok(())
            },
            Ok(text) => match grade_suite(suite, text.as_str()) {
                Ok(ts) => {
                    let ghost before = self.tests@;
                    let ghost added = ts@;
                    let mut ts = ts;
                    self.tests.append(&mut ts);
                    assert(scored_views(self.tests@) =~= scored_views(before) + scored_views(added));
                    Ok(())
                },
                Err(e) => Err(e),
            },
        }
    }
}

} // verus!
