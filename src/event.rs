use vstd::prelude::*;

use crate::escape::{MalformedEscape, unescape, unescaped};
use crate::text::{chars_of, same_text, string_of_range};

verus! {

/// One record of a test run's output, as the text that each of its members
/// renders to (`"\"test\""` for the string `test`, `null` for a missing
/// member).
pub struct RawOutcomeEvent {
    pub kind: String,
    pub event: String,
    pub name: String,
    pub stdout: String,
}

/// The model of a [`RawOutcomeEvent`].
pub struct RawOutcomeEventView {
    pub kind: Seq<char>,
    pub event: Seq<char>,
    pub name: Seq<char>,
    pub stdout: Seq<char>,
}

impl View for RawOutcomeEvent {
    type V = RawOutcomeEventView;

    open spec fn view(&self) -> RawOutcomeEventView {
        RawOutcomeEventView {
            kind: self.kind@,
            event: self.event@,
            name: self.name@,
            stdout: self.stdout@,
        }
    }
}

/// A completed test: its name, its verdict, and what it printed when it
/// failed.
pub struct TestOutcome {
    pub name: String,
    pub passed: bool,
    pub diagnostic: String,
}

/// The model of a [`TestOutcome`].
pub struct TestOutcomeView {
    pub name: Seq<char>,
    pub passed: bool,
    pub diagnostic: Seq<char>,
}

impl View for TestOutcome {
    type V = TestOutcomeView;

    open spec fn view(&self) -> TestOutcomeView {
        TestOutcomeView { name: self.name@, passed: self.passed, diagnostic: self.diagnostic@ }
    }
}

/// The text inside the quotes of a rendered string value; anything that is
/// not a quoted string (a missing member, `null`, a number) counts as empty.
pub open spec fn quoted_content(t: Seq<char>) -> Seq<char> {
    if t.len() >= 2 && t[0] == '"' && t[t.len() - 1] == '"' {
        t.subrange(1, t.len() - 1)
    } else {
        Seq::empty()
    }
}

/// Whether a record reports a test that has finished.
pub open spec fn is_completion(e: RawOutcomeEventView) -> bool {
    quoted_content(e.kind) == "test"@ && quoted_content(e.event) != "started"@
}

/// What a record says of a finished test, if it reports one; an error where
/// the diagnostic of a failed test holds a malformed escape.
pub open spec fn classified(e: RawOutcomeEventView) -> Result<
    Option<TestOutcomeView>,
    MalformedEscape,
> {
    if !is_completion(e) {
        Ok(None)
    } else if quoted_content(e.event) == "ok"@ {
        Ok(Some(TestOutcomeView { name: quoted_content(e.name), passed: true, diagnostic: Seq::empty() }))
    } else {
        match unescaped(quoted_content(e.stdout)) {
            Some(d) => Ok(Some(TestOutcomeView { name: quoted_content(e.name), passed: false, diagnostic: d })),
            None => Err(MalformedEscape),
        }
    }
}

/// The model of what [`classify`] returns.
pub open spec fn outcome_view(r: Result<Option<TestOutcome>, MalformedEscape>) -> Result<
    Option<TestOutcomeView>,
    MalformedEscape,
> {
    match r {
        Ok(Some(o)) => Ok(Some(o@)),
        Ok(None) => Ok(None),
        Err(e) => Err(e),
    }
}

/// The text inside the quotes of a rendered value (see [`quoted_content`]).
pub fn unquote(t: &str) -> (r: String)
    ensures
        r@ == quoted_content(t@),
{
    let cs = chars_of(t);
    let n = cs.len();
    if n >= 2 && cs[0] == '"' && cs[n - 1] == '"' {
        string_of_range(&cs, 1, n - 1)
    } else {
        String::new()
    }
}

/// Decides whether `e` reports a finished test and, if so, reads its name,
/// verdict and decoded diagnostic.
pub fn classify(e: &RawOutcomeEvent) -> (r: Result<Option<TestOutcome>, MalformedEscape>)
    ensures
        outcome_view(r) == classified(e@),
{
    let kind = unquote(e.kind.as_str());
    let event = unquote(e.event.as_str());
    if !same_text(kind.as_str(), "test") || same_text(event.as_str(), "started") {
        return Ok(None);
    }
    let name = unquote(e.name.as_str());
    if same_text(event.as_str(), "ok") {
        Ok(Some(TestOutcome { name, passed: true, diagnostic: String::new() }))
    } else {
        let stdout = unquote(e.stdout.as_str());
        match unescape(stdout.as_str()) {
            Ok(diagnostic) => Ok(Some(TestOutcome { name, passed: false, diagnostic })),
            Err(err) => Err(err),
        }
    }
}

} // verus!
