use vstd::prelude::*;

use crate::escape::MalformedEscape;
use crate::event::{
    RawOutcomeEvent,
    RawOutcomeEventView,
    TestOutcome,
    TestOutcomeView,
    classified,
    classify,
    outcome_view,
};
use crate::text::chars_of;

verus! {

/// Whether serde_json reads `line` as one JSON value.
pub uninterp spec fn is_json_value(line: Seq<char>) -> bool;

/// The text that serde_json renders for member `key` of the JSON value read
/// from `line` (`null` where there is no such member).
pub uninterp spec fn member_text(line: Seq<char>, key: Seq<char>) -> Seq<char>;

/// The record that a line of output holds, if it is JSON.
pub open spec fn event_of_line(line: Seq<char>) -> RawOutcomeEventView {
    RawOutcomeEventView {
        kind: member_text(line, "type"@),
        event: member_text(line, "event"@),
        name: member_text(line, "name"@),
        stdout: member_text(line, "stdout"@),
    }
}

/// Relies on `serde_json::from_str::<Value>` to read the line, and on indexing
/// the value and `Value::to_string` to render the members that the records
/// of a test run carry.
#[verifier::external_body]
fn parse_event(line: &str) -> (r: Option<RawOutcomeEvent>)
    ensures
        r is Some <==> is_json_value(line@),
        r matches Some(e) ==> e.kind@ == member_text(line@, "type"@) && e.event@ == member_text(
            line@,
            "event"@,
        ) && e.name@ == member_text(line@, "name"@) && e.stdout@ == member_text(
            line@,
            "stdout"@,
        ),
{
    match serde_json::from_str::<serde_json::Value>(line) {
        Ok(v) => Some(
            RawOutcomeEvent {
                kind: v["type"].to_string(),
                event: v["event"].to_string(),
                name: v["name"].to_string(),
                stdout: v["stdout"].to_string(),
            },
        ),
        Err(_) => None,
    }
}

/// What one line of output contributes: nothing where it is not JSON.
pub open spec fn line_outcome(line: Seq<char>) -> Result<Option<TestOutcomeView>, MalformedEscape> {
    if is_json_value(line) {
        classified(event_of_line(line))
    } else {
        Ok(None)
    }
}

/// Reads one line of a test run's output.
pub fn classify_line(line: &str) -> (r: Result<Option<TestOutcome>, MalformedEscape>)
    ensures
        outcome_view(r) == line_outcome(line@),
{
    match parse_event(line) {
        Some(e) => {
            assert(e@ == event_of_line(line@));
            classify(&e)
        },
        None => Ok(None),
    }
}

/// The lines of `s`, split at each `'\n'`; a text without one is one line.
pub open spec fn lines_of(s: Seq<char>) -> Seq<Seq<char>>
    decreases s.len(),
{
    if s.len() == 0 {
        seq![Seq::empty()]
    } else {
        let prev = lines_of(s.drop_last());
        if s.last() == '\n' {
            prev.push(Seq::empty())
        } else {
            prev.update(prev.len() - 1, prev.last().push(s.last()))
        }
    }
}

/// The finished tests that `lines` report, in order.
pub open spec fn outcomes_of_lines(lines: Seq<Seq<char>>) -> Result<Seq<TestOutcomeView>, MalformedEscape>
    decreases lines.len(),
{
    if lines.len() == 0 {
        Ok(Seq::empty())
    } else {
        match outcomes_of_lines(lines.drop_last()) {
            Ok(prev) => match line_outcome(lines.last()) {
                Ok(Some(o)) => Ok(prev.push(o)),
                Ok(None) => Ok(prev),
                Err(e) => Err(e),
            },
            Err(e) => Err(e),
        }
    }
}

/// A line that is not JSON reports nothing: taking it out of the output
/// changes neither the outcomes read nor their order.
pub proof fn lemma_non_json_line_ignored(a: Seq<Seq<char>>, line: Seq<char>, b: Seq<Seq<char>>)
    requires
        !is_json_value(line),
    ensures
        outcomes_of_lines(a.push(line) + b) == outcomes_of_lines(a + b),
    decreases b.len(),
{
    if b.len() == 0 {
        assert(a.push(line) + b == a.push(line));
        assert(a + b == a);
        assert(a.push(line).drop_last() == a);
    } else {
        lemma_non_json_line_ignored(a, line, b.drop_last());
        assert((a.push(line) + b).drop_last() == a.push(line) + b.drop_last());
        assert((a + b).drop_last() == a + b.drop_last());
        assert((a.push(line) + b).last() == b.last());
        assert((a + b).last() == b.last());
    }
}

/// The finished tests that a test run's output reports, in order.
pub open spec fn outcomes_of_output(s: Seq<char>) -> Result<Seq<TestOutcomeView>, MalformedEscape> {
    outcomes_of_lines(lines_of(s))
}

/// The models of a sequence of outcomes.
pub open spec fn outcome_views(v: Seq<TestOutcome>) -> Seq<TestOutcomeView> {
    v.map_values(|o: TestOutcome| o@)
}

proof fn lemma_lines_nonempty(s: Seq<char>)
    ensures
        lines_of(s).len() >= 1,
    decreases s.len(),
{
    if s.len() > 0 {
        lemma_lines_nonempty(s.drop_last());
    }
}

/// Reads a whole test run's output: every line that is a JSON record of a
/// finished test gives one outcome, in the order of the lines.
pub fn collect_outcomes(output: &str) -> (r: Result<Vec<TestOutcome>, MalformedEscape>)
    ensures
        match r {
            Ok(v) => outcomes_of_output(output@) == Ok::<_, MalformedEscape>(outcome_views(v@)),
            Err(e) => outcomes_of_output(output@) == Err::<Seq<TestOutcomeView>, _>(e),
        },
{
    let cs = chars_of(output);
    let n = cs.len();
    let mut found: Vec<TestOutcome> = Vec::new();
    let mut failed: bool = false;
    let mut cur = String::new();
    let mut i: usize = 0;
    proof {
        let start = lines_of(output@.subrange(0, 0));
        assert(start == seq![Seq::<char>::empty()]);
        assert(start.drop_last() =~= Seq::<Seq<char>>::empty());
        assert(outcome_views(found@) =~= Seq::<TestOutcomeView>::empty());
    }
    while i < n
        invariant
            n == cs@.len(),
            cs@ == output@,
            i <= n,
            lines_of(output@.subrange(0, i as int)).len() >= 1,
            lines_of(output@.subrange(0, i as int)).last() == cur@,
            outcomes_of_lines(lines_of(output@.subrange(0, i as int)).drop_last()) == (if failed {
                Err::<Seq<TestOutcomeView>, _>(MalformedEscape)
            } else {
                Ok(outcome_views(found@))
            }),
        decreases n - i,
    {
        let ghost pre = output@.subrange(0, i as int);
        let ghost lines = lines_of(pre);
        let c = cs[i];
        i += 1;
        proof {
            assert(output@.subrange(0, i as int).drop_last() == pre);
            lemma_lines_nonempty(pre);
        }
        if c == '\n' {
            proof {
                assert(lines_of(output@.subrange(0, i as int)).drop_last() == lines);
                assert(lines == lines.drop_last().push(cur@));
            }
            if !failed {
                match classify_line(cur.as_str()) {
                    Ok(Some(o)) => {
                        let ghost before = found@;
                        found.push(o);
                        assert(outcome_views(found@) == outcome_views(before).push(o@));
                    },
                    Ok(None) => {},
                    Err(_) => {
                        failed = true;
                    },
                }
            }
            cur = String::new();
        } else {
            cur.push(c);
            proof {
                assert(lines_of(output@.subrange(0, i as int)).drop_last() == lines.drop_last());
            }
        }
    }
    proof {
        assert(output@.subrange(0, n as int) == output@);
        let lines = lines_of(output@);
        assert(lines == lines.drop_last().push(cur@));
    }
    if failed {
        Err(MalformedEscape)
    } else {
        match classify_line(cur.as_str()) {
            Ok(Some(o)) => {
                let ghost before = found@;
                found.push(o);
                assert(outcome_views(found@) == outcome_views(before).push(o@));
                Ok(found)
            },
            Ok(None) => Ok(found),
            Err(e) => Err(e),
        }
    }
}

} // verus!
