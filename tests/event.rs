use test_runner::escape::MalformedEscape;
use test_runner::event::{classify, unquote, RawOutcomeEvent};
use test_runner::output::{classify_line, collect_outcomes};

fn raw(kind: &str, event: &str, name: &str, stdout: &str) -> RawOutcomeEvent {
    RawOutcomeEvent {
        kind: kind.to_string(),
        event: event.to_string(),
        name: name.to_string(),
        stdout: stdout.to_string(),
    }
}

#[test]
fn unquotes_rendered_strings() {
    assert_eq!(unquote("\"abc\""), "abc");
    assert_eq!(unquote("\"\""), "");
    assert_eq!(unquote("null"), "");
    assert_eq!(unquote("42"), "");
    assert_eq!(unquote("\""), "");
}

#[test]
fn started_event_is_not_an_outcome() {
    let e = raw("\"test\"", "\"started\"", "\"t\"", "null");
    assert!(classify(&e).unwrap().is_none());
}

#[test]
fn suite_event_is_not_an_outcome() {
    let e = raw("\"suite\"", "\"ok\"", "null", "null");
    assert!(classify(&e).unwrap().is_none());
}

#[test]
fn passed_test_has_empty_diagnostic() {
    let e = raw("\"test\"", "\"ok\"", "\"tests::a\"", "\"ignored\"");
    let o = classify(&e).unwrap().unwrap();
    assert_eq!(o.name, "tests::a");
    assert!(o.passed);
    assert_eq!(o.diagnostic, "");
}

#[test]
fn failed_test_diagnostic_is_decoded() {
    let e = raw("\"test\"", "\"failed\"", "\"tests::b\"", "\"left\\nright\"");
    let o = classify(&e).unwrap().unwrap();
    assert_eq!(o.name, "tests::b");
    assert!(!o.passed);
    assert_eq!(o.diagnostic, "left\nright");
}

#[test]
fn missing_stdout_gives_empty_diagnostic() {
    let e = raw("\"test\"", "\"failed\"", "\"tests::c\"", "null");
    let o = classify(&e).unwrap().unwrap();
    assert_eq!(o.diagnostic, "");
}

#[test]
fn other_verdicts_count_as_failures() {
    let e = raw("\"test\"", "\"ignored\"", "\"tests::d\"", "null");
    let o = classify(&e).unwrap().unwrap();
    assert!(!o.passed);
}

#[test]
fn malformed_diagnostic_is_an_error() {
    let e = raw("\"test\"", "\"failed\"", "\"tests::e\"", "\"bad \\u12\"");
    assert_eq!(classify(&e).err(), Some(MalformedEscape));
}

#[test]
fn classifies_json_lines() {
    let ok = classify_line("{ \"type\": \"test\", \"event\": \"ok\", \"name\": \"tests::a\" }")
        .unwrap()
        .unwrap();
    assert_eq!(ok.name, "tests::a");
    assert!(ok.passed);
    let failed = classify_line(
        "{ \"type\": \"test\", \"event\": \"failed\", \"name\": \"tests::b\", \"stdout\": \"boom\\nat line 3\" }",
    )
    .unwrap()
    .unwrap();
    assert_eq!(failed.name, "tests::b");
    assert!(!failed.passed);
    assert_eq!(failed.diagnostic, "boom\nat line 3");
    assert!(classify_line("{ \"type\": \"test\", \"event\": \"started\", \"name\": \"tests::a\" }")
        .unwrap()
        .is_none());
    assert!(classify_line("{ \"type\": \"suite\", \"event\": \"ok\", \"passed\": 2 }").unwrap().is_none());
}

#[test]
fn non_json_line_is_skipped() {
    assert!(classify_line("running 2 tests").unwrap().is_none());
    assert!(classify_line("").unwrap().is_none());
}

#[test]
fn unparseable_line_keeps_numbering() {
    let out = "{ \"type\": \"test\", \"event\": \"ok\", \"name\": \"one\" }\n\
               warning: not json\n\
               { \"type\": \"test\", \"event\": \"failed\", \"name\": \"two\", \"stdout\": \"x\" }\n";
    let v = collect_outcomes(out).unwrap();
    assert_eq!(v.len(), 2);
    assert_eq!(v[0].name, "one");
    assert!(v[0].passed);
    assert_eq!(v[1].name, "two");
    assert!(!v[1].passed);
    assert_eq!(v[1].diagnostic, "x");
}

#[test]
fn last_line_without_newline_is_read() {
    let out = "{ \"type\": \"test\", \"event\": \"ok\", \"name\": \"only\" }";
    let v = collect_outcomes(out).unwrap();
    assert_eq!(v.len(), 1);
    assert_eq!(v[0].name, "only");
}

#[test]
fn empty_output_has_no_outcomes() {
    assert_eq!(collect_outcomes("").unwrap().len(), 0);
}

#[test]
fn escaped_backslash_in_output_is_decoded() {
    let out = "{ \"type\": \"test\", \"event\": \"failed\", \"name\": \"t\", \"stdout\": \"a\\\\ \\\"q\\\"\" }\n";
    let v = collect_outcomes(out).unwrap();
    assert_eq!(v[0].diagnostic, "a\\ \"q\"");
}
