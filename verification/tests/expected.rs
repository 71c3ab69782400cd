use rglint::harness::{find_source, project_actual, ActualError, Comparator, ExpectedError, ParityDiff};
use rglint::model::Span;
use rglint::snapshot::{ReportedDiagnostic, SourceText};

fn ex(rule: &str, line: usize, col: usize, msg: &str) -> ExpectedError {
    ExpectedError { rule: rule.to_owned(), line, column: col, message: msg.to_owned() }
}

fn act(rule: &str, line: usize, col: usize, msg: &str) -> ActualError {
    ActualError { rule: rule.to_owned(), line, column: col, message: msg.to_owned() }
}

#[test]
fn equal_sequences_compare_ok() {
    let expected = [ex("r", 1, 0, "m")];
    let actual = [act("r", 1, 0, "m")];
    Comparator::new(&expected, false).compare(&actual).expect("identical -> ok");
}

#[test]
fn count_mismatch_returns_count_diff() {
    let expected = [ex("r", 1, 0, "m")];
    let actual: [ActualError; 0] = [];
    let err = Comparator::new(&expected, false).compare(&actual).expect_err("count mismatch");
    assert!(err.summary().contains("count"));
    assert!(err.render().contains("expected 1"));
}

#[test]
fn message_mismatch_reported_under_strict_mode() {
    let expected = [ex("r", 1, 0, "right")];
    let actual = [act("r", 1, 0, "wrong")];
    let err = Comparator::new(&expected, false).compare(&actual).expect_err("message mismatch");
    assert!(err.render().contains("message differs"));
}

#[test]
fn loose_message_skips_message_field() {
    let expected = [ex("r", 1, 0, "anything")];
    let actual = [act("r", 1, 0, "totally different")];
    Comparator::new(&expected, true).compare(&actual).expect("loose_message ignores message");
}

#[test]
fn location_mismatch_reported_even_under_loose_message() {
    let expected = [ex("r", 1, 0, "x")];
    let actual = [act("r", 2, 0, "x")];
    let err = Comparator::new(&expected, true)
        .compare(&actual)
        .expect_err("location must still match under loose_message");
    assert!(err.render().contains("location differs"));
}

#[test]
fn rule_id_mismatch_reported_even_under_loose_message() {
    let expected = [ex("r1", 1, 0, "x")];
    let actual = [act("r2", 1, 0, "x")];
    let err = Comparator::new(&expected, true)
        .compare(&actual)
        .expect_err("rule id must still match under loose_message");
    assert!(err.render().contains("rule id differs"));
}

#[test]
fn valid_case_with_zero_diagnostics_is_ok() {
    let actual: [ActualError; 0] = [];
    Comparator::new(&[], false).compare_valid(&actual).expect("valid + zero -> ok");
}

#[test]
fn valid_case_with_diagnostics_reports_first() {
    let actual = [act("r", 5, 2, "boom")];
    let err = Comparator::new(&[], false).compare_valid(&actual).expect_err("valid + stray -> err");
    assert!(err.render().contains("unexpected diagnostics"));
    assert!(err.render().contains("boom"));
}

#[test]
fn slot_diff_renders_every_line_exactly() {
    let e = ex("r1", 3, 4, "a\"b");
    let a = act("r2", 3, 5, "c");
    let d = ParityDiff::slot(7, &e, Some(&a), false);
    assert_eq!(
        d.render(),
        "parity slot 7 mismatch:\n  expected: rule=r1 line=3 column=4 message=\"a\\\"b\"\n  actual:   rule=r2 line=3 column=5 message=\"c\"\n  - rule id differs\n  - message differs (verbatim parity required)\n  - location differs (line/column)\n"
    );
    assert_eq!(d.summary(), "parity slot 7 mismatch:");
}

#[test]
fn slot_diff_with_missing_actual_and_loose_message() {
    let e = ex("r", 10, 0, "m");
    let d = ParityDiff::slot(0, &e, None, true);
    assert_eq!(
        d.render(),
        "parity slot 0 mismatch:\n  expected: rule=r line=10 column=0 message=\"<loose_message: ignored>\"\n  actual:   <missing>\n"
    );
}

#[test]
fn count_diff_text() {
    let d = ParityDiff::count(2, 13);
    assert_eq!(d.render(), "diagnostic count mismatch: expected 2, got 13\n  (cannot slot-pair differing counts)\n");
}

#[test]
fn first_disagreeing_slot_is_reported() {
    let expected = [ex("r", 1, 0, "m"), ex("r", 2, 0, "m"), ex("r", 3, 0, "m")];
    let actual = [act("r", 1, 0, "m"), act("r", 2, 1, "m"), act("x", 3, 0, "m")];
    let err = Comparator::new(&expected, false).compare(&actual).expect_err("slot 1 differs");
    assert_eq!(err.summary(), "parity slot 1 mismatch:");
}

#[test]
fn from_lines_and_empty_summary() {
    let d = ParityDiff::from_lines(vec![]);
    assert_eq!(d.summary(), "");
    assert_eq!(d.render(), "\n");
    let d = ParityDiff::from_lines(vec!["a".to_owned(), "b".to_owned()]);
    assert_eq!(d.render(), "a\nb\n");
}

fn reported(rule: &str, file: &str, offset: usize, len: usize, message: &str) -> ReportedDiagnostic {
    ReportedDiagnostic {
        rule_id: rule.to_string(),
        file: file.to_string(),
        span: Span::new(offset, len),
        message: message.to_string(),
    }
}

fn source(path: &str, text: &str) -> SourceText {
    SourceText { path: path.to_string(), text: text.to_string() }
}

#[test]
fn projection_locates_the_diagnostic_in_its_own_file() {
    let src = source("q.graphql", "query {\n  hero\n}\n");
    let d = reported("no-x", "q.graphql", 10, 4, "bad hero");
    let a = project_actual(&d, Some(&src));
    assert_eq!(a, ActualError { rule: "no-x".to_string(), message: "bad hero".to_string(), line: 2, column: 2 });
}

#[test]
fn projection_without_the_matching_source_is_unresolved() {
    let src = source("other.graphql", "query {\n  hero\n}\n");
    let d = reported("no-x", "q.graphql", 10, 4, "bad hero");
    let a = project_actual(&d, Some(&src));
    assert_eq!((a.line, a.column), (0, 0));
    let a = project_actual(&d, None);
    assert_eq!((a.line, a.column), (0, 0));
    assert_eq!(a.rule, "no-x");
    assert_eq!(a.message, "bad hero");
}

#[test]
fn find_source_matches_paths_by_component() {
    let sources = vec![source("a/x.graphql", "1"), source("a/./b.graphql", "2"), source("a/b.graphql", "3")];
    assert_eq!(find_source(&sources, "a/b.graphql").map(|s| s.text.as_str()), Some("2"));
    assert_eq!(find_source(&sources, "a/x.graphql").map(|s| s.text.as_str()), Some("1"));
    assert!(find_source(&sources, "b.graphql").is_none());
}

#[test]
fn projection_of_an_offset_past_the_text_is_its_end() {
    let src = source("q.graphql", "a\nbc");
    let d = reported("no-x", "q.graphql", 40, 1, "m");
    let a = project_actual(&d, Some(&src));
    assert_eq!((a.line, a.column), (2, 2));
}

#[test]
fn projection_counts_columns_in_bytes() {
    let src = source("q.graphql", "{ \"é\" x }");
    let d = reported("no-x", "q.graphql", 6, 1, "m");
    let a = project_actual(&d, Some(&src));
    assert_eq!((a.line, a.column), (1, 7));
}
