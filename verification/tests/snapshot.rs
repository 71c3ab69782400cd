use rglint::model::Span;
use rglint::snapshot::{render_snapshot, ReportedDiagnostic, SourceText};

fn src_file(text: &str) -> SourceText {
    SourceText { path: "test.graphql".to_owned(), text: text.to_owned() }
}

fn diag(rule: &str, file: &str, span: Span, message: &str) -> ReportedDiagnostic {
    ReportedDiagnostic { rule_id: rule.to_owned(), file: file.to_owned(), span, message: message.to_owned() }
}

#[test]
fn renders_single_line_caret_and_message() {
    let src = src_file("query { hero }\n");
    let d = diag("no-anonymous-operations", "test.graphql", Span::new(8, 4), "Anonymous operation");
    let rendered = render_snapshot(std::slice::from_ref(&d), &src);
    assert_eq!(rendered, "query { hero }\n        ^^^^\n> no-anonymous-operations: Anonymous operation\n");
}

#[test]
fn renders_zero_length_span_as_single_caret() {
    let src = src_file("foo bar baz\n");
    let d = diag("r", "test.graphql", Span::new(4, 0), "boom");
    assert_eq!(render_snapshot(std::slice::from_ref(&d), &src), "foo bar baz\n    ^\n> r: boom\n");
}

#[test]
fn sorts_diagnostics_by_line_then_column() {
    let src = src_file("a b\nc d\n");
    let d1 = diag("r1", "test.graphql", Span::new(6, 1), "second");
    let d0 = diag("r0", "test.graphql", Span::new(0, 1), "first");
    let rendered = render_snapshot(&[d1, d0], &src);
    let first_idx = rendered.find("> r0: first").unwrap();
    let second_idx = rendered.find("> r1: second").unwrap();
    assert!(first_idx < second_idx);
}

#[test]
fn off_source_diagnostics_render_with_file_annotation() {
    let src = src_file("foo\n");
    let d = diag("r", "other.graphql", Span::new(0, 1), "elsewhere");
    let rendered = render_snapshot(std::slice::from_ref(&d), &src);
    assert!(rendered.contains("> r (in other.graphql): elsewhere"));
}

#[test]
fn two_diagnostic_snapshot_is_stable() {
    let source = SourceText { path: "case.graphql".to_owned(), text: "query { a }\nquery { b }\n".to_owned() };
    let d1 = diag("no-anonymous-operations", "case.graphql", Span::new(0, 6), "Anonymous operation. Give it a name.");
    let d2 = diag("no-anonymous-operations", "case.graphql", Span::new(12, 6), "Anonymous operation. Give it a name.");
    let diags = vec![d1, d2];
    let rendered = render_snapshot(&diags, &source);
    assert_eq!(
        rendered,
        "query { a }\n^^^^^^\n> no-anonymous-operations: Anonymous operation. Give it a name.\nquery { b }\n^^^^^^\n> no-anonymous-operations: Anonymous operation. Give it a name.\n"
    );
    assert_eq!(rendered, render_snapshot(&diags, &source));
}

#[test]
fn multi_line_span_draws_carets_on_each_line() {
    let src = src_file("ab\ncdef\n\ngh\n");
    // From "b" (offset 1) to the "h" of the last line (offset 10).
    let d = diag("r", "test.graphql", Span::new(1, 9), "wide");
    assert_eq!(render_snapshot(std::slice::from_ref(&d), &src), "ab\n ^\n^^^^\n^\n> r: wide\n");
}

#[test]
fn equal_starts_keep_their_given_order() {
    let src = src_file("x y\n");
    let a = diag("a", "test.graphql", Span::new(2, 1), "one");
    let b = diag("b", "test.graphql", Span::new(2, 1), "two");
    let rendered = render_snapshot(&[a, b], &src);
    assert!(rendered.find("> a: one").unwrap() < rendered.find("> b: two").unwrap());
}

#[test]
fn span_past_the_text_is_drawn_at_its_end() {
    let src = SourceText { path: "q.graphql".to_string(), text: "query { a }".to_string() };
    let d = ReportedDiagnostic {
        rule_id: "r".to_string(),
        file: "q.graphql".to_string(),
        span: Span::new(50, 3),
        message: "m".to_string(),
    };
    let out = render_snapshot(&[d], &src);
    assert_eq!(out, format!("query {{ a }}\n{}^\n> r: m\n", " ".repeat(11)));
}
