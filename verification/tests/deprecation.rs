use rglint::model::{Node, Span, SyntaxKind, Tree};
use rglint::rules::require_deprecation_date::{days_from_ce, extract_arg_value, is_dd_mm_yyyy, name_offset, RequireDeprecationDate};

fn n(kind: SyntaxKind, name: Option<&str>, span: (usize, usize), parent: Option<usize>) -> Node {
    Node { kind, name: name.map(|s| s.to_owned()), span: Some(Span::new(span.0, span.1)), parent }
}

/// `type Query { old: String @deprecated(<args>) }` as a tree, with the
/// argument named `arg` when `args` is not empty.
fn doc(args: &str, arg: &str) -> (String, Tree) {
    let src = if args.is_empty() {
        "type Query { old: String @deprecated }".to_owned()
    } else {
        format!("type Query {{ old: String @deprecated({}) }}", args)
    };
    let len = src.len();
    let field_start = src.find("old").unwrap();
    let dir_start = src.find('@').unwrap();
    let dir_end = src.rfind(" }").unwrap();
    let mut nodes = vec![
        n(SyntaxKind::DOCUMENT, None, (0, len), None),
        n(SyntaxKind::OBJECT_TYPE_DEFINITION, Some("Query"), (0, len), Some(0)),
        n(SyntaxKind::FIELDS_DEFINITION, None, (11, len - 11), Some(1)),
        n(SyntaxKind::FIELD_DEFINITION, Some("old"), (field_start, dir_end - field_start), Some(2)),
        n(SyntaxKind::DIRECTIVE, Some("deprecated"), (dir_start, dir_end - dir_start), Some(3)),
    ];
    if !args.is_empty() {
        let open = src.find('(').unwrap();
        let close = src.rfind(')').unwrap();
        nodes.push(n(SyntaxKind::ARGUMENTS, None, (open, close + 1 - open), Some(4)));
        nodes.push(n(SyntaxKind::ARGUMENT, Some(arg), (open + 1, close - open - 1), Some(5)));
    }
    (src, Tree { nodes })
}

#[test]
fn past_deletion_dates_make_items_removable() {
    let (src, tree) = doc("deletionDate: \"01/01/2000\"", "deletionDate");
    let ds = RequireDeprecationDate.check(&tree, &src, &None, 1_700_000_000);
    assert_eq!(ds.len(), 1);
    assert_eq!(ds[0].message, "field \"old\" in type \"Query\" \u{441}an be removed");
    assert_eq!(ds[0].span, Span::new(src.find("old").unwrap(), 3));
    let later = RequireDeprecationDate.check(&tree, &src, &None, 0);
    assert!(later.is_empty());
}

#[test]
fn missing_deletion_date_is_reported_at_the_directive() {
    let (src, tree) = doc("", "");
    let ds = RequireDeprecationDate.check(&tree, &src, &None, 0);
    assert_eq!(ds.len(), 1);
    assert_eq!(ds[0].message, "Directive \"@deprecated\" must have a deletion date for field \"old\" in type \"Query\"");
    assert_eq!(ds[0].span.offset, src.find('@').unwrap());
    let (src2, tree2) = doc("until: \"01/01/2000\"", "until");
    assert_eq!(RequireDeprecationDate.check(&tree2, &src2, &None, 0).len(), 1);
    assert!(RequireDeprecationDate.check(&tree2, &src2, &Some("until".to_owned()), 0).is_empty());
}

#[test]
fn malformed_and_invalid_dates_are_reported_at_the_value() {
    let (src, tree) = doc("deletionDate: \"2000-01-01\"", "deletionDate");
    let ds = RequireDeprecationDate.check(&tree, &src, &None, 0);
    assert_eq!(ds.len(), 1);
    assert_eq!(ds[0].message, "Deletion date must be in format \"DD/MM/YYYY\" for field \"old\" in type \"Query\"");
    assert_eq!(ds[0].span, Span::new(src.find("\"2000").unwrap(), 12));
    let (src, tree) = doc("deletionDate: \"32/01/2000\"", "deletionDate");
    let ds = RequireDeprecationDate.check(&tree, &src, &None, 0);
    assert_eq!(ds[0].message, "Invalid \"32/01/2000\" deletion date for field \"old\" in type \"Query\"");
}

#[test]
fn date_helpers() {
    assert!(is_dd_mm_yyyy("01/02/2003"));
    assert!(!is_dd_mm_yyyy("1/02/2003"));
    assert!(!is_dd_mm_yyyy("01-02-2003"));
    assert_eq!(extract_arg_value("deletionDate: \"01/02/2003\""), Some("01/02/2003".to_owned()));
    assert_eq!(extract_arg_value("deletionDate:   x  "), Some("x".to_owned()));
    assert_eq!(extract_arg_value("\""), None);
    assert_eq!(extract_arg_value("a: \""), Some("\"".to_owned()));
    assert_eq!(days_from_ce(1970, 1, 1), -364);
    assert_eq!(days_from_ce(2000, 3, 1), 10653);
    assert_eq!(days_from_ce(2000, 1, 1), 10593);
    assert_eq!(days_from_ce(-1, 1, 1), -720256);
    assert_eq!(name_offset("type A { a: A }", 5, "a"), 9);
    assert_eq!(name_offset("type A", 2, "zzz"), 2);
}
