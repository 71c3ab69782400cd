use rglint::model::{Definition, Node, Span, SyntaxKind, Tree};
use rglint::rules::lone_executable_definition::{is_ignored, LoneExecutableDefinition};
use rglint::rules::match_document_filename::{MatchDocumentFilename, MatchOpts, PerTypeOpts, TypeOption, parse_style};
use rglint::rules::no_anonymous_operations::NoAnonymousOperations;
use rglint::rules::require_import_fragment::{imported_fragment_path, RequireImportFragment};
use rglint::rules::unique_fragment_name::UniqueFragmentName;
use rglint::rules::unique_operation_name::UniqueOperationName;
use rglint::case::CaseStyle;
use rglint::cst::parse_tree;

fn n(kind: SyntaxKind, name: Option<&str>, span: (usize, usize), parent: Option<usize>) -> Node {
    Node { kind, name: name.map(|s| s.to_owned()), span: Some(Span::new(span.0, span.1)), parent }
}

fn def(name: Option<&str>, file: &str, span: (usize, usize)) -> Definition {
    Definition { name: name.map(|s| s.to_owned()), file: file.to_owned(), span: Span::new(span.0, span.1) }
}

#[test]
fn is_ignored_filters_correctly() {
    let empty: Vec<String> = vec![];
    assert!(!is_ignored("Query", &empty));
    assert!(is_ignored("Fragment", &["fragment".into()]));
    assert!(is_ignored("Query", &["operation".into()]));
    assert!(is_ignored("Mutation", &["mutation".into()]));
    assert!(!is_ignored("Query", &["mutation".into()]));
    assert!(is_ignored("Fragment", &["fragment".into()]));
}

#[test]
fn parses_named_and_default_imports() {
    assert_eq!(
        imported_fragment_path("# import FooFields from './fragments.graphql'", "FooFields"),
        Some("./fragments.graphql".to_owned())
    );
    assert_eq!(
        imported_fragment_path("#import \"fragments.graphql\"", "FooFields"),
        Some("fragments.graphql".to_owned())
    );
    assert_eq!(imported_fragment_path("# import Other from 'x.graphql'", "FooFields"), None);
}

#[test]
fn import_comment_edge_cases() {
    assert_eq!(imported_fragment_path("# importX 'a'", "F"), None);
    assert_eq!(imported_fragment_path("# import F from 'a", "F"), None);
    assert_eq!(imported_fragment_path("# import Ffrom 'a'", "F"), None);
    assert_eq!(imported_fragment_path("import 'a'", "F"), None);
    assert_eq!(imported_fragment_path("#   import    F   from   \"b.graphql\" trailing", "F"), Some("b.graphql".to_owned()));
}

/// `query { a }\nquery Named { b }` as a tree.
fn two_ops() -> Tree {
    Tree {
        nodes: vec![
            n(SyntaxKind::DOCUMENT, None, (0, 29), None),
            n(SyntaxKind::OPERATION_DEFINITION, None, (0, 11), Some(0)),
            n(SyntaxKind::OPERATION_TYPE, Some("query"), (0, 5), Some(1)),
            n(SyntaxKind::OPERATION_DEFINITION, Some("Named"), (12, 17), Some(0)),
            n(SyntaxKind::OPERATION_TYPE, Some("mutation"), (12, 8), Some(3)),
        ],
    }
}

#[test]
fn anonymous_operation_is_reported_at_its_start() {
    let d = NoAnonymousOperations.check(&two_ops());
    assert_eq!(d.len(), 1);
    assert_eq!(d[0].span, Span::new(0, 0));
    assert_eq!(d[0].message, "Anonymous GraphQL operations are banned. Please give your operation a name");
}

#[test]
fn lone_definition_reports_later_definitions() {
    let t = two_ops();
    let d = LoneExecutableDefinition.check(&t, &[]);
    assert_eq!(d.len(), 1);
    assert_eq!(d[0].message, "Mutation \"Named\" should be in a separate file.");
    let d = LoneExecutableDefinition.check(&t, &["mutation".to_owned()]);
    assert!(d.is_empty());
    let defs = LoneExecutableDefinition.definitions(&t);
    assert_eq!(defs.len(), 2);
    assert_eq!(defs[0].0.iter().collect::<String>(), "Query");
    assert_eq!(defs[0].1, None);
}

#[test]
fn duplicate_operation_names_attributed_to_later_files() {
    let ops = vec![
        def(Some("Foo"), "a.graphql", (0, 15)),
        def(Some("Foo"), "b.graphql", (0, 15)),
        def(None, "c.graphql", (0, 11)),
    ];
    let rule = UniqueOperationName;
    assert!(rule.check(&ops, "a.graphql").is_empty());
    let d = rule.check(&ops, "b.graphql");
    assert_eq!(d.len(), 1);
    assert_eq!(d[0].message, "Operation \"Foo\" is defined multiple times");
    assert!(rule.check(&ops, "c.graphql").is_empty());
}

#[test]
fn three_fragments_with_same_name() {
    let frags = vec![
        def(Some("X"), "a.graphql", (0, 30)),
        def(Some("X"), "b.graphql", (1, 30)),
        def(Some("X"), "c.graphql", (2, 30)),
    ];
    let rule = UniqueFragmentName;
    assert!(rule.check(&frags, "a.graphql").is_empty());
    let b = rule.check(&frags, "b.graphql");
    assert_eq!(b.len(), 1);
    assert_eq!(b[0].message, "Fragment \"X\" is defined multiple times");
    assert_eq!(b[0].span, Span::new(1, 30));
    assert_eq!(rule.check(&frags, "c.graphql").len(), 1);
}

fn named_query_tree(name: &str) -> Tree {
    Tree {
        nodes: vec![
            n(SyntaxKind::DOCUMENT, None, (0, 20), None),
            n(SyntaxKind::OPERATION_DEFINITION, Some(name), (0, 20), Some(0)),
            n(SyntaxKind::OPERATION_TYPE, Some("query"), (0, 5), Some(1)),
        ],
    }
}

#[test]
fn document_filename_follows_style() {
    assert_eq!(parse_style("kebab-case"), Some(CaseStyle::Kebab));
    assert_eq!(parse_style("StrictPascalCase"), None);
    let opts = MatchOpts {
        file_extension: None,
        query: Some(TypeOption::Style("kebab-case".to_owned())),
        mutation: None,
        subscription: None,
        fragment: None,
    };
    let t = named_query_tree("UserById");
    let d = MatchDocumentFilename.check("src/user-by-id.graphql", &t, &opts);
    assert!(d.is_empty());
    let d = MatchDocumentFilename.check("src/user.graphql", &t, &opts);
    assert_eq!(d.len(), 1);
    assert_eq!(d[0].message, "Unexpected filename \"user.graphql\". Rename it to \"user-by-id.graphql\"");
    let opts = MatchOpts {
        file_extension: Some(".gql".to_owned()),
        query: Some(TypeOption::Object(PerTypeOpts { style: Some("matchDocumentStyle".to_owned()), suffix: Some(".query".to_owned()), prefix: None })),
        mutation: None,
        subscription: None,
        fragment: None,
    };
    let d = MatchDocumentFilename.check("src/user.graphql", &t, &opts);
    assert_eq!(d[0].message, "File extension \".graphql\" don't match extension \".gql\"");
    let d = MatchDocumentFilename.check("src/UserById.query.gql", &t, &opts);
    assert!(d.is_empty());
}

#[test]
fn cross_file_spread_needs_import() {
    // query { ...Foo } with Foo defined in frag.graphql
    let t = Tree {
        nodes: vec![
            n(SyntaxKind::DOCUMENT, None, (0, 40), None),
            n(SyntaxKind::OPERATION_DEFINITION, None, (0, 40), Some(0)),
            n(SyntaxKind::SELECTION_SET, None, (6, 10), Some(1)),
            n(SyntaxKind::FRAGMENT_SPREAD, None, (8, 6), Some(2)),
            n(SyntaxKind::FRAGMENT_NAME, Some("Foo"), (11, 3), Some(3)),
        ],
    };
    let frags = vec![def(Some("Foo"), "dir/frag.graphql", (0, 10))];
    let rule = RequireImportFragment;
    let d = rule.check(&t, "dir/query.graphql", "query { ...Foo }\n", &frags);
    assert_eq!(d.len(), 1);
    assert_eq!(d[0].message, "Expected \"Foo\" fragment to be imported.");
    assert_eq!(d[0].span, Span::new(11, 3));
    let src = "# import Foo from './frag.graphql'\nquery { ...Foo }\n";
    assert!(rule.check(&t, "dir/query.graphql", src, &frags).is_empty());
    let src = "# import 'other.graphql'\nquery { ...Foo }\n";
    assert_eq!(rule.check(&t, "dir/query.graphql", src, &frags).len(), 1);
}

fn defs_of(src: &str) -> Vec<(String, Option<String>)> {
    let tree = parse_tree(src);
    LoneExecutableDefinition
        .definitions(&tree)
        .into_iter()
        .map(|(k, n)| (k.into_iter().collect::<String>(), n))
        .collect()
}

#[test]
fn collect_defs_counts_operations_and_fragments() {
    let defs = defs_of("{ id }\nfragment X on Y { z }");
    assert_eq!(defs.len(), 2);
    assert_eq!(defs[0].0, "Query");
    assert!(defs[0].1.is_none());
    assert_eq!(defs[1].0, "Fragment");
    assert_eq!(defs[1].1.as_deref(), Some("X"));
}

#[test]
fn collect_defs_excludes_type_definitions() {
    let defs = defs_of("type Query { x: Int }");
    assert_eq!(defs.len(), 0);
}

#[test]
fn collect_defs_identifies_operation_types() {
    let defs = defs_of("mutation { f }\nsubscription { f }");
    assert_eq!(defs.len(), 2);
    assert_eq!(defs[0].0, "Mutation");
    assert_eq!(defs[1].0, "Subscription");
}

#[test]
fn collect_defs_handles_mixed_document() {
    let src = "        query Valid {\n          id\n        }\n        {\n          id\n        }\n        fragment Bar on Bar {\n          id\n        }\n        mutation ($name: String!) {\n          createFoo {\n            name\n          }\n        }\n        mutation Baz($name: String!) {\n          createFoo {\n            name\n          }\n        }\n        subscription {\n          id\n        }\n        subscription Sub {\n          id\n        }\n";
    let defs = defs_of(src);
    assert_eq!(defs.len(), 7);
    assert_eq!(defs[0].0, "Query");
    assert!(defs[0].1.as_deref() == Some("Valid"));
    assert_eq!(defs[2].0, "Fragment");
    assert_eq!(defs[3].0, "Mutation");
    assert!(defs[3].1.is_none());
    assert_eq!(defs[4].0, "Mutation");
    assert_eq!(defs[4].1.as_deref(), Some("Baz"));
    assert_eq!(defs[5].0, "Subscription");
    assert_eq!(defs[6].0, "Subscription");
}

#[test]
fn lone_definition_is_checked_on_the_parsed_source() {
    let d = LoneExecutableDefinition.check_source("query A { a }\nfragment B on T { b }\nmutation { c }", &[]);
    let msgs: Vec<&str> = d.iter().map(|x| x.message.as_str()).collect();
    assert_eq!(msgs, vec!["Fragment \"B\" should be in a separate file.", "Mutation should be in a separate file."]);
    let d = LoneExecutableDefinition.check_source("query A { a }\nfragment B on T { b }", &["fragment".to_owned()]);
    assert!(d.is_empty());
}

#[test]
fn document_filename_is_checked_on_the_parsed_source() {
    let opts = MatchOpts {
        file_extension: None,
        query: Some(TypeOption::Style("kebab-case".to_owned())),
        mutation: None,
        subscription: None,
        fragment: None,
    };
    assert!(MatchDocumentFilename.check_source("src/user-by-id.graphql", "query UserById { user { id } }", &opts).is_empty());
    let d = MatchDocumentFilename.check_source("src/user.graphql", "# leading\nquery UserById { user { id } }", &opts);
    assert_eq!(d.len(), 1);
    assert_eq!(d[0].message, "Unexpected filename \"user.graphql\". Rename it to \"user-by-id.graphql\"");
}

#[test]
fn parsed_tree_names_and_spans_skip_trivia() {
    let src = "# c\nquery  Q { a(x: \"é\") }";
    let t = parse_tree(src);
    let op = t.nodes.iter().position(|n| n.kind == SyntaxKind::OPERATION_DEFINITION).unwrap();
    assert_eq!(t.nodes[op].name.as_deref(), Some("Q"));
    assert_eq!(t.nodes[op].span, Some(Span::new(4, 22)));
    assert_eq!(t.nodes[op].parent, Some(0));
    let ty = t.nodes.iter().position(|n| n.kind == SyntaxKind::OPERATION_TYPE).unwrap();
    assert_eq!(t.nodes[ty].name.as_deref(), Some("query"));
    assert_eq!(t.nodes[ty].parent, Some(op));
    let field = t.nodes.iter().position(|n| n.kind == SyntaxKind::FIELD).unwrap();
    assert_eq!(t.nodes[field].name.as_deref(), Some("a"));
    assert_eq!(t.nodes[field].span, Some(Span::new(15, 9)));
    assert_eq!(t.nodes[0].kind, SyntaxKind::DOCUMENT);
    assert!(t.nodes.iter().enumerate().all(|(i, n)| n.parent.map_or(true, |p| p < i)));
}
