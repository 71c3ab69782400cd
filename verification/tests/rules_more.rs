use rglint::executable::{collect_list_spreads, ExecutableDef, FieldSelection, Selection, SelectionSet};
use rglint::model::{Node, Span, SyntaxKind, Tree};
use rglint::rules::description_style::{DescStyle, DescriptionOptions, DescriptionStyle};
use rglint::rules::input_name::{InputName, InputNameOptions};
use rglint::rules::no_deprecated::NoDeprecated;
use rglint::rules::require_description::{RequireDescription, RequireDescriptionOptions};
use rglint::rules::require_nullable_fields_with_oneof::is_outer_non_null;
use rglint::rules::require_nullable_result_in_root::trailing_bang_span;
use rglint::rules::require_selections::{selected_fields, RequireSelections, SelectionOptions};
use rglint::rules::require_type_pattern_with_oneof::RequireTypePatternWithOneof;
use rglint::rules::selection_set_depth::{selection_set_depth, DepthOptions, SelectionSetDepth};
use rglint::schema::{EnumValueDef, FieldDef, InputValueDef, Schema, TypeDef, TypeKind, TypeRef};

fn nd(kind: SyntaxKind, name: Option<&str>, span: (usize, usize), parent: Option<usize>) -> Node {
    Node { kind, name: name.map(|s| s.to_owned()), span: Some(Span::new(span.0, span.1)), parent }
}

fn tdef(name: &str, kind: TypeKind, fields: Vec<FieldDef>) -> TypeDef {
    TypeDef { name: name.to_owned(), kind, fields, interfaces: vec![], members: vec![], values: vec![] }
}

fn fdef(name: &str, ty: &str) -> FieldDef {
    FieldDef { name: name.to_owned(), ty: TypeRef::Named(ty.to_owned()), arguments: vec![], deprecated: None }
}

fn schema_of(types: Vec<TypeDef>) -> Schema {
    Schema { types, directives: vec![], query: None, mutation: None, subscription: None }
}

fn field_sel(name: &str, result: &str, offset: usize, inner_ty: &str, inner: Vec<Selection>) -> Selection {
    Selection::Field(FieldSelection {
        name: name.to_owned(),
        alias: None,
        result_type: result.to_owned(),
        offset: Some(offset),
        selection_set: SelectionSet { ty: inner_ty.to_owned(), selections: inner },
    })
}

fn spread(name: &str, offset: usize) -> Selection {
    Selection::FragmentSpread { name: name.to_owned(), offset: Some(offset) }
}

fn exe(name: &str, file: &str, ty: &str, selections: Vec<Selection>) -> ExecutableDef {
    ExecutableDef { name: Some(name.to_owned()), file: file.to_owned(), span: Span::new(0, 0), selection_set: SelectionSet { ty: ty.to_owned(), selections } }
}

#[test]
fn only_outer_non_null_is_rejected() {
    let string = || TypeRef::Named("String".to_owned());
    assert!(is_outer_non_null(&TypeRef::NonNullNamed("String".to_owned())));
    assert!(is_outer_non_null(&TypeRef::NonNullList(Box::new(string()))));
    assert!(!is_outer_non_null(&TypeRef::List(Box::new(TypeRef::NonNullNamed("String".to_owned())))));
}

#[test]
fn trailing_bang_allows_space_before_bang() {
    let source = "type Query { user: User ! }";
    assert_eq!(trailing_bang_span(source, Span::new(19, 4)), Some(Span::new(24, 1)));
}

#[test]
fn collect_spreads_counts_nested_and_repeated_occurrences() {
    // query Q { user { ...UserFields friend { ...UserFields } } }
    let op = exe("Q", "01.graphql", "Query", vec![field_sel("user", "User", 10, "User", vec![
        spread("UserFields", 17),
        field_sel("friend", "User", 31, "User", vec![spread("UserFields", 40)]),
    ])]);
    let mut usages: Vec<(Vec<char>, Vec<char>)> = Vec::new();
    let file: Vec<char> = "01.graphql".chars().collect();
    collect_list_spreads(&op.selection_set.selections, &file, &mut usages);
    let files: Vec<String> = usages
        .iter()
        .filter(|(n, _)| n.iter().collect::<String>() == "UserFields")
        .map(|(_, f)| f.iter().collect())
        .collect();
    assert_eq!(files, ["01.graphql", "01.graphql"]);
}

#[test]
fn nested_field_selections_do_not_satisfy_the_parent_type() {
    // { user { posts { id } } }
    let op = exe("", "query.graphql", "Query", vec![field_sel("user", "User", 2, "User", vec![
        field_sel("posts", "Post", 9, "Post", vec![field_sel("id", "ID", 17, "ID", vec![])]),
    ])]);
    let user_selection_set = match &op.selection_set.selections[0] {
        Selection::Field(f) => &f.selection_set,
        _ => panic!("expected user field"),
    };
    let (selected, _) = selected_fields(&[], user_selection_set);
    assert!(selected.contains(&"posts".to_owned()));
    assert!(!selected.contains(&"id".to_owned()));
}

#[test]
fn selected_fields_follow_each_fragment_once() {
    let frags = vec![exe("F", "a.graphql", "User", vec![field_sel("id", "ID", 0, "ID", vec![]), spread("F", 5), spread("Missing", 9)])];
    let ss = SelectionSet { ty: "User".to_owned(), selections: vec![spread("F", 0), spread("F", 4)] };
    let (selected, used) = selected_fields(&frags, &ss);
    assert_eq!(selected, vec!["id".to_owned()]);
    assert_eq!(used, vec!["F".to_owned(), "Missing".to_owned()]);
}

#[test]
fn cycle_guard_is_scoped_to_a_fragment_walk() {
    // query Q { viewer { ...A } } fragment A on User { friend { ...A } id }
    let s = schema_of(vec![
        tdef("Query", TypeKind::Object, vec![fdef("viewer", "User")]),
        tdef("User", TypeKind::Object, vec![fdef("friend", "User"), fdef("id", "ID")]),
    ]);
    let op = exe("Q", "query.graphql", "Query", vec![field_sel("viewer", "User", 10, "User", vec![spread("A", 19)])]);
    let frags = vec![exe("A", "query.graphql", "User", vec![
        field_sel("friend", "User", 50, "User", vec![spread("A", 59)]),
        field_sel("id", "ID", 66, "ID", vec![]),
    ])];
    let mut o = DepthOptions::new();
    o.max_depth = 99;
    assert_eq!(selection_set_depth(&s, &frags, &o, &op.selection_set), 2);
}

#[test]
fn operations_deeper_than_the_limit_are_reported() {
    let s = schema_of(vec![
        tdef("Query", TypeKind::Object, vec![fdef("viewer", "User")]),
        tdef("User", TypeKind::Object, vec![fdef("friend", "User"), fdef("id", "ID")]),
    ]);
    let deep = exe("Deep", "q.graphql", "Query", vec![field_sel("viewer", "User", 0, "User", vec![
        field_sel("friend", "User", 0, "User", vec![field_sel("friend", "User", 0, "User", vec![field_sel("id", "ID", 0, "ID", vec![])])]),
    ])]);
    let other = exe("Other", "other.graphql", "Query", deep_copy_selections());
    let mut o = DepthOptions::new();
    o.max_depth = 2;
    let ds = SelectionSetDepth.check(&[deep, other], &[], "q.graphql", Some(&s), &o);
    assert_eq!(ds.len(), 1);
    assert_eq!(ds[0].message, "'Deep' exceeds maximum operation depth of 2");
    assert_eq!(ds[0].span, Span::new(0, 0));
    o.ignore = vec!["User.friend".to_owned()];
    let again = exe("Deep", "q.graphql", "Query", deep_copy_selections());
    assert!(SelectionSetDepth.check(&[again], &[], "q.graphql", Some(&s), &o).is_empty());
    assert_eq!(DepthOptions::new().max_depth, 7);
}

fn deep_copy_selections() -> Vec<Selection> {
    vec![field_sel("viewer", "User", 0, "User", vec![
        field_sel("friend", "User", 0, "User", vec![field_sel("friend", "User", 0, "User", vec![field_sel("id", "ID", 0, "ID", vec![])])]),
    ])]
}

#[test]
fn missing_id_selection_is_reported_with_a_suggestion() {
    let src = "query Q { user { name } }";
    let s = schema_of(vec![
        tdef("Query", TypeKind::Object, vec![fdef("user", "User")]),
        tdef("User", TypeKind::Object, vec![fdef("id", "ID"), fdef("name", "String")]),
    ]);
    let op = exe("Q", "q.graphql", "Query", vec![field_sel("user", "User", 10, "User", vec![field_sel("name", "String", 17, "String", vec![])])]);
    let ds = RequireSelections.check(&[op], &[], "q.graphql", src, Some(&s), &SelectionOptions::new());
    assert_eq!(ds.len(), 1);
    assert_eq!(ds[0].message, "Field `user.id` must be selected when it's available on a type.\nInclude it in your selection set.");
    assert_eq!(ds[0].span, Span::new(15, 0));
    assert_eq!(ds[0].suggestions.len(), 1);
    assert_eq!(ds[0].suggestions[0].desc, "Add `id` selection");
    assert_eq!(ds[0].suggestions[0].span, Span::new(17, 0));
    assert_eq!(ds[0].suggestions[0].text, "id ");
    assert!(RequireSelections.check(&[], &[], "q.graphql", src, None, &SelectionOptions::new()).is_empty());
}

#[test]
fn fragment_selection_names_its_fragments_and_offers_no_suggestion() {
    let src = "fragment U on User { ...N }";
    let s = schema_of(vec![tdef("User", TypeKind::Object, vec![fdef("id", "ID"), fdef("name", "String")])]);
    let mut u = exe("U", "f.graphql", "User", vec![spread("N", 21)]);
    u.span = Span::new(0, 27);
    let n = exe("N", "n.graphql", "User", vec![field_sel("name", "String", 0, "String", vec![])]);
    let ds = RequireSelections.check(&[], &[u, n], "f.graphql", src, Some(&s), &SelectionOptions::new());
    assert_eq!(ds.len(), 1);
    assert_eq!(ds[0].message, "Field `U.id` must be selected when it's available on a type.\nInclude it in your selection set or add to used fragment `N`.");
    assert_eq!(ds[0].span, Span::new(19, 0));
    assert!(ds[0].suggestions.is_empty());
}

// type R @oneOf { ok: Int }
fn oneof_doc() -> Tree {
    Tree {
        nodes: vec![
            nd(SyntaxKind::DOCUMENT, None, (0, 25), None),
            nd(SyntaxKind::OBJECT_TYPE_DEFINITION, Some("R"), (0, 25), Some(0)),
            nd(SyntaxKind::NAME, Some("R"), (5, 1), Some(1)),
            nd(SyntaxKind::DIRECTIVE, Some("oneOf"), (7, 6), Some(1)),
            nd(SyntaxKind::FIELD_DEFINITION, Some("ok"), (16, 7), Some(1)),
        ],
    }
}

#[test]
fn oneof_output_type_needs_error_and_ok() {
    let s = schema_of(vec![]);
    let ds = RequireTypePatternWithOneof.check(&oneof_doc(), Some(&s));
    assert_eq!(ds.len(), 1);
    assert_eq!(ds[0].message, "type \"R\" is defined as output with \"@oneOf\" and must be defined with \"error\" field");
    assert_eq!(ds[0].span, Span::new(5, 1));
    assert!(RequireTypePatternWithOneof.check(&oneof_doc(), None).is_empty());
}

#[test]
fn description_in_the_wrong_style_gets_a_rewrite() {
    let src = "\"desc\" type A { f: Int }";
    let tree = Tree {
        nodes: vec![
            nd(SyntaxKind::DOCUMENT, None, (0, 24), None),
            nd(SyntaxKind::OBJECT_TYPE_DEFINITION, Some("A"), (0, 24), Some(0)),
            nd(SyntaxKind::DESCRIPTION, None, (0, 6), Some(1)),
        ],
    };
    let ds = DescriptionStyle.check(&tree, src, &DescriptionOptions::new());
    assert_eq!(ds.len(), 1);
    assert_eq!(ds[0].message, "Unexpected inline description for type \"A\"");
    assert_eq!(ds[0].suggestions[0].desc, "Change to block style description");
    assert_eq!(ds[0].suggestions[0].text, "\"\"\"desc\"\"\"");
    assert!(DescriptionStyle.check(&tree, src, &DescriptionOptions { style: DescStyle::Single }).is_empty());
}

#[test]
fn block_description_is_collapsed_when_inline_is_wanted() {
    let src = "\"\"\"a  b\n c\"\"\" type A { f: Int }";
    let tree = Tree {
        nodes: vec![
            nd(SyntaxKind::DOCUMENT, None, (0, 31), None),
            nd(SyntaxKind::OBJECT_TYPE_DEFINITION, Some("A"), (0, 31), Some(0)),
            nd(SyntaxKind::FIELD_DEFINITION, Some("f"), (22, 6), Some(1)),
            nd(SyntaxKind::DESCRIPTION, None, (0, 13), Some(2)),
        ],
    };
    let ds = DescriptionStyle.check(&tree, src, &DescriptionOptions { style: DescStyle::Single });
    assert_eq!(ds.len(), 1);
    assert_eq!(ds[0].message, "Unexpected block description for field \"f\" in type \"A\"");
    assert_eq!(ds[0].suggestions[0].text, "\"a b c\"");
}

// type Mutation { f(x: FInput): Int }
fn mutation_doc() -> Tree {
    Tree {
        nodes: vec![
            nd(SyntaxKind::DOCUMENT, None, (0, 35), None),
            nd(SyntaxKind::OBJECT_TYPE_DEFINITION, Some("Mutation"), (0, 35), Some(0)),
            nd(SyntaxKind::NAME, Some("Mutation"), (5, 8), Some(1)),
            nd(SyntaxKind::FIELD_DEFINITION, Some("f"), (16, 17), Some(1)),
            nd(SyntaxKind::ARGUMENTS_DEFINITION, None, (17, 11), Some(3)),
            nd(SyntaxKind::INPUT_VALUE_DEFINITION, Some("x"), (18, 9), Some(4)),
            nd(SyntaxKind::NAME, Some("x"), (18, 1), Some(5)),
            nd(SyntaxKind::NAMED_TYPE, Some("FInput"), (21, 6), Some(5)),
        ],
    }
}

#[test]
fn defaults_match_upstream() {
    let o = InputNameOptions::new();
    assert!(!o.check_input_type);
    assert!(o.case_sensitive_input_type);
    assert!(!o.check_queries);
    assert!(o.check_mutations);
}

#[test]
fn mutation_arguments_are_named_input() {
    let ds = InputName.check(&mutation_doc(), &InputNameOptions::new());
    assert_eq!(ds.len(), 1);
    assert_eq!(ds[0].message, "Input \"x\" should be named \"input\" for \"Mutation.f\"");
    assert_eq!(ds[0].span, Span::new(18, 1));
    assert_eq!(ds[0].suggestions[0].text, "input");
    let mut o = InputNameOptions::new();
    o.check_input_type = true;
    let ds = InputName.check(&mutation_doc(), &o);
    assert_eq!(ds.len(), 2);
    assert_eq!(ds[1].message, "Input type `FInput` name should be `fInput`.");
    assert_eq!(ds[1].suggestions[0].text, "fInput");
    o.case_sensitive_input_type = false;
    assert_eq!(InputName.check(&mutation_doc(), &o).len(), 1);
}

#[test]
fn deprecated_fields_and_arguments_are_reported_with_their_reasons() {
    let mut old = fdef("old", "String");
    old.deprecated = Some(Some("gone".to_owned()));
    let mut older = fdef("older", "String");
    older.deprecated = Some(None);
    let mut users = fdef("users", "String");
    users.arguments = vec![InputValueDef { name: "a".to_owned(), ty: TypeRef::Named("Level".to_owned()), deprecated: Some(Some(String::new())) }];
    let mut level = tdef("Level", TypeKind::Enum, vec![]);
    level.values = vec![EnumValueDef { name: "LOW".to_owned(), deprecated: Some(Some("too low".to_owned())) }];
    let s = schema_of(vec![tdef("Query", TypeKind::Object, vec![old, older, users]), level]);
    // { old older users(a: LOW) }
    let tree = Tree {
        nodes: vec![
            nd(SyntaxKind::DOCUMENT, None, (0, 28), None),
            nd(SyntaxKind::OPERATION_DEFINITION, None, (0, 28), Some(0)),
            nd(SyntaxKind::SELECTION_SET, None, (0, 28), Some(1)),
            nd(SyntaxKind::FIELD, Some("old"), (2, 3), Some(2)),
            nd(SyntaxKind::FIELD, Some("older"), (6, 5), Some(2)),
            nd(SyntaxKind::FIELD, Some("users"), (12, 14), Some(2)),
            nd(SyntaxKind::ARGUMENT, Some("a"), (18, 6), Some(5)),
            nd(SyntaxKind::ENUM_VALUE, Some("LOW"), (21, 3), Some(6)),
        ],
    };
    let ds = NoDeprecated.check(&tree, Some(&s));
    let msgs: Vec<&str> = ds.iter().map(|d| d.message.as_str()).collect();
    assert_eq!(msgs, vec![
        "Field \"old\" is marked as deprecated in your GraphQL schema (reason: gone)",
        "Field \"older\" is marked as deprecated in your GraphQL schema (reason: No longer supported)",
        "Argument \"a\" is marked as deprecated in your GraphQL schema",
        "Enum \"LOW\" is marked as deprecated in your GraphQL schema (reason: too low)",
    ]);
    assert!(NoDeprecated.check(&tree, None).is_empty());
}

#[test]
fn require_description_option_deserializes_from_json() {
    let mut opts = RequireDescriptionOptions::new();
    opts.object_type_definition = Some(true);
    assert!(opts.is_enabled(SyntaxKind::OBJECT_TYPE_DEFINITION));
    assert!(!opts.is_enabled(SyntaxKind::INTERFACE_TYPE_DEFINITION));
    let mut opts = RequireDescriptionOptions::new();
    opts.types = Some(true);
    opts.object_type_definition = Some(false);
    assert!(!opts.is_enabled(SyntaxKind::OBJECT_TYPE_DEFINITION));
    assert!(opts.is_enabled(SyntaxKind::INTERFACE_TYPE_DEFINITION));
    assert!(opts.is_enabled(SyntaxKind::ENUM_TYPE_DEFINITION));
}

#[test]
fn option_deserializes_operation() {
    let mut opts = RequireDescriptionOptions::new();
    opts.operation_definition = Some(true);
    assert!(opts.is_enabled(SyntaxKind::OPERATION_DEFINITION));
    assert!(!opts.is_enabled(SyntaxKind::FIELD_DEFINITION));
}

#[test]
fn undescribed_definitions_are_reported_at_their_names() {
    let src = "type A { f: Int }";
    let tree = Tree {
        nodes: vec![
            nd(SyntaxKind::DOCUMENT, None, (0, 17), None),
            nd(SyntaxKind::OBJECT_TYPE_DEFINITION, Some("A"), (0, 17), Some(0)),
            nd(SyntaxKind::FIELD_DEFINITION, Some("f"), (9, 6), Some(1)),
        ],
    };
    let mut o = RequireDescriptionOptions::new();
    o.types = Some(true);
    o.field_definition = Some(true);
    let ds = RequireDescription.check(&tree, src, &o);
    let got: Vec<(&str, Span)> = ds.iter().map(|d| (d.message.as_str(), d.span)).collect();
    assert_eq!(got, vec![
        ("Description is required for type \"A\"", Span::new(5, 1)),
        ("Description is required for field \"f\" in type \"A\"", Span::new(9, 1)),
    ]);
    let op_src = "mutation M { x }";
    let ops = Tree { nodes: vec![nd(SyntaxKind::DOCUMENT, None, (0, 16), None), nd(SyntaxKind::OPERATION_DEFINITION, Some("M"), (0, 16), Some(0))] };
    let mut oo = RequireDescriptionOptions::new();
    oo.operation_definition = Some(true);
    let ds = RequireDescription.check(&ops, op_src, &oo);
    assert_eq!(ds.len(), 1);
    assert_eq!(ds[0].message, "Description is required for mutation \"M\"");
    assert_eq!(ds[0].span, Span::new(0, 16));
}
