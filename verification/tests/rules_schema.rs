use rglint::model::{Node, Span, SyntaxKind, Tree};
use rglint::rules::alphabetize::{Alphabetize, AlphabetizeOptions};
use rglint::rules::require_selections::english_join;
use rglint::rules::strict_id_in_types::english_join_words;
use rglint::rules::no_unreachable_types::{DefKind, NoUnreachableTypes};
use rglint::schema::{DirectiveDef, FieldDef, InputValueDef, Schema, TypeDef, TypeKind, TypeRef};
use rglint::reach::reachable_types;
use rglint::json::Json;
use rglint::executable::{ExecutableDef, FieldSelection, Selection, SelectionSet};
use rglint::rules::no_unused_fields::NoUnusedFields;
use rglint::case::CaseStyle;
use rglint::rules::naming_convention::{NamingConvention, PredicateKind, is_case_loose, parse_case_style, parse_options, parse_predicate, parse_selector_key};

fn n(kind: SyntaxKind, name: Option<&str>, span: (usize, usize), parent: Option<usize>) -> Node {
    Node { kind, name: name.map(|s| s.to_owned()), span: Some(Span::new(span.0, span.1)), parent }
}

#[test]
fn joins_words_like_intl_list_format() {
    assert_eq!(english_join(&["a".to_owned(), "b".to_owned()]), "a or b");
    assert_eq!(english_join(&["a".to_owned(), "b".to_owned(), "c".to_owned()]), "a, b, or c");
}

#[test]
fn english_join_single_word() {
    assert_eq!(english_join_words(&["id".into()]), "id");
}

#[test]
fn english_join_two_words() {
    assert_eq!(english_join_words(&["id".into(), "_id".into()]), "id or _id");
}

#[test]
fn english_join_three_words() {
    assert_eq!(english_join_words(&["id".into(), "_id".into(), "uid".into()]), "id, _id, or uid");
}

#[test]
fn english_joins_agree_on_lists() {
    let lists: Vec<Vec<String>> = vec![
        vec![],
        vec!["a".into()],
        vec!["a".into(), "b".into()],
        vec!["a".into(), "b".into(), "c".into(), "d".into()],
    ];
    for l in &lists {
        assert_eq!(english_join(l), english_join_words(l));
    }
    assert_eq!(english_join(&[]), "");
    assert_eq!(english_join(&["a".into(), "b".into(), "c".into(), "d".into()]), "a, b, c, or d");
}

const QUERY: &str = "query Example {\n  hero { zed alpha }\n  viewer { zed alpha }\n}\n";

fn query_tree() -> Tree {
    Tree {
        nodes: vec![
            n(SyntaxKind::DOCUMENT, None, (0, 62), None),
            n(SyntaxKind::OPERATION_DEFINITION, Some("Example"), (0, 61), Some(0)),
            n(SyntaxKind::SELECTION_SET, None, (14, 47), Some(1)),
            n(SyntaxKind::FIELD, Some("hero"), (18, 18), Some(2)),
            n(SyntaxKind::SELECTION_SET, None, (23, 13), Some(3)),
            n(SyntaxKind::FIELD, Some("zed"), (25, 3), Some(4)),
            n(SyntaxKind::FIELD, Some("alpha"), (29, 5), Some(4)),
            n(SyntaxKind::FIELD, Some("viewer"), (39, 20), Some(2)),
            n(SyntaxKind::SELECTION_SET, None, (46, 13), Some(7)),
            n(SyntaxKind::FIELD, Some("zed"), (48, 3), Some(8)),
            n(SyntaxKind::FIELD, Some("alpha"), (52, 5), Some(8)),
        ],
    }
}

#[test]
fn alphabetize_reports_each_selection_swap() {
    let mut o = AlphabetizeOptions::new();
    o.selections = vec!["OperationDefinition".to_owned()];
    let ds = Alphabetize.check(&query_tree(), QUERY, &o);
    assert_eq!(ds.len(), 2);
    assert_eq!(ds[0].message, "field \"alpha\" should be before field \"zed\"");
    assert_eq!(ds[0].span, Span::new(29, 5));
    assert_eq!(ds[0].suggestions.len(), 2);
    assert_eq!(ds[0].suggestions[0].desc, "Move field \"alpha\" before field \"zed\"");
    assert_eq!(ds[0].suggestions[0].span, Span::new(29, 5));
    assert_eq!(ds[0].suggestions[0].text, "zed");
    assert_eq!(ds[0].suggestions[1].desc, "Move field \"zed\" after field \"alpha\"");
    assert_eq!(ds[0].suggestions[1].span, Span::new(25, 3));
    assert_eq!(ds[0].suggestions[1].text, "alpha");
    assert_eq!(ds[1].span, Span::new(52, 5));
}

#[test]
fn alphabetize_checks_nothing_unless_enabled() {
    let o = AlphabetizeOptions::new();
    assert!(Alphabetize.check(&query_tree(), QUERY, &o).is_empty());
    let mut f = AlphabetizeOptions::new();
    f.selections = vec!["FragmentDefinition".to_owned()];
    assert!(Alphabetize.check(&query_tree(), QUERY, &f).is_empty());
}

#[test]
fn alphabetize_groups_without_star_report_nothing() {
    let mut o = AlphabetizeOptions::new();
    o.selections = vec!["OperationDefinition".to_owned()];
    o.groups = vec!["id".to_owned()];
    assert!(Alphabetize.check(&query_tree(), QUERY, &o).is_empty());
}

#[test]
fn alphabetize_groups_put_named_items_first() {
    // type User { name: String id: ID }
    let src = "type User { name: String id: ID }";
    let tree = Tree {
        nodes: vec![
            n(SyntaxKind::DOCUMENT, None, (0, 33), None),
            n(SyntaxKind::OBJECT_TYPE_DEFINITION, Some("User"), (0, 33), Some(0)),
            n(SyntaxKind::FIELDS_DEFINITION, None, (10, 23), Some(1)),
            n(SyntaxKind::FIELD_DEFINITION, Some("name"), (12, 12), Some(2)),
            n(SyntaxKind::FIELD_DEFINITION, Some("id"), (25, 6), Some(2)),
        ],
    };
    let mut o = AlphabetizeOptions::new();
    o.fields = vec!["ObjectTypeDefinition".to_owned()];
    let ds = Alphabetize.check(&tree, src, &o);
    assert_eq!(ds.len(), 1);
    assert_eq!(ds[0].message, "field \"id\" should be before field \"name\"");
    assert_eq!(ds[0].suggestions[0].text, "name: String");
    o.groups = vec!["*".to_owned(), "id".to_owned()];
    assert!(Alphabetize.check(&tree, src, &o).is_empty());
    o.groups = vec!["id".to_owned(), "*".to_owned()];
    assert_eq!(Alphabetize.check(&tree, src, &o).len(), 1);
}

#[test]
fn alphabetize_definitions_are_compared_ignoring_case() {
    let src = "type b { x: Int }\ntype A { x: Int }";
    let tree = Tree {
        nodes: vec![
            n(SyntaxKind::DOCUMENT, None, (0, 35), None),
            n(SyntaxKind::OBJECT_TYPE_DEFINITION, Some("b"), (0, 17), Some(0)),
            n(SyntaxKind::OBJECT_TYPE_DEFINITION, Some("A"), (18, 17), Some(0)),
        ],
    };
    let mut o = AlphabetizeOptions::new();
    o.definitions = true;
    let ds = Alphabetize.check(&tree, src, &o);
    assert_eq!(ds.len(), 1);
    assert_eq!(ds[0].message, "type \"A\" should be before type \"b\"");
}

fn named(t: &str) -> TypeRef {
    TypeRef::Named(t.to_owned())
}

fn field(name: &str, ty: TypeRef) -> FieldDef {
    FieldDef { name: name.to_owned(), ty, arguments: vec![], deprecated: None }
}

fn ty(name: &str, kind: TypeKind, fields: Vec<FieldDef>) -> TypeDef {
    TypeDef { name: name.to_owned(), kind, fields, interfaces: vec![], members: vec![], values: vec![] }
}

fn schema(types: Vec<TypeDef>) -> Schema {
    Schema { types, directives: vec![], query: None, mutation: None, subscription: None }
}

fn sorted(v: Vec<Vec<char>>) -> Vec<String> {
    let mut r: Vec<String> = v.into_iter().map(|c| c.into_iter().collect()).collect();
    r.sort();
    r
}

#[test]
fn reachable_types_follow_fields_lists_and_implementers() {
    let mut node = ty("Node", TypeKind::Interface, vec![field("id", named("ID"))]);
    node.fields[0].ty = TypeRef::NonNullNamed("ID".to_owned());
    let mut user = ty("User", TypeKind::Object, vec![field("posts", TypeRef::List(Box::new(named("Post"))))]);
    user.interfaces = vec!["Node".to_owned()];
    let mut post = ty("Post", TypeKind::Object, vec![]);
    post.interfaces = vec!["Node".to_owned()];
    let mut q = ty("Query", TypeKind::Object, vec![field("node", named("Node"))]);
    q.fields[0].arguments = vec![InputValueDef { name: "f".to_owned(), ty: named("Filter"), deprecated: None }];
    let filter = ty("Filter", TypeKind::InputObject, vec![field("inner", named("Hidden"))]);
    let hidden = ty("Hidden", TypeKind::Scalar, vec![]);
    let orphan = ty("Orphan", TypeKind::Object, vec![field("x", named("Int"))]);
    let s = schema(vec![node, user, post, q, filter, hidden, orphan]);
    let r = sorted(reachable_types(&s));
    let want: Vec<String> = ["Boolean", "Filter", "Float", "ID", "Int", "Mutation", "Node", "Post", "Query", "String", "Subscription", "User"]
        .iter().map(|x| x.to_string()).collect();
    assert_eq!(r, want);
}

#[test]
fn directive_arguments_are_reached() {
    let mut s = schema(vec![ty("Query", TypeKind::Object, vec![]), ty("Level", TypeKind::Enum, vec![])]);
    s.directives = vec![DirectiveDef { name: "auth".to_owned(), arguments: vec![InputValueDef { name: "l".to_owned(), ty: named("Level"), deprecated: None }] }];
    assert!(sorted(reachable_types(&s)).contains(&"Level".to_owned()));
}

#[test]
fn unreachable_types_are_reported_in_document_order() {
    let s = schema(vec![
        ty("Query", TypeKind::Object, vec![field("a", named("A"))]),
        ty("A", TypeKind::Object, vec![]),
        ty("B", TypeKind::Object, vec![]),
        ty("C", TypeKind::Enum, vec![]),
    ]);
    let tree = Tree {
        nodes: vec![
            n(SyntaxKind::DOCUMENT, None, (0, 50), None),
            n(SyntaxKind::OBJECT_TYPE_DEFINITION, Some("Query"), (0, 10), Some(0)),
            n(SyntaxKind::OBJECT_TYPE_DEFINITION, Some("A"), (11, 10), Some(0)),
            n(SyntaxKind::OBJECT_TYPE_DEFINITION, Some("B"), (22, 10), Some(0)),
            n(SyntaxKind::ENUM_TYPE_DEFINITION, Some("C"), (33, 10), Some(0)),
            n(SyntaxKind::DIRECTIVE_DEFINITION, Some("d"), (44, 5), Some(0)),
        ],
    };
    let ds = NoUnreachableTypes.check(&tree, &s, &vec![]);
    let msgs: Vec<&str> = ds.iter().map(|d| d.message.as_str()).collect();
    assert_eq!(msgs, vec!["Object type `B` is unreachable.", "Enum type `C` is unreachable."]);
    assert_eq!(ds[0].span, Span::new(0, 0));
    let ignored = NoUnreachableTypes.check(&tree, &s, &vec!["C".to_owned()]);
    assert_eq!(ignored.len(), 1);
}

#[test]
fn directives_are_reported_only_when_nothing_is_reachable() {
    let s = schema(vec![ty("Thing", TypeKind::Object, vec![])]);
    let tree = Tree {
        nodes: vec![
            n(SyntaxKind::DOCUMENT, None, (0, 30), None),
            n(SyntaxKind::DIRECTIVE_DEFINITION, Some("d"), (0, 10), Some(0)),
            n(SyntaxKind::OBJECT_TYPE_DEFINITION, Some("__Hidden"), (11, 10), Some(0)),
        ],
    };
    let ds = NoUnreachableTypes.check(&tree, &s, &vec![]);
    assert_eq!(ds.len(), 1);
    assert_eq!(ds[0].message, "Directive `d` is unreachable.");
    assert_eq!(DefKind::InputObject.message_prefix(), "Input object");
    assert_eq!(DefKind::from_kind(SyntaxKind::UNION_TYPE_EXTENSION), Some(DefKind::Union));
}

fn jstr(s: &str) -> Json {
    Json::Str(s.to_owned())
}

fn jobj(members: Vec<(&str, Json)>) -> Json {
    Json::Object(members.into_iter().map(|(k, v)| (k.to_owned(), v)).collect())
}

#[test]
fn naming_selector_keys_and_predicates() {
    let (kind, pred) = parse_selector_key("FieldDefinition[parent.name.value=Query]");
    assert_eq!(kind, "FieldDefinition");
    let p = pred.unwrap();
    assert_eq!(p.kind, PredicateKind::ParentNameEquals);
    assert_eq!(p.value, "Query");
    let (kind, pred) = parse_selector_key("EnumValueDefinition");
    assert_eq!(kind, "EnumValueDefinition");
    assert!(pred.is_none());
    let p = parse_predicate(" gqlType.name.value = \"ID\" ").unwrap();
    assert_eq!(p.kind, PredicateKind::GqlTypeNameEquals);
    assert_eq!(p.value, "ID");
    let p = parse_predicate("parent.name.value != \"Mutation\"").unwrap();
    assert_eq!(p.kind, PredicateKind::ParentNameNotEquals);
    assert_eq!(p.value, "Mutation");
    assert!(parse_predicate("other.field=1").is_none());
    assert!(parse_predicate("no condition").is_none());
    assert_eq!(parse_case_style("UPPER_CASE").map(|x| x.0), Some(CaseStyle::ScreamingSnake));
    assert!(parse_case_style("Title Case").is_none());
}

#[test]
fn naming_loose_case_checks() {
    assert!(is_case_loose("A", CaseStyle::Pascal));
    assert!(is_case_loose("a", CaseStyle::Camel));
    assert!(!is_case_loose("", CaseStyle::Camel));
    assert!(is_case_loose("x", CaseStyle::Snake));
    assert!(is_case_loose("UserProfile", CaseStyle::Pascal));
    assert!(is_case_loose("ABC", CaseStyle::ScreamingSnake));
    assert!(is_case_loose("ABC", CaseStyle::ScreamingKebab));
    assert!(!is_case_loose("user_profile", CaseStyle::Pascal));
    assert!(!is_case_loose("ABC-DEF", CaseStyle::ScreamingSnake));
}

#[test]
fn naming_options_expand_types_selector() {
    let raw = jobj(vec![
        ("allowLeadingUnderscore", Json::Bool(true)),
        ("types", jstr("PascalCase")),
        ("FieldDefinition", jobj(vec![("style", jstr("camelCase")), ("forbiddenPatterns", Json::Array(vec![jstr("/^get/"), Json::Number]))])),
    ]);
    let o = parse_options(&raw);
    assert!(o.allow_leading_underscore);
    assert!(o.allow_trailing_underscore);
    assert_eq!(o.kind_configs.len(), 7);
    assert_eq!(o.kind_configs[0].kind_name, "ObjectTypeDefinition");
    assert_eq!(o.kind_configs[5].kind_name, "ScalarTypeDefinition");
    assert_eq!(o.kind_configs[6].kind_name, "FieldDefinition");
    assert_eq!(o.kind_configs[6].config.forbidden_patterns.len(), 1);
    assert_eq!(o.kind_configs[6].config.forbidden_patterns[0].source(), "^get");
    let d = parse_options(&jstr("camelCase"));
    assert!(!d.allow_leading_underscore && d.allow_trailing_underscore && d.kind_configs.is_empty());
}

#[test]
fn naming_reports_styles_patterns_and_underscores() {
    let src = "type user_profile { First_name: String getUser: User _id: ID }";
    let tree = Tree {
        nodes: vec![
            n(SyntaxKind::DOCUMENT, None, (0, 62), None),
            n(SyntaxKind::OBJECT_TYPE_DEFINITION, Some("user_profile"), (0, 62), Some(0)),
            n(SyntaxKind::FIELDS_DEFINITION, None, (18, 44), Some(1)),
            n(SyntaxKind::FIELD_DEFINITION, Some("First_name"), (20, 18), Some(2)),
            n(SyntaxKind::FIELD_DEFINITION, Some("getUser"), (39, 13), Some(2)),
            n(SyntaxKind::FIELD_DEFINITION, Some("_id"), (53, 7), Some(2)),
        ],
    };
    let raw = jobj(vec![
        ("types", jstr("PascalCase")),
        ("FieldDefinition", jobj(vec![("style", jstr("camelCase")), ("forbiddenPatterns", Json::Array(vec![jstr("/^get/")]))])),
    ]);
    let o = parse_options(&raw);
    let ds = NamingConvention.check(&tree, src, &o, None);
    let msgs: Vec<&str> = ds.iter().map(|d| d.message.as_str()).collect();
    assert_eq!(msgs, vec![
        "Type \"user_profile\" should be in PascalCase format",
        "Field \"First_name\" should be in camelCase format",
        "Field \"getUser\" should not match pattern \"^get\"",
        "Leading underscores are not allowed",
    ]);
    assert_eq!(ds[0].suggestions[0].desc, "Convert to PascalCase");
    assert_eq!(ds[0].suggestions[0].text, "UserProfile");
    assert_eq!(ds[1].suggestions[0].text, "firstName");
    assert_eq!(ds[3].span, Span::new(53, 7));
}

#[test]
fn naming_labels_operations_and_aliased_fields() {
    let src = "query getUser { my_alias: user }";
    let tree = Tree {
        nodes: vec![
            n(SyntaxKind::DOCUMENT, None, (0, 32), None),
            n(SyntaxKind::OPERATION_DEFINITION, Some("getUser"), (0, 32), Some(0)),
            n(SyntaxKind::SELECTION_SET, None, (14, 18), Some(1)),
            n(SyntaxKind::FIELD, Some("user"), (16, 14), Some(2)),
        ],
    };
    let raw = jobj(vec![("OperationDefinition", jstr("PascalCase")), ("Field", jstr("camelCase"))]);
    let o = parse_options(&raw);
    let ds = NamingConvention.check(&tree, src, &o, None);
    let msgs: Vec<&str> = ds.iter().map(|d| d.message.as_str()).collect();
    assert_eq!(msgs, vec![
        "Query \"getUser\" should be in PascalCase format",
        "field \"my_alias\" should be in camelCase format",
    ]);
}

#[test]
fn naming_type_conditions_read_the_schema() {
    let src = "type Query { user: User userId: ID }";
    let tree = Tree {
        nodes: vec![
            n(SyntaxKind::DOCUMENT, None, (0, 36), None),
            n(SyntaxKind::OBJECT_TYPE_DEFINITION, Some("Query"), (0, 36), Some(0)),
            n(SyntaxKind::FIELDS_DEFINITION, None, (11, 25), Some(1)),
            n(SyntaxKind::FIELD_DEFINITION, Some("user"), (13, 10), Some(2)),
            n(SyntaxKind::FIELD_DEFINITION, Some("userId"), (24, 10), Some(2)),
        ],
    };
    let raw = jobj(vec![("FieldDefinition[gqlType.name.value=ID]", jobj(vec![("suffix", jstr("Id"))]))]);
    let o = parse_options(&raw);
    let s = schema(vec![ty("Query", TypeKind::Object, vec![field("user", named("User")), field("userId", named("ID"))])]);
    assert!(NamingConvention.check(&tree, src, &o, Some(&s)).is_empty());
    let raw2 = jobj(vec![("FieldDefinition[gqlType.name.value=User]", jobj(vec![("suffix", jstr("Id"))]))]);
    let o2 = parse_options(&raw2);
    let ds = NamingConvention.check(&tree, src, &o2, Some(&s));
    assert_eq!(ds.len(), 1);
    assert_eq!(ds[0].message, "Field \"user\" should have \"Id\" suffix");
    assert!(NamingConvention.check(&tree, src, &o2, None).is_empty());
}

fn sel_field(name: &str, ty: &str, inner: Vec<Selection>, inner_ty: &str) -> Selection {
    Selection::Field(FieldSelection {
        name: name.to_owned(),
        alias: None,
        result_type: ty.to_owned(),
        offset: Some(0),
        selection_set: SelectionSet { ty: inner_ty.to_owned(), selections: inner },
    })
}

fn exdef(name: Option<&str>, ty: &str, selections: Vec<Selection>) -> ExecutableDef {
    ExecutableDef {
        name: name.map(|s| s.to_owned()),
        file: "ops.graphql".to_owned(),
        span: Span::new(0, 0),
        selection_set: SelectionSet { ty: ty.to_owned(), selections },
    }
}

fn users_schema() -> Schema {
    let mut user = ty("User", TypeKind::Object, vec![field("id", named("ID")), field("name", named("String")), field("email", named("String"))]);
    user.interfaces = vec!["Node".to_owned()];
    schema(vec![
        ty("Query", TypeKind::Object, vec![field("user", named("User")), field("unusedRoot", named("Int"))]),
        user,
        ty("Node", TypeKind::Interface, vec![field("id", named("ID"))]),
        ty("__Schema", TypeKind::Object, vec![field("types", named("String"))]),
    ])
}

fn schema_doc() -> Tree {
    Tree {
        nodes: vec![
            n(SyntaxKind::DOCUMENT, None, (0, 10), None),
            n(SyntaxKind::OBJECT_TYPE_DEFINITION, Some("User"), (0, 10), Some(0)),
            n(SyntaxKind::FIELD_DEFINITION, Some("id"), (5, 3), Some(1)),
        ],
    }
}

#[test]
fn unused_fields_follow_fragments_and_interfaces() {
    let s = users_schema();
    let ops = vec![exdef(Some("Q"), "Query", vec![sel_field("user", "User", vec![
        sel_field("id", "ID", vec![], "ID"),
        Selection::FragmentSpread { name: "F".to_owned(), offset: Some(0) },
    ], "User")])];
    let frags = vec![exdef(Some("F"), "User", vec![sel_field("name", "String", vec![], "String"), Selection::FragmentSpread { name: "F".to_owned(), offset: Some(0) }])];
    let ds = NoUnusedFields.check(&schema_doc(), &s, &ops, &frags, &vec![], &vec![]);
    let msgs: Vec<&str> = ds.iter().map(|d| d.message.as_str()).collect();
    assert_eq!(msgs, vec!["Field \"unusedRoot\" is unused", "Field \"email\" is unused"]);
    let ignored = NoUnusedFields.check(&schema_doc(), &s, &ops, &frags, &vec!["Query".to_owned()], &vec!["User.email".to_owned()]);
    assert!(ignored.is_empty());
}

#[test]
fn unused_fields_need_a_schema_document() {
    let s = users_schema();
    let operation_doc = Tree { nodes: vec![n(SyntaxKind::DOCUMENT, None, (0, 1), None)] };
    assert!(NoUnusedFields.check(&operation_doc, &s, &vec![], &vec![], &vec![], &vec![]).is_empty());
    assert_eq!(NoUnusedFields.check(&schema_doc(), &s, &vec![], &vec![], &vec![], &vec![]).len(), 6);
}

#[test]
fn naming_reports_only_the_first_failing_check_of_a_configuration() {
    let src = "type T { getUserId: ID }";
    let tree = Tree {
        nodes: vec![
            n(SyntaxKind::DOCUMENT, None, (0, 24), None),
            n(SyntaxKind::OBJECT_TYPE_DEFINITION, Some("T"), (0, 24), Some(0)),
            n(SyntaxKind::FIELDS_DEFINITION, None, (7, 17), Some(1)),
            n(SyntaxKind::FIELD_DEFINITION, Some("getUserId"), (9, 13), Some(2)),
        ],
    };
    let raw = jobj(vec![(
        "FieldDefinition",
        jobj(vec![
            ("forbiddenPrefixes", Json::Array(vec![jstr("get")])),
            ("forbiddenSuffixes", Json::Array(vec![jstr("Id")])),
            ("forbiddenPatterns", Json::Array(vec![jstr("/User/")])),
        ]),
    )]);
    let o = parse_options(&raw);
    let ds = NamingConvention.check(&tree, src, &o, None);
    let msgs: Vec<&str> = ds.iter().map(|d| d.message.as_str()).collect();
    assert_eq!(msgs, vec!["Field \"getUserId\" should not have \"get\" prefix"]);
    let raw = jobj(vec![(
        "FieldDefinition",
        jobj(vec![
            ("forbiddenSuffixes", Json::Array(vec![jstr("Id")])),
            ("forbiddenPatterns", Json::Array(vec![jstr("/User/")])),
        ]),
    )]);
    let ds = NamingConvention.check(&tree, src, &parse_options(&raw), None);
    let msgs: Vec<&str> = ds.iter().map(|d| d.message.as_str()).collect();
    assert_eq!(msgs, vec!["Field \"getUserId\" should not have \"Id\" suffix"]);
}
