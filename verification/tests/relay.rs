use rglint::model::{Node, Span, SyntaxKind, Tree};
use rglint::pattern::Pattern;
use rglint::rules::relay_arguments::{named_type, ArgumentOptions, RelayArguments};
use rglint::rules::relay_connection_types::{is_page_info_ref, RelayConnectionTypes};
use rglint::rules::relay_edge_types::{is_named_or_non_null_named, EdgeOptions, RelayEdgeTypes};
use rglint::rules::relay_page_info::{ExpectedType, PageInfoOptions, RelayPageInfo};
use rglint::schema::{FieldDef, InputValueDef, Schema, TypeDef, TypeKind, TypeRef};
use rglint::shared::{
    connection_for_field, edge_for_connection, edge_of_connection, is_backward_only, is_connection_type,
    is_edge_type, is_forward_only, is_page_info_type, RelayOpts,
};

fn node(kind: SyntaxKind, name: Option<&str>, span: (usize, usize), parent: Option<usize>) -> Node {
    Node { kind, name: name.map(|s| s.to_owned()), span: Some(Span::new(span.0, span.1)), parent }
}

fn nt(t: &str) -> TypeRef {
    TypeRef::Named(t.to_owned())
}

fn nn(t: &str) -> TypeRef {
    TypeRef::NonNullNamed(t.to_owned())
}

fn list(t: TypeRef) -> TypeRef {
    TypeRef::List(Box::new(t))
}

fn arg(name: &str, ty: TypeRef) -> InputValueDef {
    InputValueDef { name: name.to_owned(), ty, deprecated: None }
}

fn fd(name: &str, ty: TypeRef, arguments: Vec<InputValueDef>) -> FieldDef {
    FieldDef { name: name.to_owned(), ty, arguments, deprecated: None }
}

fn object(name: &str, fields: Vec<FieldDef>) -> TypeDef {
    TypeDef { name: name.to_owned(), kind: TypeKind::Object, fields, interfaces: vec![], members: vec![], values: vec![] }
}

fn scalar(name: &str) -> TypeDef {
    TypeDef { name: name.to_owned(), kind: TypeKind::Scalar, fields: vec![], interfaces: vec![], members: vec![], values: vec![] }
}

fn relay_schema() -> Schema {
    let page_fields = || {
        vec![
            fd("hasNextPage", nn("Boolean"), vec![]),
            fd("hasPreviousPage", nn("Boolean"), vec![]),
            fd("startCursor", nt("String"), vec![]),
            fd("endCursor", nt("String"), vec![]),
        ]
    };
    let pagination = || vec![arg("first", nt("Int")), arg("after", nt("String")), arg("last", nt("Int")), arg("before", nt("String"))];
    Schema {
        types: vec![
            object("Query", vec![
                fd("users", nt("UserConnection"), pagination()),
                fd("health", nt("String"), vec![]),
                fd("forwardUsers", nt("UserConnection"), vec![arg("first", nt("Int")), arg("after", nt("String"))]),
                fd("backwardUsers", nt("UserConnection"), vec![arg("last", nt("Int")), arg("before", nt("String"))]),
            ]),
            object("User", vec![fd("id", nn("ID"), vec![])]),
            object("UserConnection", vec![fd("edges", list(nt("UserEdge")), vec![]), fd("pageInfo", nn("PageInfo"), vec![])]),
            object("BadConnection", vec![fd("edges", list(nt("UserEdge")), vec![])]),
            object("UserEdge", vec![fd("node", nt("User"), vec![]), fd("cursor", nn("String"), vec![])]),
            object("BadEdge", vec![fd("node", nt("User"), vec![])]),
            object("PageInfo", page_fields()),
            object("IncompletePageInfo", vec![fd("hasNextPage", nn("Boolean"), vec![])]),
            object("UserConnectionType", vec![fd("edges", list(nt("UserEdgeType")), vec![]), fd("pageInfo", nn("PagingInfo"), vec![])]),
            object("UserEdgeType", vec![fd("node", nt("User"), vec![]), fd("cursor", nn("String"), vec![])]),
            object("PagingInfo", page_fields()),
        ],
        directives: vec![],
        query: None,
        mutation: None,
        subscription: None,
    }
}

fn type_named<'a>(s: &'a Schema, name: &str) -> &'a TypeDef {
    s.types.iter().find(|t| t.name == name).unwrap()
}

fn field_of<'a>(s: &'a Schema, t: &str, f: &str) -> &'a FieldDef {
    type_named(s, t).fields.iter().find(|x| x.name == f).unwrap()
}

#[test]
fn default_predicates_require_names_and_fields() {
    let s = relay_schema();
    let opts = RelayOpts::standard().unwrap();
    assert!(is_connection_type(type_named(&s, "UserConnection"), &opts));
    assert!(!is_connection_type(type_named(&s, "BadConnection"), &opts));
    assert!(is_edge_type(type_named(&s, "UserEdge"), &opts));
    assert!(!is_edge_type(type_named(&s, "BadEdge"), &opts));
    assert!(is_page_info_type(type_named(&s, "PageInfo"), &opts));
    assert!(!is_page_info_type(type_named(&s, "IncompletePageInfo"), &opts));
}

#[test]
fn resolves_connections_and_edges_from_schema() {
    let s = relay_schema();
    let opts = RelayOpts::standard().unwrap();
    let connection = connection_for_field(field_of(&s, "Query", "users"), &s, &opts).unwrap();
    assert_eq!(connection.name, "UserConnection");
    assert_eq!(edge_of_connection(connection, &s).unwrap().name, "UserEdge");
    assert_eq!(edge_for_connection(connection, &s).unwrap().name, "UserEdge");
    assert!(connection_for_field(field_of(&s, "Query", "health"), &s, &opts).is_none());
}

#[test]
fn classifies_complete_pagination_pairs() {
    let s = relay_schema();
    assert!(is_forward_only(field_of(&s, "Query", "forwardUsers")));
    assert!(is_backward_only(field_of(&s, "Query", "backwardUsers")));
    assert!(!is_forward_only(field_of(&s, "Query", "users")));
    assert!(!is_backward_only(field_of(&s, "Query", "users")));
}

#[test]
fn custom_names_are_supported() {
    let s = relay_schema();
    let opts = RelayOpts {
        connection_pattern: Pattern::compile("ConnectionType$").unwrap(),
        edge_pattern: Pattern::compile("EdgeType$").unwrap(),
        page_info_name: "PagingInfo".to_owned(),
    };
    assert!(is_connection_type(type_named(&s, "UserConnectionType"), &opts));
    assert!(is_edge_type(type_named(&s, "UserEdgeType"), &opts));
    assert!(is_page_info_type(type_named(&s, "PagingInfo"), &opts));
}

#[test]
fn default_options_require_both_directions() {
    assert!(ArgumentOptions::new().include_both);
    assert_eq!(named_type(&nn("Int")), Some("Int"));
    assert!(named_type(&list(nt("Int"))).is_none());
}

#[test]
fn page_info_requires_exact_non_null_named_type() {
    assert!(is_page_info_ref(&nn("PageInfo")));
    assert!(!is_page_info_ref(&TypeRef::NonNullList(Box::new(nt("PageInfo")))));
}

#[test]
fn node_accepts_only_named_and_non_null_named_types() {
    assert!(is_named_or_non_null_named(&nt("User")));
    assert!(is_named_or_non_null_named(&nn("User")));
    assert!(!is_named_or_non_null_named(&list(nt("User"))));
}

#[test]
fn options_default_to_upstream_values() {
    let o = EdgeOptions::new();
    assert!(o.with_edge_suffix);
    assert!(o.should_implement_node);
    assert!(o.list_type_can_wrap_only_edge_type);
}

#[test]
fn options_default_to_page_info() {
    assert_eq!(PageInfoOptions::new().page_info_name, "PageInfo");
    let o = PageInfoOptions { page_info_name: "PagingInfo".to_owned() };
    assert_eq!(o.page_info_name, "PagingInfo");
}

#[test]
fn field_type_rules_match_relay_shape() {
    let s = Schema { types: vec![scalar("Date"), object("Query", vec![fd("x", nt("Int"), vec![])])], directives: vec![], query: None, mutation: None, subscription: None };
    assert!(ExpectedType::Boolean.allows(&nn("Boolean"), &s));
    assert!(!ExpectedType::Boolean.allows(&nt("String"), &s));
    assert!(ExpectedType::Cursor.allows(&nt("String"), &s));
    assert!(ExpectedType::Cursor.allows(&nt("Date"), &s));
    assert!(!ExpectedType::Cursor.allows(&nn("String"), &s));
}

// type FooConnection { edges: Int }
fn foo_connection_doc() -> Tree {
    Tree {
        nodes: vec![
            node(SyntaxKind::DOCUMENT, None, (0, 33), None),
            node(SyntaxKind::OBJECT_TYPE_DEFINITION, Some("FooConnection"), (0, 33), Some(0)),
            node(SyntaxKind::NAME, Some("FooConnection"), (5, 13), Some(1)),
            node(SyntaxKind::FIELD_DEFINITION, Some("edges"), (21, 10), Some(1)),
            node(SyntaxKind::NAME, Some("edges"), (21, 5), Some(3)),
            node(SyntaxKind::NAMED_TYPE, Some("Int"), (28, 3), Some(3)),
        ],
    }
}

#[test]
fn connection_without_page_info_and_with_scalar_edges_is_reported() {
    let s = Schema { types: vec![object("FooConnection", vec![fd("edges", nt("Int"), vec![])])], directives: vec![], query: None, mutation: None, subscription: None };
    let ds = RelayConnectionTypes.check(&foo_connection_doc(), Some(&s));
    let got: Vec<(&str, Span)> = ds.iter().map(|d| (d.message.as_str(), d.span)).collect();
    assert_eq!(got, vec![
        ("Connection type must contain a field `pageInfo` that return a non-null `PageInfo` Object type.", Span::new(5, 13)),
        ("`edges` field must return a list type.", Span::new(28, 3)),
    ]);
    assert!(RelayConnectionTypes.check(&foo_connection_doc(), None).is_empty());
}

#[test]
fn connection_shape_without_suffix_is_reported() {
    // type Foo { edges: [A] pageInfo: PageInfo! }
    let tree = Tree {
        nodes: vec![
            node(SyntaxKind::DOCUMENT, None, (0, 42), None),
            node(SyntaxKind::OBJECT_TYPE_DEFINITION, Some("Foo"), (0, 42), Some(0)),
            node(SyntaxKind::NAME, Some("Foo"), (5, 3), Some(1)),
            node(SyntaxKind::FIELD_DEFINITION, Some("edges"), (11, 10), Some(1)),
            node(SyntaxKind::FIELD_DEFINITION, Some("pageInfo"), (22, 18), Some(1)),
        ],
    };
    let s = Schema { types: vec![object("Foo", vec![])], directives: vec![], query: None, mutation: None, subscription: None };
    let ds = RelayConnectionTypes.check(&tree, Some(&s));
    assert_eq!(ds.len(), 1);
    assert_eq!(ds[0].message, "Connection type must have `Connection` suffix.");
    assert_eq!(ds[0].span, Span::new(5, 3));
}

// type AConnection { edges: [Bad] }
fn bad_edge_doc() -> Tree {
    Tree {
        nodes: vec![
            node(SyntaxKind::DOCUMENT, None, (0, 33), None),
            node(SyntaxKind::OBJECT_TYPE_DEFINITION, Some("AConnection"), (0, 33), Some(0)),
            node(SyntaxKind::NAME, Some("AConnection"), (5, 11), Some(1)),
            node(SyntaxKind::FIELD_DEFINITION, Some("edges"), (19, 12), Some(1)),
            node(SyntaxKind::LIST_TYPE, None, (26, 5), Some(3)),
            node(SyntaxKind::NAMED_TYPE, Some("Bad"), (27, 3), Some(4)),
        ],
    }
}

#[test]
fn edges_of_a_scalar_type_are_reported() {
    let s = Schema { types: vec![object("AConnection", vec![fd("edges", list(nt("Bad")), vec![])]), scalar("Bad")], directives: vec![], query: None, mutation: None, subscription: None };
    let ds = RelayEdgeTypes.check(&bad_edge_doc(), Some(&s), &EdgeOptions::new());
    let got: Vec<(&str, Span)> = ds.iter().map(|d| (d.message.as_str(), d.span)).collect();
    assert_eq!(got, vec![
        ("Edge type must be an Object type.", Span::new(27, 3)),
        ("A list type should only wrap an edge type.", Span::new(26, 5)),
    ]);
    let mut o = EdgeOptions::new();
    o.list_type_can_wrap_only_edge_type = false;
    assert_eq!(RelayEdgeTypes.check(&bad_edge_doc(), Some(&s), &o).len(), 1);
}

#[test]
fn edge_type_without_node_cursor_or_suffix_is_reported() {
    // type XConnection { edges: [X] } type X { }
    let tree = Tree {
        nodes: vec![
            node(SyntaxKind::DOCUMENT, None, (0, 42), None),
            node(SyntaxKind::OBJECT_TYPE_DEFINITION, Some("XConnection"), (0, 31), Some(0)),
            node(SyntaxKind::NAME, Some("XConnection"), (5, 11), Some(1)),
            node(SyntaxKind::FIELD_DEFINITION, Some("edges"), (19, 10), Some(1)),
            node(SyntaxKind::LIST_TYPE, None, (26, 3), Some(3)),
            node(SyntaxKind::NAMED_TYPE, Some("X"), (27, 1), Some(4)),
            node(SyntaxKind::OBJECT_TYPE_DEFINITION, Some("X"), (32, 10), Some(0)),
            node(SyntaxKind::NAME, Some("X"), (37, 1), Some(6)),
        ],
    };
    let s = Schema { types: vec![object("XConnection", vec![fd("edges", list(nt("X")), vec![])]), object("X", vec![])], directives: vec![], query: None, mutation: None, subscription: None };
    let ds = RelayEdgeTypes.check(&tree, Some(&s), &EdgeOptions::new());
    let got: Vec<(&str, Span)> = ds.iter().map(|d| (d.message.as_str(), d.span)).collect();
    assert_eq!(got, vec![
        ("Edge type must contain a field `node` that return either a Scalar, Enum, Object, Interface, Union, or a non-null wrapper around one of those types.", Span::new(37, 1)),
        ("Edge type must contain a field `cursor` that return either a String, Scalar, or a non-null wrapper wrapper around one of those types.", Span::new(37, 1)),
        ("Edge type must have \"Edge\" suffix.", Span::new(37, 1)),
    ]);
}

#[test]
fn page_info_fields_are_checked_against_the_schema() {
    // type PageInfo { hasNextPage: Boolean }
    let tree = Tree {
        nodes: vec![
            node(SyntaxKind::DOCUMENT, None, (0, 38), None),
            node(SyntaxKind::OBJECT_TYPE_DEFINITION, Some("PageInfo"), (0, 38), Some(0)),
            node(SyntaxKind::NAME, Some("PageInfo"), (5, 8), Some(1)),
            node(SyntaxKind::FIELD_DEFINITION, Some("hasNextPage"), (16, 20), Some(1)),
        ],
    };
    let s = Schema { types: vec![object("PageInfo", vec![fd("hasNextPage", nt("Boolean"), vec![])])], directives: vec![], query: None, mutation: None, subscription: None };
    let ds = RelayPageInfo.check(&tree, Some(&s), &PageInfoOptions::new());
    let got: Vec<(&str, Span)> = ds.iter().map(|d| (d.message.as_str(), d.span)).collect();
    assert_eq!(got, vec![
        ("`PageInfo` must contain a field `hasPreviousPage`, that return non-null Boolean.", Span::new(5, 8)),
        ("Field `hasNextPage` must return non-null Boolean.", Span::new(16, 20)),
        ("`PageInfo` must contain a field `startCursor`, that return either String or Scalar, which can be null if there are no results.", Span::new(5, 8)),
        ("`PageInfo` must contain a field `endCursor`, that return either String or Scalar, which can be null if there are no results.", Span::new(5, 8)),
    ]);
}

#[test]
fn page_info_scalar_and_missing_type_are_reported() {
    // scalar PageInfo
    let tree = Tree {
        nodes: vec![
            node(SyntaxKind::DOCUMENT, None, (0, 15), None),
            node(SyntaxKind::SCALAR_TYPE_DEFINITION, Some("PageInfo"), (0, 15), Some(0)),
            node(SyntaxKind::NAME, Some("PageInfo"), (7, 8), Some(1)),
        ],
    };
    let s = Schema { types: vec![object("Query", vec![])], directives: vec![], query: None, mutation: None, subscription: None };
    let ds = RelayPageInfo.check(&tree, Some(&s), &PageInfoOptions::new());
    let got: Vec<(&str, Span)> = ds.iter().map(|d| (d.message.as_str(), d.span)).collect();
    assert_eq!(got, vec![
        ("`PageInfo` must be an Object type.", Span::new(7, 8)),
        ("The server must provide a `PageInfo` object.", Span::new(0, 0)),
    ]);
}

// type Query { users(first: Int, after: String): UserConnection }
fn users_doc() -> Tree {
    Tree {
        nodes: vec![
            node(SyntaxKind::DOCUMENT, None, (0, 62), None),
            node(SyntaxKind::OBJECT_TYPE_DEFINITION, Some("Query"), (0, 62), Some(0)),
            node(SyntaxKind::NAME, Some("Query"), (5, 5), Some(1)),
            node(SyntaxKind::FIELD_DEFINITION, Some("users"), (13, 47), Some(1)),
            node(SyntaxKind::ARGUMENTS_DEFINITION, None, (18, 26), Some(3)),
            node(SyntaxKind::INPUT_VALUE_DEFINITION, Some("first"), (19, 10), Some(4)),
            node(SyntaxKind::INPUT_VALUE_DEFINITION, Some("after"), (31, 13), Some(4)),
        ],
    }
}

#[test]
fn connection_field_arguments_are_checked() {
    let s = Schema {
        types: vec![
            object("Query", vec![fd("users", nt("UserConnection"), vec![arg("first", nt("Int")), arg("after", nt("String"))])]),
            object("UserConnection", vec![]),
        ],
        directives: vec![],
        query: None,
        mutation: None,
        subscription: None,
    };
    let relay = RelayOpts::standard().unwrap();
    let ds = RelayArguments.check(&users_doc(), Some(&s), &relay, &ArgumentOptions::new());
    let got: Vec<(&str, Span)> = ds.iter().map(|d| (d.message.as_str(), d.span)).collect();
    assert_eq!(got, vec![
        ("Field `users` must contain an argument `last`, that return Int.", Span::new(13, 47)),
        ("Field `users` must contain an argument `before`, that return String or Scalar.", Span::new(13, 47)),
    ]);
    assert!(RelayArguments.check(&users_doc(), Some(&s), &relay, &ArgumentOptions { include_both: false }).is_empty());
}

#[test]
fn connection_field_without_pagination_is_reported() {
    let tree = Tree {
        nodes: vec![
            node(SyntaxKind::DOCUMENT, None, (0, 36), None),
            node(SyntaxKind::OBJECT_TYPE_DEFINITION, Some("Query"), (0, 36), Some(0)),
            node(SyntaxKind::FIELD_DEFINITION, Some("users"), (13, 21), Some(1)),
        ],
    };
    let s = Schema {
        types: vec![object("Query", vec![fd("users", nt("UserConnection"), vec![])]), object("UserConnection", vec![])],
        directives: vec![],
        query: None,
        mutation: None,
        subscription: None,
    };
    let relay = RelayOpts::standard().unwrap();
    let ds = RelayArguments.check(&tree, Some(&s), &relay, &ArgumentOptions::new());
    assert_eq!(ds.len(), 1);
    assert_eq!(ds[0].message, "A field that returns a Connection type must include forward pagination arguments (`first` and `after`), backward pagination arguments (`last` and `before`), or both.");
    assert_eq!(ds[0].span, Span::new(13, 21));
}
