use rglint::fixture::{inline_documents, expected_entries, find_main_source, find_one_suffix, find_one_suffix_excluding, find_opt_suffix, fixture_settings, DocKind, SourceChoiceError};
use rglint::json::Json;

fn names(list: &[&str]) -> Vec<String> {
    list.iter().map(|s| s.to_string()).collect()
}

#[test]
fn kind_from_setting() {
    assert_eq!(DocKind::from_kebab("schema"), DocKind::Schema);
    assert_eq!(DocKind::from_kebab("operations"), DocKind::Operations);
    assert_eq!(DocKind::from_kebab("Schema"), DocKind::Operations);
    assert_eq!(DocKind::default_kind(), DocKind::Operations);
}

#[test]
fn one_source_is_chosen() {
    let n = names(&["/c/01.config.toml", "/c/01.graphql"]);
    assert_eq!(find_one_suffix(&n, ".graphql").unwrap(), "/c/01.graphql");
    assert_eq!(find_opt_suffix(&n, ".config.toml").unwrap(), Some("/c/01.config.toml".to_owned()));
    assert_eq!(find_opt_suffix(&n, ".expected.json").unwrap(), None);
}

#[test]
fn no_source_and_many_sources_are_errors() {
    let n = names(&["/c/a.txt"]);
    assert!(matches!(find_one_suffix(&n, ".graphql"), Err(SourceChoiceError::NoSource)));
    let n = names(&["/c/a.graphql", "/c/b.graphql"]);
    match find_one_suffix(&n, ".graphql") {
        Err(SourceChoiceError::ManySources(files)) => assert_eq!(files, n),
        _ => panic!("expected ManySources"),
    }
    match find_opt_suffix(&n, ".graphql") {
        Err(SourceChoiceError::ManySources(files)) => assert_eq!(files, n),
        _ => panic!("duplicate optional parts are an error"),
    }
}

#[test]
fn siblings_are_left_out_of_the_choice() {
    let n = names(&["/c/01.graphql", "/c/01.sibling.graphql"]);
    let ex = names(&["/c/01.sibling.graphql"]);
    assert_eq!(find_one_suffix_excluding(&n, ".graphql", &ex).unwrap(), "/c/01.graphql");
    let n = names(&["/c/01.graphql", "/c/02.graphql", "/c/01.sibling.graphql"]);
    assert!(matches!(
        find_one_suffix_excluding(&n, ".graphql", &ex),
        Err(SourceChoiceError::ManySourcesExcluding(_))
    ));
}

fn member(key: &str, value: Json) -> (String, Json) {
    (key.to_string(), value)
}

#[test]
fn settings_read_schema_kind_and_loose_message() {
    let config = Json::Object(vec![
        member("kind", Json::Str("schema".to_string())),
        member("loose_message", Json::Bool(true)),
        member("schema", Json::Str("type Query { x: Int }".to_string())),
        member("options", Json::Object(vec![member("maxDepth", Json::Number)])),
    ]);
    let s = fixture_settings(&config, "/cases/01").unwrap();
    assert_eq!(s.kind, DocKind::Schema);
    assert!(s.loose_message);
    assert_eq!(s.schema.as_deref(), Some("type Query { x: Int }"));
    assert_eq!(s.schema_path, None);
    assert!(s.sibling_documents.is_empty());
    assert_eq!(s.documents, None);
}

#[test]
fn settings_default_to_operations_and_strict_messages() {
    let s = fixture_settings(&Json::Object(vec![]), "/cases/01").unwrap();
    assert_eq!(s.kind, DocKind::Operations);
    assert!(!s.loose_message);
    assert_eq!(s.schema, None);
    let s = fixture_settings(&Json::Object(vec![member("kind", Json::Str("operation".to_string()))]), "d").unwrap();
    assert_eq!(s.kind, DocKind::Operations);
}

#[test]
fn settings_resolve_schema_path_against_the_case_dir() {
    let config = Json::Object(vec![member("schema_path", Json::Str("schema.graphqls".to_string()))]);
    let s = fixture_settings(&config, "/cases/01").unwrap();
    let sp = s.schema_path.expect("schema_path set");
    assert_eq!(sp, "/cases/01/schema.graphqls");
}

#[test]
fn settings_keep_only_string_siblings_and_documents() {
    let config = Json::Object(vec![
        member(
            "sibling_documents",
            Json::Array(vec![Json::Str("01.sibling.graphql".to_string()), Json::Bool(true)]),
        ),
        member("documents", Json::Str("query A { a }".to_string())),
        member("loose_message", Json::Str("yes".to_string())),
    ]);
    let s = fixture_settings(&config, "d").unwrap();
    assert_eq!(s.sibling_documents, vec!["01.sibling.graphql".to_string()]);
    assert_eq!(s.documents.as_deref(), Some("query A { a }"));
    assert!(!s.loose_message);
}

#[test]
fn settings_need_a_table_at_the_root() {
    assert!(fixture_settings(&Json::Array(vec![]), "d").is_none());
    assert!(fixture_settings(&Json::Null, "d").is_none());
}

#[test]
fn main_source_falls_back_to_gql() {
    let none: Vec<String> = vec![];
    let n = names(&["/c/01.gql", "/c/01.config.toml"]);
    assert_eq!(find_main_source(&n, &none).unwrap(), "/c/01.gql");
    let n = names(&["/c/01.graphql", "/c/02.gql"]);
    assert_eq!(find_main_source(&n, &none).unwrap(), "/c/01.graphql");
    let n = names(&["/c/a.graphql", "/c/b.graphql"]);
    assert!(matches!(find_main_source(&n, &none), Err(SourceChoiceError::ManySourcesExcluding(f)) if f == n));
    let n = names(&["/c/a.graphql", "/c/b.graphql", "/c/c.gql"]);
    assert!(matches!(find_main_source(&n, &none), Err(SourceChoiceError::ManySourcesExcluding(f)) if f == names(&["/c/a.graphql", "/c/b.graphql"])));
    assert!(matches!(find_main_source(&names(&["/c/x.txt"]), &none), Err(SourceChoiceError::NoSource)));
    let n = names(&["/c/a.gql", "/c/b.gql"]);
    assert!(matches!(find_main_source(&n, &none), Err(SourceChoiceError::ManySourcesExcluding(f)) if f == n));
    let n = names(&["/c/01.graphql", "/c/01.sibling.graphql"]);
    assert_eq!(find_main_source(&n, &names(&["/c/01.sibling.graphql"])).unwrap(), "/c/01.graphql");
}

#[test]
fn expected_documents_need_an_errors_array() {
    let ok = Json::Object(vec![member("errors", Json::Array(vec![Json::Null, Json::Null]))]);
    assert_eq!(expected_entries(&ok).map(|e| e.len()), Some(2));
    assert!(expected_entries(&Json::Object(vec![member("errors", Json::Null)])).is_none());
    assert!(expected_entries(&Json::Object(vec![])).is_none());
    assert!(expected_entries(&Json::Array(vec![])).is_none());
}

#[test]
fn inline_documents_split_on_blank_lines() {
    let docs = inline_documents("query A { a }\n\n\n{ b }\n\n  \n\nmutation M { c }\n");
    assert_eq!(docs, vec!["query A { a }".to_string(), "{ b }".to_string(), "mutation M { c }".to_string()]);
    assert!(inline_documents("  \n").is_empty());
    assert_eq!(inline_documents("{ x }"), vec!["{ x }".to_string()]);
}
