use rglint::property::{prop_parse_roundtrip, round_trip_verdict};

#[test]
fn roundtrip_clean_document_succeeds() {
    assert!(prop_parse_roundtrip("query { hero }"));
    assert!(prop_parse_roundtrip("query GetUser { user { id name } }"));
    assert!(prop_parse_roundtrip("fragment Foo on Bar { baz }"));
}

#[test]
fn roundtrip_malformed_returns_false() {
    assert!(!prop_parse_roundtrip("query { "));
    assert!(!prop_parse_roundtrip(""));
}

#[test]
fn prop_parse_roundtrip_helper_works_on_sample() {
    assert!(prop_parse_roundtrip("query GetUser { user { id name } }"));
    assert!(!prop_parse_roundtrip("query { "));
}

#[test]
fn round_trip_verdict_needs_clean_parses_and_identical_text() {
    assert!(round_trip_verdict("query { a }", false, false, "query { a }"));
    assert!(!round_trip_verdict("query { a }", true, false, "query { a }"));
    assert!(!round_trip_verdict("query { a }", false, true, "query { a }"));
    assert!(!round_trip_verdict("query { a }", false, false, "query { b }"));
}

#[test]
fn roundtrip_keeps_comments_and_whitespace() {
    assert!(prop_parse_roundtrip("# leading\nquery  Q {\n  a # trailing\n}\n"));
}
