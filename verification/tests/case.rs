use rglint::case::{convert_case, detect_case, is_case, split_words, capitalize_word, CaseStyle};

fn acr(list: &[&str]) -> Vec<String> {
    list.iter().map(|s| s.to_string()).collect()
}

#[test]
fn split_words_empty() {
    assert!(split_words("").is_empty());
}

#[test]
fn split_words_camel_case() {
    assert_eq!(split_words("fooBar"), vec!["foo", "Bar"]);
}

#[test]
fn split_words_pascal_case() {
    assert_eq!(split_words("FooBar"), vec!["Foo", "Bar"]);
}

#[test]
fn split_words_with_numbers() {
    assert_eq!(split_words("foo2Bar"), vec!["foo", "2", "Bar"]);
}

#[test]
fn split_words_snake_case() {
    assert_eq!(split_words("foo_bar"), vec!["foo", "bar"]);
}

#[test]
fn split_words_screaming_snake() {
    assert_eq!(split_words("FOO_BAR"), vec!["FOO", "BAR"]);
}

#[test]
fn split_words_kebab() {
    assert_eq!(split_words("foo-bar"), vec!["foo", "bar"]);
}

#[test]
fn split_words_screaming_kebab() {
    assert_eq!(split_words("FOO-BAR"), vec!["FOO", "BAR"]);
}

#[test]
fn split_words_consecutive_uppercase() {
    assert_eq!(split_words("FOOBar"), vec!["FOO", "Bar"]);
}

#[test]
fn split_words_single_word() {
    assert_eq!(split_words("foo"), vec!["foo"]);
}

#[test]
fn split_words_digits_only() {
    assert_eq!(split_words("123"), vec!["123"]);
}

#[test]
fn split_words_triple_upper() {
    assert_eq!(split_words("FOO"), vec!["FOO"]);
}

#[test]
fn split_words_acronym() {
    assert_eq!(split_words("URL"), vec!["URL"]);
}

#[test]
fn detect_empty() {
    assert_eq!(detect_case(""), None);
}

#[test]
fn detect_camel_case() {
    assert_eq!(detect_case("foo"), Some(CaseStyle::Camel));
    assert_eq!(detect_case("fooBar"), Some(CaseStyle::Camel));
    assert_eq!(detect_case("foo2Bar"), Some(CaseStyle::Camel));
    assert_eq!(detect_case("fooBarBaz"), Some(CaseStyle::Camel));
}

#[test]
fn detect_pascal_case() {
    assert_eq!(detect_case("Foo"), Some(CaseStyle::Pascal));
    assert_eq!(detect_case("FOOBar"), Some(CaseStyle::Pascal));
    assert_eq!(detect_case("UserURL"), Some(CaseStyle::Pascal));
    assert_eq!(detect_case("URL"), Some(CaseStyle::Pascal));
}

#[test]
fn detect_strict_pascal() {
    assert_eq!(detect_case("FooBar"), Some(CaseStyle::StrictPascal));
    assert_eq!(detect_case("FooBarBaz"), Some(CaseStyle::StrictPascal));
}

#[test]
fn detect_snake_case() {
    assert_eq!(detect_case("foo_bar"), Some(CaseStyle::Snake));
    assert_eq!(detect_case("foo_bar_baz"), Some(CaseStyle::Snake));
    assert_eq!(detect_case("foo_2_bar"), Some(CaseStyle::Snake));
}

#[test]
fn detect_screaming_snake() {
    assert_eq!(detect_case("FOO_BAR"), Some(CaseStyle::ScreamingSnake));
    assert_eq!(detect_case("FOO_BAR_BAZ"), Some(CaseStyle::ScreamingSnake));
}

#[test]
fn detect_kebab() {
    assert_eq!(detect_case("foo-bar"), Some(CaseStyle::Kebab));
    assert_eq!(detect_case("foo-bar-baz"), Some(CaseStyle::Kebab));
}

#[test]
fn detect_screaming_kebab() {
    assert_eq!(detect_case("FOO-BAR"), Some(CaseStyle::ScreamingKebab));
}

#[test]
fn detect_mixed_case_with_separator_returns_none() {
    assert_eq!(detect_case("foo_Bar"), None);
    assert_eq!(detect_case("FOO_bar"), None);
    assert_eq!(detect_case("foo-Bar"), None);
    assert_eq!(detect_case("FOO-bar"), None);
}

#[test]
fn is_case_true() {
    assert!(is_case("fooBar", CaseStyle::Camel));
    assert!(is_case("FooBar", CaseStyle::StrictPascal));
    assert!(is_case("FOOBar", CaseStyle::Pascal));
    assert!(is_case("foo_bar", CaseStyle::Snake));
    assert!(is_case("FOO_BAR", CaseStyle::ScreamingSnake));
    assert!(is_case("foo-bar", CaseStyle::Kebab));
    assert!(is_case("FOO-BAR", CaseStyle::ScreamingKebab));
}

#[test]
fn is_case_false() {
    assert!(!is_case("foo_bar", CaseStyle::Camel));
    assert!(!is_case("FooBar", CaseStyle::Camel));
    assert!(!is_case("fooBar", CaseStyle::Snake));
}

#[test]
fn convert_empty() {
    assert_eq!(convert_case("", CaseStyle::Camel, &[]), "");
}

#[test]
fn convert_to_camel() {
    assert_eq!(convert_case("foo_bar", CaseStyle::Camel, &[]), "fooBar");
    assert_eq!(convert_case("FOO_BAR", CaseStyle::Camel, &[]), "fooBar");
    assert_eq!(convert_case("foo-bar", CaseStyle::Camel, &[]), "fooBar");
    assert_eq!(convert_case("FooBar", CaseStyle::Camel, &[]), "fooBar");
    assert_eq!(convert_case("FOOBar", CaseStyle::Camel, &[]), "fooBar");
    assert_eq!(convert_case("foo", CaseStyle::Camel, &[]), "foo");
}

#[test]
fn convert_to_pascal() {
    assert_eq!(convert_case("foo_bar", CaseStyle::Pascal, &[]), "FooBar");
    assert_eq!(convert_case("fooBar", CaseStyle::Pascal, &[]), "FooBar");
    assert_eq!(convert_case("FOO_BAR", CaseStyle::Pascal, &[]), "FooBar");
    assert_eq!(convert_case("foo", CaseStyle::Pascal, &[]), "Foo");
    assert_eq!(convert_case("URL", CaseStyle::Pascal, &[]), "Url");
}

#[test]
fn convert_to_snake() {
    assert_eq!(convert_case("fooBar", CaseStyle::Snake, &[]), "foo_bar");
    assert_eq!(convert_case("FooBar", CaseStyle::Snake, &[]), "foo_bar");
    assert_eq!(convert_case("FOOBar", CaseStyle::Snake, &[]), "foo_bar");
    assert_eq!(convert_case("FOO-BAR", CaseStyle::Snake, &[]), "foo_bar");
}

#[test]
fn convert_to_screaming_snake() {
    assert_eq!(convert_case("fooBar", CaseStyle::ScreamingSnake, &[]), "FOO_BAR");
    assert_eq!(convert_case("FooBar", CaseStyle::ScreamingSnake, &[]), "FOO_BAR");
    assert_eq!(convert_case("foo-bar", CaseStyle::ScreamingSnake, &[]), "FOO_BAR");
}

#[test]
fn convert_to_kebab() {
    assert_eq!(convert_case("fooBar", CaseStyle::Kebab, &[]), "foo-bar");
    assert_eq!(convert_case("FooBar", CaseStyle::Kebab, &[]), "foo-bar");
    assert_eq!(convert_case("foo_bar", CaseStyle::Kebab, &[]), "foo-bar");
}

#[test]
fn convert_to_screaming_kebab() {
    assert_eq!(convert_case("fooBar", CaseStyle::ScreamingKebab, &[]), "FOO-BAR");
    assert_eq!(convert_case("FooBar", CaseStyle::ScreamingKebab, &[]), "FOO-BAR");
    assert_eq!(convert_case("foo_bar", CaseStyle::ScreamingKebab, &[]), "FOO-BAR");
}

#[test]
fn convert_to_strict_pascal() {
    assert_eq!(convert_case("foo_bar", CaseStyle::StrictPascal, &[]), "FooBar");
    assert_eq!(convert_case("fooBar", CaseStyle::StrictPascal, &[]), "FooBar");
}

#[test]
fn convert_with_acronyms() {
    assert_eq!(convert_case("user_url", CaseStyle::StrictPascal, &acr(&["URL"])), "UserURL");
    assert_eq!(convert_case("user_url", CaseStyle::StrictPascal, &acr(&["Url"])), "UserUrl");
    assert_eq!(convert_case("url", CaseStyle::StrictPascal, &acr(&["URL"])), "URL");
}

#[test]
fn convert_acronyms_not_applied_to_pascal() {
    assert_eq!(convert_case("user_url", CaseStyle::Pascal, &acr(&["URL"])), "UserUrl");
}

#[test]
fn roundtrip_camel() {
    let input = "fooBar";
    let converted = convert_case(input, CaseStyle::Camel, &[]);
    assert_eq!(converted, "fooBar");
}

#[test]
fn roundtrip_snake() {
    let input = "foo_bar";
    let converted = convert_case(input, CaseStyle::Snake, &[]);
    assert_eq!(converted, "foo_bar");
}

#[test]
fn detect_case_single_letter() {
    assert_eq!(detect_case("a"), Some(CaseStyle::Camel));
    assert_eq!(detect_case("A"), Some(CaseStyle::Pascal));
}

#[test]
fn namespace_reexports_work() {
    let words = rglint::shared::case::split_words("helloWorld");
    assert_eq!(words, vec!["hello", "World"]);
}

#[test]
fn all_styles_in_order() {
    assert_eq!(
        CaseStyle::all(),
        vec![
            CaseStyle::Camel,
            CaseStyle::Pascal,
            CaseStyle::StrictPascal,
            CaseStyle::Snake,
            CaseStyle::ScreamingSnake,
            CaseStyle::Kebab,
            CaseStyle::ScreamingKebab
        ]
    );
}

#[test]
fn capitalize_lowers_the_rest() {
    assert_eq!(capitalize_word("hELLO"), "Hello");
    assert_eq!(capitalize_word(""), "");
    assert_eq!(capitalize_word("9lives"), "9lives");
}

#[test]
fn separated_conversions_are_idempotent_on_samples() {
    for s in ["fooBar", "FOOBar2baz", "a-B_c", "URLValue", "x9y", "__a__", "AbcDEFGhi"] {
        for style in [CaseStyle::Snake, CaseStyle::ScreamingSnake, CaseStyle::Kebab, CaseStyle::ScreamingKebab] {
            let first = convert_case(s, style, &[]);
            let second = convert_case(&first, style, &[]);
            assert_eq!(first, second, "{s} {style:?}");
        }
    }
}

#[test]
fn camel_and_pascal_conversions_detected_on_samples() {
    for s in ["fooBar", "foo_bar2", "aBCDef", "x"] {
        assert_eq!(detect_case(&convert_case(s, CaseStyle::Camel, &[])), Some(CaseStyle::Camel));
    }
    for s in ["FooBar", "FOO_BAR", "X", "ABc9d"] {
        let d = detect_case(&convert_case(s, CaseStyle::Pascal, &[]));
        assert!(d == Some(CaseStyle::Pascal) || d == Some(CaseStyle::StrictPascal), "{s}");
    }
}

#[test]
fn non_ascii_characters_separate_words() {
    assert_eq!(split_words("fooéBar"), vec!["foo", "Bar"]);
    assert_eq!(convert_case("fooéBar", CaseStyle::Snake, &[]), "foo_bar");
}

#[test]
fn styles_are_written_as_in_options() {
    let labels: Vec<String> = CaseStyle::all().iter().map(|s| s.label()).collect();
    assert_eq!(
        labels,
        vec![
            "camelCase",
            "PascalCase",
            "StrictPascalCase",
            "snake_case",
            "SCREAMING_SNAKE_CASE",
            "kebab-case",
            "SCREAMING-KEBAB-CASE",
        ]
    );
}
