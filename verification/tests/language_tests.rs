use wiktionary_en::language::Language;

#[test]
fn language_codes_round_trip() {
    for language in Language::iterator() {
        let code = language.value();
        assert_eq!(Language::from_str(&code).unwrap(), language);
    }
}

#[test]
fn language_as_strings() {
    assert_eq!(Language::as_strings(), vec!["en", "de", "fr", "es", "sv"]);
}

#[test]
fn unsupported_language_is_an_error() {
    let err = Language::from_str("xx").unwrap_err();
    assert_eq!(err.code, "xx");
}

#[test]
fn unsupported_language_falls_back_to_default() {
    assert_eq!(Language::from_str_or_default("xx"), Language::EN);
    assert_eq!(Language::from_str_or_default("sv"), Language::SV);
    assert_eq!(Language::default(), Language::EN);
}
