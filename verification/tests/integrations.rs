use regex::Regex;

#[test]
fn test_regex_patterns() {
    let verse_pattern = Regex::new(r"^\[Verse \d+\]").unwrap();
    assert!(verse_pattern.is_match("[Verse 1]"));
    assert!(verse_pattern.is_match("[Verse 2]"));
    assert!(!verse_pattern.is_match("[Chorus]"));
}

#[test]
fn test_serde_functionality() {
    let mut fields = serde_json::Map::new();
    fields.insert("name".to_string(), serde_json::Value::String("test".to_string()));
    fields.insert("value".to_string(), serde_json::Value::Number(serde_json::Number::from(42)));
    let original = serde_json::Value::Object(fields);

    let json = serde_json::to_string(&original).unwrap();
    let deserialized: serde_json::Value = serde_json::from_str(&json).unwrap();

    assert_eq!(original.get("name"), deserialized.get("name"));
    assert_eq!(original.get("value"), deserialized.get("value"));
}

#[test]
fn interchange_format_matches_library_classifier() {
    // the interactive classifier and the regex smoke pattern disagree on
    // purpose: the language writes verse headers as VERSE[n]
    assert_eq!(
        lyrics_dsl::grammar::classify_line("[Verse 1]"),
        Some(lyrics_dsl::ast::SectionKind::Custom("Verse 1".to_string()))
    );
}
