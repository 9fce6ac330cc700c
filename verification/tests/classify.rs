use lyrics_dsl::ast::SectionKind;
use lyrics_dsl::grammar::classify_line;

#[test]
fn classify_canonical_headers() {
    // the canonical text of each header kind classifies as itself
    assert_eq!(classify_line("VERSE[1]"), Some(SectionKind::Verse(1)));
    assert_eq!(classify_line("VERSE[42]"), Some(SectionKind::Verse(42)));
    assert_eq!(classify_line("CHORUS"), Some(SectionKind::Chorus));
    assert_eq!(classify_line("BRIDGE"), Some(SectionKind::Bridge));
    assert_eq!(classify_line("[Intro]"), Some(SectionKind::Custom("Intro".to_string())));
}

#[test]
fn classify_plain_lines() {
    assert_eq!(classify_line("just some lyrics"), None);
    assert_eq!(classify_line("CHORUS tonight"), None);
    assert_eq!(classify_line("verse[1]"), None);
    assert_eq!(classify_line("VERSE[]"), None);
    assert_eq!(classify_line("VERSE[1x]"), None);
    assert_eq!(classify_line(""), None);
}

#[test]
fn classify_overflowing_verse_is_plain() {
    // the full parser reports this as a numeric overflow instead
    assert_eq!(classify_line("VERSE[99999999999999999999]"), None);
}

#[test]
fn classify_custom_markers() {
    assert_eq!(classify_line("[]"), Some(SectionKind::Custom("".to_string())));
    assert_eq!(classify_line("[Verse 1]"), Some(SectionKind::Custom("Verse 1".to_string())));
    assert_eq!(classify_line("[a]b]"), None);
}
