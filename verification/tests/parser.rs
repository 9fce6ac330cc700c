use lyrics_dsl::ast::{ErrorContext, ErrorKind, ExpectedToken, LyricsDocument, Section, SectionKind};
use lyrics_dsl::parser::parse_lyrics;

#[test]
fn parse_basic_song() {
    let input = "title:\"My Song\"\nartist:Author\nVERSE[1]\nHello\nCHORUS\nWorld\n";
    assert!(parse_lyrics(input).is_ok());
}

#[test]
fn parse_failure() {
    // Missing newline before section should fail
    let bad_input = "title:Test artist:Author";
    assert!(parse_lyrics(bad_input).is_err());
}

#[test]
fn parse_basic_song_document() {
    let input = "title:\"My Song\"\nartist:Author\nVERSE[1]\nHello\nCHORUS\nWorld\n";
    let doc = parse_lyrics(input).unwrap();
    let expected = LyricsDocument {
        title: Some("My Song".to_string()),
        artist: Some("Author".to_string()),
        sections: vec![
            Section { kind: SectionKind::Verse(1), lines: vec!["Hello".to_string()] },
            Section { kind: SectionKind::Chorus, lines: vec!["World".to_string()] },
        ],
    };
    assert_eq!(doc, expected);
}

#[test]
fn parse_empty_input_is_valid() {
    let doc = parse_lyrics("").unwrap();
    assert_eq!(doc.title, None);
    assert_eq!(doc.artist, None);
    assert!(doc.sections.is_empty());
}

#[test]
fn parse_failure_reports_missing_newline() {
    let err = parse_lyrics("title:Test artist:Author").unwrap_err();
    assert_eq!(err.kind, ErrorKind::GrammarMismatch);
    // the metadata statement was consumed to the end of the input
    assert_eq!(err.offset, 24);
    assert_eq!(err.line, 1);
    assert_eq!(err.col, 25);
    assert_eq!(err.expected, vec![ExpectedToken::Newline]);
    assert_eq!(err.context, Some(ErrorContext::Metadata));
}

#[test]
fn parse_verse_index_overflow() {
    let err = parse_lyrics("VERSE[99999999999999999999]").unwrap_err();
    assert_eq!(err.kind, ErrorKind::NumericOverflow);
    assert_eq!(err.offset, 6);
    assert_eq!(err.line, 1);
    assert_eq!(err.col, 7);
    assert_eq!(err.context, Some(ErrorContext::VerseIndexOverflow));
}

#[test]
fn parse_verse_index_overflow_mid_song() {
    let err = parse_lyrics("CHORUS\nVERSE[4294967296]\n").unwrap_err();
    assert_eq!(err.kind, ErrorKind::NumericOverflow);
    assert_eq!(err.offset, 13);
    assert_eq!(err.line, 2);
}

#[test]
fn parse_verse_index_max_fits() {
    let doc = parse_lyrics("VERSE[4294967295]\n").unwrap();
    assert_eq!(doc.sections[0].kind, SectionKind::Verse(u32::MAX));
}

#[test]
fn parse_verse_index_leading_zeros() {
    let doc = parse_lyrics("VERSE[007]\n").unwrap();
    assert_eq!(doc.sections[0].kind, SectionKind::Verse(7));
}

#[test]
fn parse_bare_metadata_value() {
    let doc = parse_lyrics("title:My Song\n").unwrap();
    assert_eq!(doc.title, Some("My Song".to_string()));
}

#[test]
fn parse_unclosed_quote_is_bare() {
    let doc = parse_lyrics("title:\"unclosed\n").unwrap();
    assert_eq!(doc.title, Some("\"unclosed".to_string()));
}

#[test]
fn parse_metadata_last_write_wins() {
    let doc = parse_lyrics("title:A\ntitle:B\n").unwrap();
    assert_eq!(doc.title, Some("B".to_string()));
}

#[test]
fn parse_header_at_end_of_input() {
    let doc = parse_lyrics("CHORUS").unwrap();
    assert_eq!(doc.sections, vec![Section { kind: SectionKind::Chorus, lines: vec![] }]);
}

#[test]
fn parse_header_shaped_body_line_starts_section() {
    // mid-body, a header-shaped line always opens a new section
    let doc = parse_lyrics("CHORUS\nla la\n[Note]\nmore\n").unwrap();
    let expected = vec![
        Section { kind: SectionKind::Chorus, lines: vec!["la la".to_string()] },
        Section { kind: SectionKind::Custom("Note".to_string()), lines: vec!["more".to_string()] },
    ];
    assert_eq!(doc.sections, expected);
}

#[test]
fn parse_metadata_shaped_line_is_body_after_header() {
    let doc = parse_lyrics("BRIDGE\ntitle:not metadata\n").unwrap();
    assert_eq!(doc.title, None);
    assert_eq!(doc.sections[0].lines, vec!["title:not metadata".to_string()]);
}

#[test]
fn parse_empty_body_lines_kept() {
    let doc = parse_lyrics("CHORUS\n\nx\n").unwrap();
    assert_eq!(doc.sections[0].lines, vec!["".to_string(), "x".to_string()]);
}

#[test]
fn parse_stray_line_rejected_at_line_start() {
    let err = parse_lyrics("@@ not a song\n").unwrap_err();
    assert_eq!(err.kind, ErrorKind::GrammarMismatch);
    assert_eq!(err.offset, 0);
    assert_eq!(err.col, 1);
    assert_eq!(
        err.expected,
        vec![ExpectedToken::MetadataKey, ExpectedToken::SectionHeader, ExpectedToken::EndOfInput]
    );
}

#[test]
fn error_positions_are_monotone() {
    // each input is valid up to the shown byte offset and bad after it
    let cases = vec![
        ("@@@", 0),
        ("title:A\n@@@", 8),
        ("title:A\nartist:B\n@@@", 17),
        ("title:A\nartist:B\nVERSE[99999999999999999999]", 17),
    ];
    for (input, valid_up_to) in cases {
        let err = parse_lyrics(input).unwrap_err();
        assert!(err.offset >= valid_up_to);
    }
}
