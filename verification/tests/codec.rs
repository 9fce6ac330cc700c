use lyrics_dsl::ast::{LyricsDocument, Section, SectionKind};
use lyrics_dsl::codec::{deserialize_document, serialize_document};
use lyrics_dsl::parser::parse_lyrics;

#[test]
fn serialize_empty_document_exact() {
    let doc = LyricsDocument { title: None, artist: None, sections: vec![] };
    assert_eq!(serialize_document(&doc), "title none\nartist none\nsections 0\n");
}

#[test]
fn serialize_small_document_exact() {
    let doc = LyricsDocument {
        title: Some("My Song".to_string()),
        artist: None,
        sections: vec![Section { kind: SectionKind::Verse(1), lines: vec!["Hi".to_string()] }],
    };
    assert_eq!(
        serialize_document(&doc),
        "title some 7:My Song\nartist none\nsections 1\nkind verse index 1\nlines 1\n2:Hi\n"
    );
}

#[test]
fn round_trip_parsed_document() {
    let input = "title:\"My Song\"\nartist:Author\nVERSE[1]\nHello\nCHORUS\nWorld\n";
    let doc = parse_lyrics(input).unwrap();
    let text = serialize_document(&doc);
    let back = deserialize_document(&text).unwrap();
    assert_eq!(doc, back);
}

#[test]
fn round_trip_empty_document() {
    let doc = LyricsDocument { title: None, artist: None, sections: vec![] };
    let back = deserialize_document(&serialize_document(&doc)).unwrap();
    assert_eq!(doc, back);
}

#[test]
fn round_trip_all_section_kinds() {
    let doc = LyricsDocument {
        title: Some("T".to_string()),
        artist: Some("A".to_string()),
        sections: vec![
            Section { kind: SectionKind::Verse(u32::MAX), lines: vec![] },
            Section { kind: SectionKind::Chorus, lines: vec!["a:b\"c".to_string()] },
            Section { kind: SectionKind::Bridge, lines: vec!["".to_string()] },
            Section {
                kind: SectionKind::Custom("Outro 9".to_string()),
                lines: vec!["x".to_string(), "y".to_string()],
            },
        ],
    };
    let back = deserialize_document(&serialize_document(&doc)).unwrap();
    assert_eq!(doc, back);
}

#[test]
fn deserialize_rejects_garbage() {
    assert!(deserialize_document("").is_err());
    assert!(deserialize_document("totally wrong").is_err());
    assert!(deserialize_document("title none\nartist none\nsections 2\n").is_err());
    assert!(deserialize_document("title none\nartist none\nsections 0\nextra").is_err());
    // a length prefix beyond any machine range must be refused, not wrapped
    assert!(
        deserialize_document("title some 99999999999999999999:x\nartist none\nsections 0\n")
            .is_err()
    );
}

#[test]
fn deserialize_rejects_bad_verse_index() {
    let text = "title none\nartist none\nsections 1\nkind verse index 4294967296\nlines 0\n";
    assert!(deserialize_document(text).is_err());
}
