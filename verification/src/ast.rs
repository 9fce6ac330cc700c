//! The document model of the lyrics language: a parsed song, its sections,
//! and the structured error a failed parse reports.

use vstd::prelude::*;

verus! {

/// The label of one section of a song.
#[derive(Clone, Debug, PartialEq, Eq)]
pub enum SectionKind {
    /// A numbered verse, written `VERSE[n]`.
    Verse(u32),
    /// A chorus, written `CHORUS`.
    Chorus,
    /// A bridge, written `BRIDGE`.
    Bridge,
    /// A custom bracketed marker, written `[label]`; the label holds the
    /// characters between the brackets.
    Custom(String),
}

/// The mathematical reading of a [`SectionKind`].
#[verifier::ext_equal]
pub enum SectionKindV {
    Verse(u32),
    Chorus,
    Bridge,
    Custom(Seq<char>),
}

impl View for SectionKind {
    type V = SectionKindV;

    open spec fn view(&self) -> SectionKindV {
        match self {
            SectionKind::Verse(n) => SectionKindV::Verse(*n),
            SectionKind::Chorus => SectionKindV::Chorus,
            SectionKind::Bridge => SectionKindV::Bridge,
            SectionKind::Custom(label) => SectionKindV::Custom(label@),
        }
    }
}

/// One lyrical block: a header and the body lines that follow it, in source
/// order. The body may be empty when the next header or the end of input
/// comes right after the header.
#[derive(Clone, Debug, PartialEq, Eq)]
pub struct Section {
    pub kind: SectionKind,
    pub lines: Vec<String>,
}

/// The mathematical reading of a [`Section`].
#[verifier::ext_equal]
pub struct SectionV {
    pub kind: SectionKindV,
    pub lines: Seq<Seq<char>>,
}

impl View for Section {
    type V = SectionV;

    open spec fn view(&self) -> SectionV {
        SectionV { kind: self.kind@, lines: self.lines@.map_values(|l: String| l@) }
    }
}

/// A parsed song: optional metadata and the sections in source order.
#[derive(Clone, Debug, PartialEq, Eq)]
pub struct LyricsDocument {
    pub title: Option<String>,
    pub artist: Option<String>,
    pub sections: Vec<Section>,
}

/// The mathematical reading of a [`LyricsDocument`].
#[verifier::ext_equal]
pub struct DocV {
    pub title: Option<Seq<char>>,
    pub artist: Option<Seq<char>>,
    pub sections: Seq<SectionV>,
}

impl View for LyricsDocument {
    type V = DocV;

    open spec fn view(&self) -> DocV {
        DocV {
            title: match &self.title {
                Some(t) => Some(t@),
                None => None,
            },
            artist: match &self.artist {
                Some(a) => Some(a@),
                None => None,
            },
            sections: self.sections@.map_values(|s: Section| s@),
        }
    }
}

/// The document with no metadata and no sections, the reading of an empty
/// input.
pub open spec fn empty_doc() -> DocV {
    DocV { title: None, artist: None, sections: Seq::empty() }
}

/// What family of failure a parse error reports.
#[derive(Clone, Copy, Debug, PartialEq, Eq, Structural)]
pub enum ErrorKind {
    /// The input does not conform to the grammar at the reported position.
    GrammarMismatch,
    /// A verse index does not fit an unsigned 32-bit integer.
    NumericOverflow,
}

/// A token the parser would have accepted at the failure position.
#[derive(Clone, Copy, Debug, PartialEq, Eq, Structural)]
pub enum ExpectedToken {
    /// A newline terminator.
    Newline,
    /// A `title:` or `artist:` metadata key.
    MetadataKey,
    /// A section header line.
    SectionHeader,
    /// The end of the input.
    EndOfInput,
}

/// An optional label naming the construct being read when the parse failed.
#[derive(Clone, Copy, Debug, PartialEq, Eq, Structural)]
pub enum ErrorContext {
    /// A metadata statement.
    Metadata,
    /// A `VERSE[n]` index that exceeds the unsigned 32-bit range.
    VerseIndexOverflow,
}

impl ErrorContext {
    /// A short human-readable label for this context.
    pub fn label(&self) -> (r: &'static str)
        ensures
            *self is Metadata ==> r@ == "metadata"@,
            *self is VerseIndexOverflow ==> r@ == "verse index overflow"@,
    {
        match self {
            ErrorContext::Metadata => "metadata",
            ErrorContext::VerseIndexOverflow => "verse index overflow",
        }
    }
}

/// A positioned parse failure. `line` and `col` are 1-based; `offset` is the
/// 0-based character offset from the start of the input. The error is
/// constructed once and never mutated.
#[derive(Clone, Debug, PartialEq, Eq)]
pub struct ParseError {
    pub kind: ErrorKind,
    pub line: usize,
    pub col: usize,
    pub offset: usize,
    pub expected: Vec<ExpectedToken>,
    pub context: Option<ErrorContext>,
}

/// The mathematical reading of a [`ParseError`].
#[verifier::ext_equal]
pub struct ErrV {
    pub kind: ErrorKind,
    pub line: nat,
    pub col: nat,
    pub offset: nat,
    pub expected: Seq<ExpectedToken>,
    pub context: Option<ErrorContext>,
}

impl View for ParseError {
    type V = ErrV;

    open spec fn view(&self) -> ErrV {
        ErrV {
            kind: self.kind,
            line: self.line as nat,
            col: self.col as nat,
            offset: self.offset as nat,
            expected: self.expected@,
            context: self.context,
        }
    }
}

} // verus!
