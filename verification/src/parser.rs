//! The parser of the lyrics language: a line-oriented state machine, stated
//! as a recursive specification over the input characters and implemented by
//! a verified loop.
//!
//! The grammar is `song := metadata* section*` with
//! `metadata := ("title" | "artist") ":" value NEWLINE` and
//! `section := header NEWLINE line*`. Choices the grammar leaves open are
//! settled here and checked by the specification:
//!
//!   * a metadata statement always requires its newline terminator, so two
//!     metadata statements on one unterminated line fail to parse;
//!   * a header or a body line may instead be terminated by the end of the
//!     input;
//!   * once a section has started, any line with a header shape starts a new
//!     section, even mid-body; every other line is body text, including
//!     lines that look like metadata;
//!   * repeated `title:` or `artist:` statements are last-write-wins;
//!   * errors carry the position of the furthest line reached, never of an
//!     earlier alternative.

use vstd::prelude::*;

use crate::ast::{
    DocV, ErrV, ErrorContext, ErrorKind, ExpectedToken, LyricsDocument, ParseError, Section,
    SectionKind, SectionKindV, SectionV, empty_doc,
};
use crate::grammar::{
    artist_rest, classify_chars, header_of, is_artist_line, is_artist_prefixed, is_header_line,
    is_header_shaped, is_title_line, is_title_prefixed, is_verse_shaped, meta_value,
    meta_value_of, title_rest,
};
use crate::text::{
    chars_to_string, copy_range, find_line_end, lemma_line_end, lemma_line_end_agrees, line_end,
    str_to_chars,
};

verus! {

/// The driver type of the parser; [`parse_lyrics`] is shorthand for its
/// [`LyricsParser::parse`].
pub struct LyricsParser;

/// The parser's accumulated state: metadata seen so far, finished sections,
/// and the section currently being filled (`None` while metadata is still
/// accepted).
#[verifier::ext_equal]
pub struct ParseSt {
    pub title: Option<Seq<char>>,
    pub artist: Option<Seq<char>>,
    pub done: Seq<SectionV>,
    pub cur: Option<SectionV>,
}

/// The state before any input is consumed.
pub open spec fn init_st() -> ParseSt {
    ParseSt { title: None, artist: None, done: Seq::empty(), cur: None }
}

/// The document a final state denotes.
pub open spec fn finish(st: ParseSt) -> DocV {
    DocV {
        title: st.title,
        artist: st.artist,
        sections: match st.cur {
            Some(c) => st.done.push(c),
            None => st.done,
        },
    }
}

/// Closes the current section, if any, and opens a fresh one of kind `k`.
pub open spec fn open_section(st: ParseSt, k: SectionKindV) -> ParseSt {
    ParseSt {
        done: match st.cur {
            Some(c) => st.done.push(c),
            None => st.done,
        },
        cur: Some(SectionV { kind: k, lines: Seq::empty() }),
        ..st
    }
}

/// Appends a body line to the current section.
pub open spec fn push_body_line(st: ParseSt, l: Seq<char>) -> ParseSt
    recommends
        st.cur is Some,
{
    match st.cur {
        Some(c) => ParseSt { cur: Some(SectionV { kind: c.kind, lines: c.lines.push(l) }), ..st },
        None => st,
    }
}

/// The numeric-overflow error for a verse index on the line starting at
/// offset `i`: the index begins right after `VERSE[`, six characters in.
pub open spec fn overflow_err(i: int, ln: int) -> ErrV {
    ErrV {
        kind: ErrorKind::NumericOverflow,
        line: ln as nat,
        col: 7,
        offset: (i + 6) as nat,
        expected: Seq::empty(),
        context: Some(ErrorContext::VerseIndexOverflow),
    }
}

/// The error for a metadata statement that reaches offset `j` (the end of
/// the input) without its newline terminator.
pub open spec fn newline_err(j: int, ln: int, llen: int) -> ErrV {
    ErrV {
        kind: ErrorKind::GrammarMismatch,
        line: ln as nat,
        col: (llen + 1) as nat,
        offset: j as nat,
        expected: seq![ExpectedToken::Newline],
        context: Some(ErrorContext::Metadata),
    }
}

/// The error for a line at offset `i` that is neither metadata nor a header
/// while no section is open.
pub open spec fn mismatch_err(i: int, ln: int) -> ErrV {
    ErrV {
        kind: ErrorKind::GrammarMismatch,
        line: ln as nat,
        col: 1,
        offset: i as nat,
        expected: seq![
            ExpectedToken::MetadataKey,
            ExpectedToken::SectionHeader,
            ExpectedToken::EndOfInput,
        ],
        context: None,
    }
}

/// The parse of `s` from character offset `i` on line `ln` with state `st`:
/// the mathematical reading of the whole grammar, one line per step.
pub open spec fn spec_parse_from(s: Seq<char>, i: int, ln: int, st: ParseSt) -> Result<
    DocV,
    ErrV,
>
    decreases s.len() - i
        when 0 <= i <= s.len()
        via spec_parse_from_dec
{
    if i == s.len() {
        Ok(finish(st))
    } else {
        let j = line_end(s, i);
        let l = s.subrange(i, j);
        let has_nl = j < s.len();
        let nxt = if has_nl { j + 1 } else { j };
        let ln2 = if has_nl { ln + 1 } else { ln };
        if is_header_shaped(l) {
            match header_of(l) {
                None => Err(overflow_err(i, ln)),
                Some(k) => spec_parse_from(s, nxt, ln2, open_section(st, k)),
            }
        } else if st.cur is Some {
            spec_parse_from(s, nxt, ln2, push_body_line(st, l))
        } else if is_title_line(l) {
            if has_nl {
                spec_parse_from(
                    s,
                    j + 1,
                    ln + 1,
                    ParseSt { title: Some(meta_value(title_rest(l))), ..st },
                )
            } else {
                Err(newline_err(j, ln, l.len() as int))
            }
        } else if is_artist_line(l) {
            if has_nl {
                spec_parse_from(
                    s,
                    j + 1,
                    ln + 1,
                    ParseSt { artist: Some(meta_value(artist_rest(l))), ..st },
                )
            } else {
                Err(newline_err(j, ln, l.len() as int))
            }
        } else {
            Err(mismatch_err(i, ln))
        }
    }
}

#[via_fn]
proof fn spec_parse_from_dec(s: Seq<char>, i: int, ln: int, st: ParseSt) {
    if 0 <= i <= s.len() && i < s.len() {
        lemma_line_end(s, i);
    }
}

/// The parse of the whole input: the contract every caller of
/// [`parse_lyrics`] gets.
pub open spec fn spec_parse(s: Seq<char>) -> Result<DocV, ErrV> {
    spec_parse_from(s, 0, 1, init_st())
}

/// The state the executable parser's variables denote.
pub open spec fn state_view(
    title: Option<String>,
    artist: Option<String>,
    done: Seq<Section>,
    cur_kind: Option<SectionKind>,
    cur_lines: Seq<String>,
) -> ParseSt {
    ParseSt {
        title: match title {
            Some(t) => Some(t@),
            None => None,
        },
        artist: match artist {
            Some(a) => Some(a@),
            None => None,
        },
        done: done.map_values(|s: Section| s@),
        cur: match cur_kind {
            Some(k) => Some(SectionV { kind: k@, lines: cur_lines.map_values(|l: String| l@) }),
            None => None,
        },
    }
}

impl LyricsParser {
    /// Parses `input` into a document, or reports a positioned error; see
    /// [`parse_lyrics`].
    ///
    /// The length bound is a machine limit, not a rule of the language: a
    /// Rust string always holds fewer than `usize::MAX` characters.
    pub fn parse(input: &str) -> (r: Result<LyricsDocument, ParseError>)
        requires
            input@.len() < usize::MAX,
        ensures
            (match r {
                Ok(d) => spec_parse(input@) == Ok::<DocV, ErrV>(d@),
                Err(e) => spec_parse(input@) == Err::<DocV, ErrV>(e@),
            }),
    {
        let v = str_to_chars(input);
        let n = v.len();
        let mut i: usize = 0;
        let mut ln: usize = 1;
        let mut title: Option<String> = None;
        let mut artist: Option<String> = None;
        let mut done: Vec<Section> = Vec::new();
        let mut cur_kind: Option<SectionKind> = None;
        let mut cur_lines: Vec<String> = Vec::new();
        proof {
            assert(state_view(title, artist, done@, cur_kind, cur_lines@) =~= init_st());
        }
        while i < n
            invariant
                v@ == input@,
                n == v.len(),
                input@.len() < usize::MAX,
                i <= n,
                ln <= i + 1,
                spec_parse(input@) == spec_parse_from(
                    input@,
                    i as int,
                    ln as int,
                    state_view(title, artist, done@, cur_kind, cur_lines@),
                ),
            decreases n - i,
        {
            let ghost st0 = state_view(title, artist, done@, cur_kind, cur_lines@);
            let j = find_line_end(&v, i);
            let line = copy_range(&v, i, j);
            let has_nl = j < n;
            proof {
                lemma_line_end(v@, i as int);
            }
            let ghost l = input@.subrange(i as int, j as int);
            proof {
                assert(line@ == l);
            }
            if is_header_line(&line) {
                match classify_chars(&line) {
                    None => {
                        // only a verse-shaped line with an overflowing index
                        // is header shaped yet denotes no kind
                        proof {
                            assert(is_verse_shaped(l));
                            assert(l.len() == j - i >= 8);
                        }
                        let e = ParseError {
                            kind: ErrorKind::NumericOverflow,
                            line: ln,
                            col: 7,
                            offset: i + 6,
                            expected: Vec::new(),
                            context: Some(ErrorContext::VerseIndexOverflow),
                        };
                        proof {
                            assert(e@.expected =~= Seq::<ExpectedToken>::empty());
                            assert(e@ =~= overflow_err(i as int, ln as int));
                        }
                        return Err(e);
                    },
                    Some(k) => {
                        let ghost kv = k@;
                        let prev_kind = cur_kind;
                        let prev_lines = cur_lines;
                        cur_kind = Some(k);
                        cur_lines = Vec::new();
                        match prev_kind {
                            Some(pk) => {
                                done.push(Section { kind: pk, lines: prev_lines });
                            },
                            None => {},
                        }
                        proof {
                            let st1 = state_view(title, artist, done@, cur_kind, cur_lines@);
                            assert(st1 =~= open_section(st0, kv));
                        }
                    },
                }
            } else if cur_kind.is_some() {
                let lstr = chars_to_string(&line);
                cur_lines.push(lstr);
                proof {
                    let st1 = state_view(title, artist, done@, cur_kind, cur_lines@);
                    assert(st1 =~= push_body_line(st0, l));
                }
            } else if is_title_prefixed(&line) {
                if has_nl {
                    let val = meta_value_of(&line, 6);
                    title = Some(chars_to_string(&val));
                    proof {
                        let st1 = state_view(title, artist, done@, cur_kind, cur_lines@);
                        assert(st1 =~= ParseSt { title: Some(meta_value(title_rest(l))), ..st0 });
                    }
                } else {
                    let mut exp: Vec<ExpectedToken> = Vec::new();
                    exp.push(ExpectedToken::Newline);
                    let e = ParseError {
                        kind: ErrorKind::GrammarMismatch,
                        line: ln,
                        col: line.len() + 1,
                        offset: j,
                        expected: exp,
                        context: Some(ErrorContext::Metadata),
                    };
                    proof {
                        assert(e@.expected =~= seq![ExpectedToken::Newline]);
                        assert(e@ =~= newline_err(j as int, ln as int, l.len() as int));
                    }
                    return Err(e);
                }
            } else if is_artist_prefixed(&line) {
                if has_nl {
                    let val = meta_value_of(&line, 7);
                    artist = Some(chars_to_string(&val));
                    proof {
                        let st1 = state_view(title, artist, done@, cur_kind, cur_lines@);
                        assert(st1 =~= ParseSt { artist: Some(meta_value(artist_rest(l))), ..st0 });
                    }
                } else {
                    let mut exp: Vec<ExpectedToken> = Vec::new();
                    exp.push(ExpectedToken::Newline);
                    let e = ParseError {
                        kind: ErrorKind::GrammarMismatch,
                        line: ln,
                        col: line.len() + 1,
                        offset: j,
                        expected: exp,
                        context: Some(ErrorContext::Metadata),
                    };
                    proof {
                        assert(e@.expected =~= seq![ExpectedToken::Newline]);
                        assert(e@ =~= newline_err(j as int, ln as int, l.len() as int));
                    }
                    return Err(e);
                }
            } else {
                let mut exp: Vec<ExpectedToken> = Vec::new();
                exp.push(ExpectedToken::MetadataKey);
                exp.push(ExpectedToken::SectionHeader);
                exp.push(ExpectedToken::EndOfInput);
                let e = ParseError {
                    kind: ErrorKind::GrammarMismatch,
                    line: ln,
                    col: 1,
                    offset: i,
                    expected: exp,
                    context: None,
                };
                proof {
                    assert(e@.expected =~= seq![
                        ExpectedToken::MetadataKey,
                        ExpectedToken::SectionHeader,
                        ExpectedToken::EndOfInput,
                    ]);
                    assert(e@ =~= mismatch_err(i as int, ln as int));
                }
                return Err(e);
            }
            if has_nl {
                i = j + 1;
                ln = ln + 1;
            } else {
                i = j;
            }
        }
        let ghost stf = state_view(title, artist, done@, cur_kind, cur_lines@);
        proof {
            assert(spec_parse(input@) == Ok::<DocV, ErrV>(finish(stf)));
        }
        let mut sections = done;
        match cur_kind {
            Some(k) => {
                sections.push(Section { kind: k, lines: cur_lines });
            },
            None => {},
        }
        let doc = LyricsDocument { title, artist, sections };
        proof {
            assert(doc@ =~= finish(stf));
        }
        Ok(doc)
    }
}

/// Parses raw lyrics text into a [`LyricsDocument`], or reports a
/// positioned [`ParseError`]. Parsing is all or nothing: a malformed input
/// never yields a partial document, and an accepted input yields exactly
/// the document [`spec_parse`] reads from it.
pub fn parse_lyrics(input: &str) -> (r: Result<LyricsDocument, ParseError>)
    requires
        input@.len() < usize::MAX,
    ensures
        (match r {
            Ok(d) => spec_parse(input@) == Ok::<DocV, ErrV>(d@),
            Err(e) => spec_parse(input@) == Err::<DocV, ErrV>(e@),
        }),
{
    LyricsParser::parse(input)
}

/// An error reported by the parse from offset `i` onward lies at or after
/// `i`: the parser never points at text it has already consumed.
pub proof fn lemma_err_offset_at_least(s: Seq<char>, i: int, ln: int, st: ParseSt)
    requires
        0 <= i <= s.len(),
        spec_parse_from(s, i, ln, st) is Err,
    ensures
        (match spec_parse_from(s, i, ln, st) {
            Err(e) => e.offset >= i,
            Ok(_) => true,
        }),
    decreases s.len() - i,
{
    if i < s.len() {
        lemma_line_end(s, i);
        let j = line_end(s, i);
        let l = s.subrange(i, j);
        let has_nl = j < s.len();
        let nxt = if has_nl { j + 1 } else { j };
        let ln2 = if has_nl { ln + 1 } else { ln };
        if is_header_shaped(l) {
            match header_of(l) {
                None => {},
                Some(k) => {
                    lemma_err_offset_at_least(s, nxt, ln2, open_section(st, k));
                },
            }
        } else if st.cur is Some {
            lemma_err_offset_at_least(s, nxt, ln2, push_body_line(st, l));
        } else if is_title_line(l) {
            if has_nl {
                lemma_err_offset_at_least(
                    s,
                    j + 1,
                    ln + 1,
                    ParseSt { title: Some(meta_value(title_rest(l))), ..st },
                );
            }
        } else if is_artist_line(l) {
            if has_nl {
                lemma_err_offset_at_least(
                    s,
                    j + 1,
                    ln + 1,
                    ParseSt { artist: Some(meta_value(artist_rest(l))), ..st },
                );
            }
        }
    }
}

proof fn lemma_monotone_from(s: Seq<char>, p: Seq<char>, i: int, ln: int, st: ParseSt)
    requires
        0 <= i <= p.len() <= s.len(),
        s.subrange(0, p.len() as int) == p,
        p.len() > 0 ==> p[p.len() - 1] == '\n',
        spec_parse_from(p, i, ln, st) is Ok,
        spec_parse_from(s, i, ln, st) is Err,
    ensures
        (match spec_parse_from(s, i, ln, st) {
            Err(e) => e.offset >= p.len(),
            Ok(_) => true,
        }),
    decreases p.len() - i,
{
    assert forall|k: int| 0 <= k < p.len() implies s[k] == p[k] by {
        assert(p[k] == s.subrange(0, p.len() as int)[k]);
    }
    if i == p.len() {
        lemma_err_offset_at_least(s, i, ln, st);
    } else {
        lemma_line_end(p, i);
        let jp = line_end(p, i);
        if jp == p.len() {
            assert(p[p.len() - 1] != '\n');
        }
        assert(jp < p.len());
        lemma_line_end_agrees(s, p, i);
        assert(line_end(s, i) == jp);
        let l = p.subrange(i, jp);
        assert(s.subrange(i, jp) =~= l);
        if is_header_shaped(l) {
            match header_of(l) {
                None => {},
                Some(k) => {
                    lemma_monotone_from(s, p, jp + 1, ln + 1, open_section(st, k));
                },
            }
        } else if st.cur is Some {
            lemma_monotone_from(s, p, jp + 1, ln + 1, push_body_line(st, l));
        } else if is_title_line(l) {
            lemma_monotone_from(
                s,
                p,
                jp + 1,
                ln + 1,
                ParseSt { title: Some(meta_value(title_rest(l))), ..st },
            );
        } else if is_artist_line(l) {
            lemma_monotone_from(
                s,
                p,
                jp + 1,
                ln + 1,
                ParseSt { artist: Some(meta_value(artist_rest(l))), ..st },
            );
        }
    }
}

/// Error positions are furthest-failure: when an input extends a valid,
/// newline-terminated prefix and the whole input fails to parse, the
/// reported error offset lies at or beyond that prefix. The parser never
/// blames text that an earlier, successful alternative already consumed.
pub proof fn lemma_error_position_monotone(s: Seq<char>, p: Seq<char>)
    requires
        p.len() <= s.len(),
        s.subrange(0, p.len() as int) == p,
        p.len() > 0 ==> p[p.len() - 1] == '\n',
        spec_parse(p) is Ok,
        spec_parse(s) is Err,
    ensures
        (match spec_parse(s) {
            Err(e) => e.offset >= p.len(),
            Ok(_) => true,
        }),
{
    lemma_monotone_from(s, p, 0, 1, init_st());
}

/// The empty input is a valid song: it parses to the document with no
/// metadata and no sections.
pub proof fn lemma_empty_input_valid()
    ensures
        spec_parse(Seq::<char>::empty()) == Ok::<DocV, ErrV>(empty_doc()),
{
    assert(finish(init_st()) =~= empty_doc());
}

} // verus!
