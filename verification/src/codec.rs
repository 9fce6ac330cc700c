//! A textual interchange format for parsed documents, with a proved round
//! trip.
//!
//! The format is sequential and length-prefixed, so no escaping is needed
//! and every value round-trips exactly. A document is written as
//! `title <opt>artist <opt>sections <n>\n<section>*`, where an optional
//! value is `none\n` or `some <str>`, a string is `<len>:<chars>\n`, and a
//! section is `kind <kind>lines <m>\n<str>*` with `<kind>` one of
//! `verse index <n>\n`, `chorus\n`, `bridge\n`, or `custom <str>`.

use vstd::prelude::*;

use crate::ast::{
    DocV, ErrorKind, LyricsDocument, ParseError, Section, SectionKind, SectionKindV, SectionV,
};
use crate::numbers::{
    dec_digits, digit_check, digits_val, is_digit, lemma_dec_digits_is_digit_run,
    lemma_digits_val_of_dec, parse_digits_bounded, render_decimal,
};
use crate::text::{chars_to_string, copy_range, str_to_chars};

verus! {

// ---------------------------------------------------------------------------
// the format's literal tags
// ---------------------------------------------------------------------------

pub open spec fn lit_title() -> Seq<char> {
    seq!['t', 'i', 't', 'l', 'e', ' ']
}

pub open spec fn lit_artist() -> Seq<char> {
    seq!['a', 'r', 't', 'i', 's', 't', ' ']
}

pub open spec fn lit_sections() -> Seq<char> {
    seq!['s', 'e', 'c', 't', 'i', 'o', 'n', 's', ' ']
}

pub open spec fn lit_none() -> Seq<char> {
    seq!['n', 'o', 'n', 'e', '\n']
}

pub open spec fn lit_some() -> Seq<char> {
    seq!['s', 'o', 'm', 'e', ' ']
}

pub open spec fn lit_kind() -> Seq<char> {
    seq!['k', 'i', 'n', 'd', ' ']
}

pub open spec fn lit_verse() -> Seq<char> {
    seq!['v', 'e', 'r', 's', 'e', ' ', 'i', 'n', 'd', 'e', 'x', ' ']
}

pub open spec fn lit_chorus() -> Seq<char> {
    seq!['c', 'h', 'o', 'r', 'u', 's', '\n']
}

pub open spec fn lit_bridge() -> Seq<char> {
    seq!['b', 'r', 'i', 'd', 'g', 'e', '\n']
}

pub open spec fn lit_custom() -> Seq<char> {
    seq!['c', 'u', 's', 't', 'o', 'm', ' ']
}

pub open spec fn lit_lines() -> Seq<char> {
    seq!['l', 'i', 'n', 'e', 's', ' ']
}

// ---------------------------------------------------------------------------
// encoding
// ---------------------------------------------------------------------------

/// A length-prefixed string: `<len>:<chars>\n`.
pub open spec fn enc_str(p: Seq<char>) -> Seq<char> {
    dec_digits(p.len()) + seq![':'] + p + seq!['\n']
}

/// An optional string: `none\n` or `some <str>`.
pub open spec fn enc_opt(o: Option<Seq<char>>) -> Seq<char> {
    match o {
        None => lit_none(),
        Some(p) => lit_some() + enc_str(p),
    }
}

/// A section kind: `verse index <n>\n`, `chorus\n`, `bridge\n`, or
/// `custom <str>`.
pub open spec fn enc_kind(k: SectionKindV) -> Seq<char> {
    match k {
        SectionKindV::Verse(n) => lit_verse() + dec_digits(n as nat) + seq!['\n'],
        SectionKindV::Chorus => lit_chorus(),
        SectionKindV::Bridge => lit_bridge(),
        SectionKindV::Custom(lbl) => lit_custom() + enc_str(lbl),
    }
}

/// The body lines of a section, one length-prefixed string each.
pub open spec fn enc_lines(ls: Seq<Seq<char>>) -> Seq<char>
    decreases ls.len(),
{
    if ls.len() == 0 {
        Seq::empty()
    } else {
        enc_str(ls[0]) + enc_lines(ls.drop_first())
    }
}

/// One section: `kind <kind>lines <m>\n<str>*`.
pub open spec fn enc_section(sec: SectionV) -> Seq<char> {
    lit_kind() + enc_kind(sec.kind) + lit_lines() + dec_digits(sec.lines.len()) + seq!['\n']
        + enc_lines(sec.lines)
}

/// All sections, in order.
pub open spec fn enc_sections(ss: Seq<SectionV>) -> Seq<char>
    decreases ss.len(),
{
    if ss.len() == 0 {
        Seq::empty()
    } else {
        enc_section(ss[0]) + enc_sections(ss.drop_first())
    }
}

/// The serialized form of a document.
pub open spec fn ser_doc(d: DocV) -> Seq<char> {
    lit_title() + enc_opt(d.title) + lit_artist() + enc_opt(d.artist) + lit_sections()
        + dec_digits(d.sections.len()) + seq!['\n'] + enc_sections(d.sections)
}

/// Appending one more line extends the encoding on the right.
pub proof fn lemma_enc_lines_snoc(ls: Seq<Seq<char>>, x: Seq<char>)
    ensures
        enc_lines(ls.push(x)) == enc_lines(ls) + enc_str(x),
    decreases ls.len(),
{
    if ls.len() == 0 {
        assert(ls.push(x)[0] == x);
        assert(ls.push(x).drop_first() =~= Seq::<Seq<char>>::empty());
        assert(enc_lines(Seq::<Seq<char>>::empty()) == Seq::<char>::empty());
        assert(enc_lines(ls.push(x)) =~= enc_str(x) + Seq::<char>::empty());
        assert(enc_str(x) + Seq::<char>::empty() =~= enc_str(x));
        assert(enc_lines(ls) + enc_str(x) =~= enc_str(x));
    } else {
        assert(ls.push(x).drop_first() =~= ls.drop_first().push(x));
        lemma_enc_lines_snoc(ls.drop_first(), x);
        assert(ls.push(x)[0] == ls[0]);
        assert(enc_lines(ls.push(x)) == enc_str(ls[0]) + (enc_lines(ls.drop_first()) + enc_str(
            x,
        )));
        assert(enc_str(ls[0]) + (enc_lines(ls.drop_first()) + enc_str(x)) =~= (enc_str(ls[0])
            + enc_lines(ls.drop_first())) + enc_str(x));
    }
}

/// Appending one more section extends the encoding on the right.
pub proof fn lemma_enc_sections_snoc(ss: Seq<SectionV>, x: SectionV)
    ensures
        enc_sections(ss.push(x)) == enc_sections(ss) + enc_section(x),
    decreases ss.len(),
{
    if ss.len() == 0 {
        assert(ss.push(x)[0] == x);
        assert(ss.push(x).drop_first() =~= Seq::<SectionV>::empty());
        assert(enc_sections(Seq::<SectionV>::empty()) == Seq::<char>::empty());
        assert(enc_sections(ss.push(x)) =~= enc_section(x) + Seq::<char>::empty());
        assert(enc_section(x) + Seq::<char>::empty() =~= enc_section(x));
        assert(enc_sections(ss) + enc_section(x) =~= enc_section(x));
    } else {
        assert(ss.push(x).drop_first() =~= ss.drop_first().push(x));
        lemma_enc_sections_snoc(ss.drop_first(), x);
        assert(ss.push(x)[0] == ss[0]);
        assert(enc_sections(ss.push(x)) == enc_section(ss[0]) + (enc_sections(ss.drop_first())
            + enc_section(x)));
        assert(enc_section(ss[0]) + (enc_sections(ss.drop_first()) + enc_section(x)) =~= (
        enc_section(ss[0]) + enc_sections(ss.drop_first())) + enc_section(x));
    }
}

// ---------------------------------------------------------------------------
// decoding
// ---------------------------------------------------------------------------

/// The position of the first non-digit at or after `i`, or the length of
/// `s`.
pub open spec fn digit_end(s: Seq<char>, i: int) -> int
    decreases s.len() - i when 0 <= i <= s.len()
{
    if i >= s.len() {
        s.len() as int
    } else if is_digit(s[i]) {
        digit_end(s, i + 1)
    } else {
        i
    }
}

/// Basic facts about [`digit_end`].
pub proof fn lemma_digit_end(s: Seq<char>, i: int)
    requires
        0 <= i <= s.len(),
    ensures
        i <= digit_end(s, i) <= s.len(),
        forall|k: int| i <= k < digit_end(s, i) ==> is_digit(#[trigger] s[k]),
        digit_end(s, i) < s.len() ==> !is_digit(s[digit_end(s, i)]),
    decreases s.len() - i,
{
    if i < s.len() && is_digit(s[i]) {
        lemma_digit_end(s, i + 1);
    }
}

/// [`digit_end`] is determined by any witness position: if everything
/// before `e` is a digit and `e` is not, the run ends at `e`.
pub proof fn lemma_digit_end_determined(s: Seq<char>, i: int, e: int)
    requires
        0 <= i <= e <= s.len(),
        forall|k: int| i <= k < e ==> is_digit(#[trigger] s[k]),
        e < s.len() ==> !is_digit(s[e]),
    ensures
        digit_end(s, i) == e,
    decreases e - i,
{
    if i < e {
        lemma_digit_end_determined(s, i + 1, e);
    } else {
        if i < s.len() {
            assert(!is_digit(s[i]));
        }
    }
}

/// Reads a decimal number: its value and the position after its digits.
pub open spec fn rd_num(s: Seq<char>, i: int) -> Option<(nat, int)> {
    let e = digit_end(s, i);
    if e == i {
        None
    } else {
        Some((digits_val(s.subrange(i, e)), e))
    }
}

/// Reads an exact literal: the position after it.
pub open spec fn rd_lit(s: Seq<char>, i: int, w: Seq<char>) -> Option<int> {
    if i + w.len() <= s.len() && s.subrange(i, i + w.len() as int) == w {
        Some(i + w.len() as int)
    } else {
        None
    }
}

/// Reads a length-prefixed string.
pub open spec fn rd_str(s: Seq<char>, i: int) -> Option<(Seq<char>, int)> {
    match rd_num(s, i) {
        None => None,
        Some((n, j)) => if j < s.len() && s[j] == ':' {
            let k = j + 1;
            if k + n + 1 <= s.len() && s[k + n] == '\n' {
                Some((s.subrange(k, k + n as int), k + n + 1))
            } else {
                None
            }
        } else {
            None
        },
    }
}

/// Reads an optional string.
pub open spec fn rd_opt(s: Seq<char>, i: int) -> Option<(Option<Seq<char>>, int)> {
    match rd_lit(s, i, lit_none()) {
        Some(j) => Some((None, j)),
        None => match rd_lit(s, i, lit_some()) {
            None => None,
            Some(j) => match rd_str(s, j) {
                None => None,
                Some((p, k)) => Some((Some(p), k)),
            },
        },
    }
}

/// Reads a section kind.
pub open spec fn rd_kind(s: Seq<char>, i: int) -> Option<(SectionKindV, int)> {
    match rd_lit(s, i, lit_verse()) {
        Some(j) => match rd_num(s, j) {
            None => None,
            Some((n, e)) => if n <= u32::MAX && e < s.len() && s[e] == '\n' {
                Some((SectionKindV::Verse(n as u32), e + 1))
            } else {
                None
            },
        },
        None => match rd_lit(s, i, lit_chorus()) {
            Some(j) => Some((SectionKindV::Chorus, j)),
            None => match rd_lit(s, i, lit_bridge()) {
                Some(j) => Some((SectionKindV::Bridge, j)),
                None => match rd_lit(s, i, lit_custom()) {
                    None => None,
                    Some(j) => match rd_str(s, j) {
                        None => None,
                        Some((p, k)) => Some((SectionKindV::Custom(p), k)),
                    },
                },
            },
        },
    }
}

/// Reads `m` length-prefixed strings, appending them to `acc`.
pub open spec fn rd_lines(s: Seq<char>, i: int, m: nat, acc: Seq<Seq<char>>) -> Option<
    (Seq<Seq<char>>, int),
>
    decreases m,
{
    if m == 0 {
        Some((acc, i))
    } else {
        match rd_str(s, i) {
            None => None,
            Some((p, j)) => rd_lines(s, j, (m - 1) as nat, acc.push(p)),
        }
    }
}

/// Reads one section.
pub open spec fn rd_section(s: Seq<char>, i: int) -> Option<(SectionV, int)> {
    match rd_lit(s, i, lit_kind()) {
        None => None,
        Some(j) => match rd_kind(s, j) {
            None => None,
            Some((k, j2)) => match rd_lit(s, j2, lit_lines()) {
                None => None,
                Some(j3) => match rd_num(s, j3) {
                    None => None,
                    Some((m, j4)) => if j4 < s.len() && s[j4] == '\n' {
                        match rd_lines(s, j4 + 1, m, Seq::empty()) {
                            None => None,
                            Some((ls, j5)) => Some((SectionV { kind: k, lines: ls }, j5)),
                        }
                    } else {
                        None
                    },
                },
            },
        },
    }
}

/// Reads `n` sections, appending them to `acc`.
pub open spec fn rd_sections(s: Seq<char>, i: int, n: nat, acc: Seq<SectionV>) -> Option<
    (Seq<SectionV>, int),
>
    decreases n,
{
    if n == 0 {
        Some((acc, i))
    } else {
        match rd_section(s, i) {
            None => None,
            Some((sec, j)) => rd_sections(s, j, (n - 1) as nat, acc.push(sec)),
        }
    }
}

/// Reads a whole document.
pub open spec fn rd_doc(s: Seq<char>, i: int) -> Option<(DocV, int)> {
    match rd_lit(s, i, lit_title()) {
        None => None,
        Some(j) => match rd_opt(s, j) {
            None => None,
            Some((title, j2)) => match rd_lit(s, j2, lit_artist()) {
                None => None,
                Some(j3) => match rd_opt(s, j3) {
                    None => None,
                    Some((artist, j4)) => match rd_lit(s, j4, lit_sections()) {
                        None => None,
                        Some(j5) => match rd_num(s, j5) {
                            None => None,
                            Some((n, j6)) => if j6 < s.len() && s[j6] == '\n' {
                                match rd_sections(s, j6 + 1, n, Seq::empty()) {
                                    None => None,
                                    Some((ss, j7)) => Some(
                                        (DocV { title, artist, sections: ss }, j7),
                                    ),
                                }
                            } else {
                                None
                            },
                        },
                    },
                },
            },
        },
    }
}

/// The document a serialized text denotes: a full-input parse of the
/// interchange format.
pub open spec fn spec_deser(s: Seq<char>) -> Option<DocV> {
    match rd_doc(s, 0) {
        None => None,
        Some((d, j)) => if j == s.len() {
            Some(d)
        } else {
            None
        },
    }
}

// ---------------------------------------------------------------------------
// decoding inverts encoding
// ---------------------------------------------------------------------------

/// Does the text `w` sit in `s` at position `i`?
pub open spec fn slice_at(s: Seq<char>, i: int, w: Seq<char>) -> bool {
    &&& 0 <= i
    &&& i + w.len() <= s.len()
    &&& s.subrange(i, i + w.len() as int) == w
}

/// A slice of a concatenation splits into slices of its parts.
proof fn lemma_split_at(s: Seq<char>, i: int, a: Seq<char>, b: Seq<char>)
    requires
        slice_at(s, i, a + b),
    ensures
        slice_at(s, i, a),
        slice_at(s, i + a.len(), b),
{
    let ab = a + b;
    assert forall|k: int| 0 <= k < ab.len() implies s[i + k] == ab[k] by {
        assert(s.subrange(i, i + ab.len() as int)[k] == s[i + k]);
    }
    assert forall|k: int| 0 <= k < a.len() implies s.subrange(i, i + a.len() as int)[k] == a[k] by {
        assert(s[i + k] == ab[k]);
        assert(ab[k] == a[k]);
    }
    assert(s.subrange(i, i + a.len() as int) =~= a);
    assert forall|k: int| 0 <= k < b.len() implies s.subrange(
        i + a.len(),
        i + a.len() + b.len() as int,
    )[k] == b[k] by {
        assert(s[i + a.len() + k] == ab[a.len() + k]);
        assert(ab[a.len() + k] == b[k]);
    }
    assert(s.subrange(i + a.len(), i + a.len() + b.len() as int) =~= b);
}

proof fn lemma_rd_num_at(s: Seq<char>, i: int, n: nat)
    requires
        slice_at(s, i, dec_digits(n)),
        i + dec_digits(n).len() < s.len(),
        !is_digit(s[i + dec_digits(n).len() as int]),
    ensures
        rd_num(s, i) == Some((n, i + dec_digits(n).len() as int)),
{
    lemma_dec_digits_is_digit_run(n);
    let d = dec_digits(n);
    let e = i + d.len() as int;
    assert forall|k: int| i <= k < e implies is_digit(#[trigger] s[k]) by {
        assert(s.subrange(i, e)[k - i] == s[k]);
        assert(d[k - i] == s.subrange(i, e)[k - i]);
    }
    lemma_digit_end_determined(s, i, e);
    lemma_digits_val_of_dec(n);
    assert(d.len() >= 1);
}

proof fn lemma_rd_str_at(s: Seq<char>, i: int, p: Seq<char>)
    requires
        slice_at(s, i, enc_str(p)),
    ensures
        rd_str(s, i) == Some((p, i + enc_str(p).len() as int)),
{
    let d = dec_digits(p.len());
    lemma_split_at(s, i, d + seq![':'] + p, seq!['\n']);
    lemma_split_at(s, i, d + seq![':'], p);
    lemma_split_at(s, i, d, seq![':']);
    let e = i + d.len() as int;
    assert(s.subrange(e, e + 1)[0] == s[e]);
    assert(s[e] == ':');
    assert(!is_digit(':'));
    lemma_rd_num_at(s, i, p.len());
    let k = e + 1;
    assert(s.subrange(k + p.len(), k + p.len() + 1 as int)[0] == s[k + p.len() as int]);
    assert(s[k + p.len() as int] == '\n');
    assert(s.subrange(k, k + p.len() as int) == p);
}

proof fn lemma_rd_opt_at(s: Seq<char>, i: int, o: Option<Seq<char>>)
    requires
        slice_at(s, i, enc_opt(o)),
    ensures
        rd_opt(s, i) == Some((o, i + enc_opt(o).len() as int)),
{
    match o {
        None => {
        },
        Some(p) => {
            lemma_split_at(s, i, lit_some(), enc_str(p));
            assert(s.subrange(i, i + 5)[0] == s[i]);
            assert(s[i] == 's');
            if rd_lit(s, i, lit_none()) is Some {
                assert(s.subrange(i, i + 5) == lit_none());
                assert(s[i] == 'n');
                assert(false);
            }
            lemma_rd_str_at(s, i + 5, p);
        },
    }
}

proof fn lemma_rd_kind_at(s: Seq<char>, i: int, k: SectionKindV)
    requires
        slice_at(s, i, enc_kind(k)),
    ensures
        rd_kind(s, i) == Some((k, i + enc_kind(k).len() as int)),
{
    match k {
        SectionKindV::Verse(n) => {
            lemma_split_at(s, i, lit_verse() + dec_digits(n as nat), seq!['\n']);
            lemma_split_at(s, i, lit_verse(), dec_digits(n as nat));
            let e = i + 12 + dec_digits(n as nat).len() as int;
            assert(s.subrange(e, e + 1)[0] == s[e]);
            assert(s[e] == '\n');
            assert(!is_digit('\n'));
            lemma_rd_num_at(s, i + 12, n as nat);
        },
        SectionKindV::Chorus => {
            assert(s.subrange(i, i + 7)[0] == s[i]);
            assert(s[i] == 'c');
            if rd_lit(s, i, lit_verse()) is Some {
                assert(s.subrange(i, i + 12)[0] == s[i]);
                assert(s[i] == 'v');
                assert(false);
            }
        },
        SectionKindV::Bridge => {
            assert(s.subrange(i, i + 7)[0] == s[i]);
            assert(s[i] == 'b');
            if rd_lit(s, i, lit_verse()) is Some {
                assert(s.subrange(i, i + 12)[0] == s[i]);
                assert(false);
            }
            if rd_lit(s, i, lit_chorus()) is Some {
                assert(s.subrange(i, i + 7)[0] == s[i]);
                assert(false);
            }
        },
        SectionKindV::Custom(p) => {
            lemma_split_at(s, i, lit_custom(), enc_str(p));
            assert(s.subrange(i, i + 7)[0] == s[i]);
            assert(s.subrange(i, i + 7)[1] == s[i + 1]);
            assert(s[i] == 'c');
            assert(s[i + 1] == 'u');
            if rd_lit(s, i, lit_verse()) is Some {
                assert(s.subrange(i, i + 12)[0] == s[i]);
                assert(false);
            }
            if rd_lit(s, i, lit_chorus()) is Some {
                assert(s.subrange(i, i + 7)[1] == s[i + 1]);
                assert(s[i + 1] == 'h');
                assert(false);
            }
            if rd_lit(s, i, lit_bridge()) is Some {
                assert(s.subrange(i, i + 7)[0] == s[i]);
                assert(false);
            }
            lemma_rd_str_at(s, i + 7, p);
        },
    }
}

proof fn lemma_rd_lines_at(s: Seq<char>, i: int, ls: Seq<Seq<char>>, acc: Seq<Seq<char>>)
    requires
        slice_at(s, i, enc_lines(ls)),
    ensures
        rd_lines(s, i, ls.len(), acc) == Some((acc + ls, i + enc_lines(ls).len() as int)),
    decreases ls.len(),
{
    if ls.len() == 0 {
        assert(acc + ls =~= acc);
    } else {
        lemma_split_at(s, i, enc_str(ls[0]), enc_lines(ls.drop_first()));
        lemma_rd_str_at(s, i, ls[0]);
        lemma_rd_lines_at(s, i + enc_str(ls[0]).len(), ls.drop_first(), acc.push(ls[0]));
        assert(acc.push(ls[0]) + ls.drop_first() =~= acc + ls);
    }
}

proof fn lemma_rd_section_at(s: Seq<char>, i: int, sec: SectionV)
    requires
        slice_at(s, i, enc_section(sec)),
    ensures
        rd_section(s, i) == Some((sec, i + enc_section(sec).len() as int)),
{
    let dk = enc_kind(sec.kind);
    let dm = dec_digits(sec.lines.len());
    lemma_split_at(
        s,
        i,
        lit_kind() + dk + lit_lines() + dm + seq!['\n'],
        enc_lines(sec.lines),
    );
    lemma_split_at(s, i, lit_kind() + dk + lit_lines() + dm, seq!['\n']);
    lemma_split_at(s, i, lit_kind() + dk + lit_lines(), dm);
    lemma_split_at(s, i, lit_kind() + dk, lit_lines());
    lemma_split_at(s, i, lit_kind(), dk);
    lemma_rd_kind_at(s, i + 5, sec.kind);
    let j3 = i + 5 + dk.len() + lit_lines().len() as int;
    let j4 = j3 + dm.len() as int;
    assert(s.subrange(j4, j4 + 1)[0] == s[j4]);
    assert(s[j4] == '\n');
    assert(!is_digit('\n'));
    lemma_rd_num_at(s, j3, sec.lines.len());
    lemma_rd_lines_at(s, j4 + 1, sec.lines, Seq::empty());
    assert(Seq::<Seq<char>>::empty() + sec.lines =~= sec.lines);
    assert(SectionV { kind: sec.kind, lines: sec.lines } =~= sec);
}

proof fn lemma_rd_sections_at(s: Seq<char>, i: int, ss: Seq<SectionV>, acc: Seq<SectionV>)
    requires
        slice_at(s, i, enc_sections(ss)),
    ensures
        rd_sections(s, i, ss.len(), acc) == Some((acc + ss, i + enc_sections(ss).len() as int)),
    decreases ss.len(),
{
    if ss.len() == 0 {
        assert(acc + ss =~= acc);
    } else {
        lemma_split_at(s, i, enc_section(ss[0]), enc_sections(ss.drop_first()));
        lemma_rd_section_at(s, i, ss[0]);
        lemma_rd_sections_at(s, i + enc_section(ss[0]).len(), ss.drop_first(), acc.push(ss[0]));
        assert(acc.push(ss[0]) + ss.drop_first() =~= acc + ss);
    }
}

/// Serialization round trip: the serialized text of any document
/// deserializes back to exactly that document.
#[verifier::rlimit(100)]
pub proof fn lemma_serialization_round_trip(d: DocV)
    ensures
        spec_deser(ser_doc(d)) == Some(d),
{
    let s = ser_doc(d);
    let dn = dec_digits(d.sections.len());
    assert(s.subrange(0, s.len() as int) =~= s);
    assert(slice_at(s, 0, ser_doc(d)));
    lemma_split_at(
        s,
        0,
        lit_title() + enc_opt(d.title) + lit_artist() + enc_opt(d.artist) + lit_sections() + dn
            + seq!['\n'],
        enc_sections(d.sections),
    );
    lemma_split_at(
        s,
        0,
        lit_title() + enc_opt(d.title) + lit_artist() + enc_opt(d.artist) + lit_sections() + dn,
        seq!['\n'],
    );
    lemma_split_at(
        s,
        0,
        lit_title() + enc_opt(d.title) + lit_artist() + enc_opt(d.artist) + lit_sections(),
        dn,
    );
    lemma_split_at(
        s,
        0,
        lit_title() + enc_opt(d.title) + lit_artist() + enc_opt(d.artist),
        lit_sections(),
    );
    lemma_split_at(s, 0, lit_title() + enc_opt(d.title) + lit_artist(), enc_opt(d.artist));
    lemma_split_at(s, 0, lit_title() + enc_opt(d.title), lit_artist());
    lemma_split_at(s, 0, lit_title(), enc_opt(d.title));
    lemma_rd_opt_at(s, 6, d.title);
    let j3 = 6 + enc_opt(d.title).len() + lit_artist().len() as int;
    lemma_rd_opt_at(s, j3, d.artist);
    let j5 = j3 + enc_opt(d.artist).len() + lit_sections().len() as int;
    let j6 = j5 + dn.len() as int;
    assert(s.subrange(j6, j6 + 1)[0] == s[j6]);
    assert(s[j6] == '\n');
    assert(!is_digit('\n'));
    lemma_rd_num_at(s, j5, d.sections.len());
    lemma_rd_sections_at(s, j6 + 1, d.sections, Seq::empty());
    assert(Seq::<SectionV>::empty() + d.sections =~= d.sections);
    assert(DocV { title: d.title, artist: d.artist, sections: d.sections } =~= d);
}

// ---------------------------------------------------------------------------
// the executable serializer
// ---------------------------------------------------------------------------

/// Appends the characters of `w` to `out`.
fn push_str_chars(out: &mut Vec<char>, w: &str)
    ensures
        final(out)@ == old(out)@ + w@,
{
    let n = w.unicode_len();
    proof {
        assert(old(out)@ + w@.subrange(0, 0) =~= old(out)@);
    }
    let mut k: usize = 0;
    while k < n
        invariant
            n == w@.len(),
            k <= n,
            out@ == old(out)@ + w@.subrange(0, k as int),
        decreases n - k,
    {
        out.push(w.get_char(k));
        proof {
            assert(old(out)@ + w@.subrange(0, k + 1 as int) =~= (old(out)@ + w@.subrange(
                0,
                k as int,
            )).push(w@[k as int]));
        }
        k = k + 1;
    }
    proof {
        assert(w@.subrange(0, n as int) =~= w@);
    }
}

/// Appends the characters of `w` to `out`.
fn push_char_vec(out: &mut Vec<char>, w: &Vec<char>)
    ensures
        final(out)@ == old(out)@ + w@,
{
    proof {
        assert(old(out)@ + w@.subrange(0, 0) =~= old(out)@);
    }
    let mut k: usize = 0;
    while k < w.len()
        invariant
            k <= w.len(),
            out@ == old(out)@ + w@.subrange(0, k as int),
        decreases w.len() - k,
    {
        out.push(w[k]);
        proof {
            assert(old(out)@ + w@.subrange(0, k + 1 as int) =~= (old(out)@ + w@.subrange(
                0,
                k as int,
            )).push(w@[k as int]));
        }
        k = k + 1;
    }
    proof {
        assert(w@.subrange(0, w@.len() as int) =~= w@);
    }
}

/// Appends the length-prefixed encoding of `p`.
fn push_enc_str(out: &mut Vec<char>, p: &str)
    ensures
        final(out)@ == old(out)@ + enc_str(p@),
{
    let n = p.unicode_len();
    let digs = render_decimal(n);
    push_char_vec(out, &digs);
    out.push(':');
    push_str_chars(out, p);
    out.push('\n');
    proof {
        assert(out@ =~= old(out)@ + enc_str(p@));
    }
}

/// Appends the encoding of an optional string.
fn push_opt(out: &mut Vec<char>, o: &Option<String>)
    ensures
        final(out)@ == old(out)@ + enc_opt(
            match o {
                Some(t) => Some(t@),
                None => None,
            },
        ),
{
    match o {
        None => {
            push_str_chars(out, "none\n");
            proof {
                reveal_strlit("none\n");
                assert("none\n"@ =~= lit_none());
            }
        },
        Some(t) => {
            push_str_chars(out, "some ");
            push_enc_str(out, t.as_str());
            proof {
                reveal_strlit("some ");
                assert("some "@ =~= lit_some());
                assert(out@ =~= old(out)@ + (lit_some() + enc_str(t@)));
            }
        },
    }
}

/// Appends the encoding of a section kind.
fn push_kind(out: &mut Vec<char>, k: &SectionKind)
    ensures
        final(out)@ == old(out)@ + enc_kind(k@),
{
    match k {
        SectionKind::Verse(n) => {
            push_str_chars(out, "verse index ");
            let digs = render_decimal(*n as usize);
            push_char_vec(out, &digs);
            out.push('\n');
            proof {
                reveal_strlit("verse index ");
                assert("verse index "@ =~= lit_verse());
                assert(out@ =~= old(out)@ + (lit_verse() + dec_digits(*n as nat) + seq!['\n']));
            }
        },
        SectionKind::Chorus => {
            push_str_chars(out, "chorus\n");
            proof {
                reveal_strlit("chorus\n");
                assert("chorus\n"@ =~= lit_chorus());
            }
        },
        SectionKind::Bridge => {
            push_str_chars(out, "bridge\n");
            proof {
                reveal_strlit("bridge\n");
                assert("bridge\n"@ =~= lit_bridge());
            }
        },
        SectionKind::Custom(lbl) => {
            push_str_chars(out, "custom ");
            push_enc_str(out, lbl.as_str());
            proof {
                reveal_strlit("custom ");
                assert("custom "@ =~= lit_custom());
                assert(out@ =~= old(out)@ + (lit_custom() + enc_str(lbl@)));
            }
        },
    }
}

/// Appends the encoding of one section.
fn push_section(out: &mut Vec<char>, sec: &Section)
    ensures
        final(out)@ == old(out)@ + enc_section(sec@),
{
    push_str_chars(out, "kind ");
    push_kind(out, &sec.kind);
    push_str_chars(out, "lines ");
    let digs = render_decimal(sec.lines.len());
    push_char_vec(out, &digs);
    out.push('\n');
    let ghost base = out@;
    proof {
        reveal_strlit("kind ");
        reveal_strlit("lines ");
        assert("kind "@ =~= lit_kind());
        assert("lines "@ =~= lit_lines());
        assert(base =~= old(out)@ + (lit_kind() + enc_kind(sec@.kind) + lit_lines() + dec_digits(
            sec@.lines.len(),
        ) + seq!['\n']));
        assert(enc_lines(sec@.lines.subrange(0, 0)) == Seq::<char>::empty());
        assert(base + Seq::<char>::empty() =~= base);
    }
    let mut k: usize = 0;
    while k < sec.lines.len()
        invariant
            k <= sec.lines.len(),
            sec@.lines.len() == sec.lines.len(),
            out@ == base + enc_lines(sec@.lines.subrange(0, k as int)),
            base == old(out)@ + (lit_kind() + enc_kind(sec@.kind) + lit_lines() + dec_digits(
                sec@.lines.len(),
            ) + seq!['\n']),
        decreases sec.lines.len() - k,
    {
        push_enc_str(out, sec.lines[k].as_str());
        proof {
            lemma_enc_lines_snoc(sec@.lines.subrange(0, k as int), sec@.lines[k as int]);
            assert(sec@.lines[k as int] == sec.lines@[k as int]@);
            assert(sec@.lines.subrange(0, k + 1 as int) =~= sec@.lines.subrange(0, k as int).push(
                sec@.lines[k as int],
            ));
        }
        k = k + 1;
    }
    proof {
        assert(sec@.lines.subrange(0, sec@.lines.len() as int) =~= sec@.lines);
        assert(out@ =~= old(out)@ + enc_section(sec@));
    }
}

/// Serializes a document to the textual interchange format: the output is
/// exactly [`ser_doc`] of the document, so by
/// [`lemma_serialization_round_trip`] deserializing it yields the document
/// back.
pub fn serialize_document(d: &LyricsDocument) -> (out: String)
    ensures
        out@ == ser_doc(d@),
{
    let mut buf: Vec<char> = Vec::new();
    push_str_chars(&mut buf, "title ");
    push_opt(&mut buf, &d.title);
    push_str_chars(&mut buf, "artist ");
    push_opt(&mut buf, &d.artist);
    push_str_chars(&mut buf, "sections ");
    let digs = render_decimal(d.sections.len());
    push_char_vec(&mut buf, &digs);
    buf.push('\n');
    let ghost base = buf@;
    proof {
        reveal_strlit("title ");
        reveal_strlit("artist ");
        reveal_strlit("sections ");
        assert("title "@ =~= lit_title());
        assert("artist "@ =~= lit_artist());
        assert("sections "@ =~= lit_sections());
        assert(base =~= lit_title() + enc_opt(d@.title) + lit_artist() + enc_opt(d@.artist)
            + lit_sections() + dec_digits(d@.sections.len()) + seq!['\n']);
        assert(enc_sections(d@.sections.subrange(0, 0)) == Seq::<char>::empty());
        assert(base + Seq::<char>::empty() =~= base);
    }
    let mut k: usize = 0;
    while k < d.sections.len()
        invariant
            k <= d.sections.len(),
            d@.sections.len() == d.sections.len(),
            buf@ == base + enc_sections(d@.sections.subrange(0, k as int)),
            base == lit_title() + enc_opt(d@.title) + lit_artist() + enc_opt(d@.artist)
                + lit_sections() + dec_digits(d@.sections.len()) + seq!['\n'],
        decreases d.sections.len() - k,
    {
        push_section(&mut buf, &d.sections[k]);
        proof {
            lemma_enc_sections_snoc(d@.sections.subrange(0, k as int), d@.sections[k as int]);
            assert(d@.sections[k as int] == d.sections@[k as int]@);
            assert(d@.sections.subrange(0, k + 1 as int) =~= d@.sections.subrange(0, k as int).push(
                d@.sections[k as int],
            ));
        }
        k = k + 1;
    }
    proof {
        assert(d@.sections.subrange(0, d@.sections.len() as int) =~= d@.sections);
        assert(buf@ =~= ser_doc(d@));
    }
    chars_to_string(&buf)
}

// ---------------------------------------------------------------------------
// the executable deserializer
// ---------------------------------------------------------------------------

proof fn lemma_rd_num_bounds(s: Seq<char>, i: int)
    requires
        0 <= i <= s.len(),
    ensures
        (match rd_num(s, i) {
            Some((n, e)) => i < e <= s.len(),
            None => true,
        }),
{
    lemma_digit_end(s, i);
}

proof fn lemma_rd_str_bounds(s: Seq<char>, i: int)
    requires
        0 <= i <= s.len(),
    ensures
        (match rd_str(s, i) {
            Some((p, j)) => i < j <= s.len(),
            None => true,
        }),
{
    lemma_rd_num_bounds(s, i);
}

proof fn lemma_rd_section_bounds(s: Seq<char>, i: int)
    requires
        0 <= i <= s.len(),
    ensures
        (match rd_section(s, i) {
            Some((sec, j)) => i < j <= s.len(),
            None => true,
        }),
{
    match rd_lit(s, i, lit_kind()) {
        None => {},
        Some(j) => {
            lemma_rd_kind_bounds(s, j);
            match rd_kind(s, j) {
                None => {},
                Some((k, j2)) => {
                    match rd_lit(s, j2, lit_lines()) {
                        None => {},
                        Some(j3) => {
                            lemma_rd_num_bounds(s, j3);
                            match rd_num(s, j3) {
                                None => {},
                                Some((m, j4)) => {
                                    if j4 < s.len() && s[j4] == '\n' {
                                        lemma_rd_lines_bounds(s, j4 + 1, m, Seq::empty());
                                    }
                                },
                            }
                        },
                    }
                },
            }
        },
    }
}

proof fn lemma_rd_kind_bounds(s: Seq<char>, i: int)
    requires
        0 <= i <= s.len(),
    ensures
        (match rd_kind(s, i) {
            Some((k, j)) => i < j <= s.len(),
            None => true,
        }),
{
    match rd_lit(s, i, lit_verse()) {
        Some(j) => {
            lemma_rd_num_bounds(s, j);
        },
        None => {
            match rd_lit(s, i, lit_custom()) {
                Some(j) => {
                    lemma_rd_str_bounds(s, j);
                },
                None => {},
            }
        },
    }
}

proof fn lemma_rd_lines_bounds(s: Seq<char>, i: int, m: nat, acc: Seq<Seq<char>>)
    requires
        0 <= i <= s.len(),
    ensures
        (match rd_lines(s, i, m, acc) {
            Some((ls, j)) => i <= j <= s.len(),
            None => true,
        }),
    decreases m,
{
    if m != 0 {
        match rd_str(s, i) {
            None => {},
            Some((p, j)) => {
                lemma_rd_str_bounds(s, i);
                lemma_rd_lines_bounds(s, j, (m - 1) as nat, acc.push(p));
            },
        }
    }
}

/// More strings were asked for than characters remain: the read fails.
proof fn lemma_rd_lines_exhausts(s: Seq<char>, i: int, m: nat, acc: Seq<Seq<char>>)
    requires
        0 <= i <= s.len(),
        m > s.len() - i,
    ensures
        rd_lines(s, i, m, acc) is None,
    decreases m,
{
    match rd_str(s, i) {
        None => {},
        Some((p, j)) => {
            lemma_rd_str_bounds(s, i);
            lemma_rd_lines_exhausts(s, j, (m - 1) as nat, acc.push(p));
        },
    }
}

/// More sections were asked for than characters remain: the read fails.
proof fn lemma_rd_sections_exhausts(s: Seq<char>, i: int, n: nat, acc: Seq<SectionV>)
    requires
        0 <= i <= s.len(),
        n > s.len() - i,
    ensures
        rd_sections(s, i, n, acc) is None,
    decreases n,
{
    match rd_section(s, i) {
        None => {},
        Some((sec, j)) => {
            lemma_rd_section_bounds(s, i);
            lemma_rd_sections_exhausts(s, j, (n - 1) as nat, acc.push(sec));
        },
    }
}

/// What an executable number read can find: nothing, a value, or a digit
/// run whose value exceeds `usize`.
enum NumRead {
    Missing,
    Overflow(usize),
    Value(usize, usize),
}

/// The executable search for the end of the digit run starting at `i`.
fn find_digit_end(v: &Vec<char>, i: usize) -> (e: usize)
    requires
        i <= v.len(),
    ensures
        e == digit_end(v@, i as int),
        i <= e <= v.len(),
{
    let mut k: usize = i;
    while k < v.len()
        invariant
            i <= k <= v.len(),
            digit_end(v@, i as int) == digit_end(v@, k as int),
        decreases v.len() - k,
    {
        if !digit_check(v[k]) {
            return k;
        }
        k = k + 1;
    }
    k
}

/// Reads a decimal number, matching [`rd_num`]; values above `usize` are
/// reported as an overflow with the digit run's end.
fn read_num(v: &Vec<char>, i: usize) -> (r: NumRead)
    requires
        i <= v.len(),
    ensures
        (match r {
            NumRead::Missing => rd_num(v@, i as int) is None,
            NumRead::Overflow(e) => rd_num(v@, i as int) == Some(
                (digits_val(v@.subrange(i as int, e as int)), e as int),
            ) && digits_val(v@.subrange(i as int, e as int)) > usize::MAX && i < e <= v.len(),
            NumRead::Value(n, e) => rd_num(v@, i as int) == Some((n as nat, e as int)) && i < e
                <= v.len(),
        }),
{
    let e = find_digit_end(v, i);
    proof {
        lemma_digit_end(v@, i as int);
    }
    if e == i {
        return NumRead::Missing;
    }
    proof {
        let sub = v@.subrange(i as int, e as int);
        assert forall|t: int| 0 <= t < sub.len() implies is_digit(#[trigger] sub[t]) by {
            assert(sub[t] == v@[i + t]);
        }
    }
    match parse_digits_bounded(v, i, e, usize::MAX as u128) {
        Some(val) => NumRead::Value(val as usize, e),
        None => NumRead::Overflow(e),
    }
}

/// Reads an exact literal, matching [`rd_lit`].
fn read_lit(v: &Vec<char>, i: usize, w: &str) -> (r: Option<usize>)
    requires
        i <= v.len(),
    ensures
        (match r {
            Some(j) => rd_lit(v@, i as int, w@) == Some(j as int) && i <= j <= v.len(),
            None => rd_lit(v@, i as int, w@) is None,
        }),
{
    let wl = w.unicode_len();
    if wl > v.len() - i {
        return None;
    }
    let mut k: usize = 0;
    while k < wl
        invariant
            i + wl <= v.len(),
            wl == w@.len(),
            k <= wl,
            forall|t: int| 0 <= t < k ==> v@[i + t] == w@[t],
        decreases wl - k,
    {
        if v[i + k] != w.get_char(k) {
            proof {
                let sub = v@.subrange(i as int, (i + wl) as int);
                if sub == w@ {
                    assert(sub[k as int] == v@[i + k]);
                    assert(false);
                }
            }
            return None;
        }
        k = k + 1;
    }
    proof {
        assert(v@.subrange(i as int, (i + wl) as int) =~= w@);
    }
    Some(i + wl)
}

/// Reads a length-prefixed string, matching [`rd_str`].
fn read_str(v: &Vec<char>, i: usize) -> (r: Option<(Vec<char>, usize)>)
    requires
        i <= v.len(),
    ensures
        (match r {
            Some((p, j)) => rd_str(v@, i as int) == Some((p@, j as int)) && i < j <= v.len(),
            None => rd_str(v@, i as int) is None,
        }),
{
    match read_num(v, i) {
        NumRead::Missing => None,
        NumRead::Overflow(_) => None,
        NumRead::Value(n, e) => {
            if e >= v.len() {
                return None;
            }
            if v[e] != ':' {
                return None;
            }
            let k = e + 1;
            if n >= v.len() - k {
                return None;
            }
            if v[k + n] != '\n' {
                return None;
            }
            let p = copy_range(v, k, k + n);
            Some((p, k + n + 1))
        },
    }
}

/// Reads an optional string, matching [`rd_opt`].
fn read_opt(v: &Vec<char>, i: usize) -> (r: Option<(Option<String>, usize)>)
    requires
        i <= v.len(),
    ensures
        (match r {
            Some((o, j)) => rd_opt(v@, i as int) == Some(
                (
                    match o {
                        Some(t) => Some(t@),
                        None => None,
                    },
                    j as int,
                ),
            ) && i < j <= v.len(),
            None => rd_opt(v@, i as int) is None,
        }),
{
    proof {
        reveal_strlit("none\n");
        reveal_strlit("some ");
        assert("none\n"@ =~= lit_none());
        assert("some "@ =~= lit_some());
    }
    match read_lit(v, i, "none\n") {
        Some(j) => Some((None, j)),
        None => match read_lit(v, i, "some ") {
            None => None,
            Some(j) => match read_str(v, j) {
                None => None,
                Some((p, k)) => Some((Some(chars_to_string(&p)), k)),
            },
        },
    }
}

/// Reads a section kind, matching [`rd_kind`].
fn read_kind(v: &Vec<char>, i: usize) -> (r: Option<(SectionKind, usize)>)
    requires
        i <= v.len(),
    ensures
        (match r {
            Some((k, j)) => rd_kind(v@, i as int) == Some((k@, j as int)) && i < j <= v.len(),
            None => rd_kind(v@, i as int) is None,
        }),
{
    proof {
        reveal_strlit("verse index ");
        reveal_strlit("chorus\n");
        reveal_strlit("bridge\n");
        reveal_strlit("custom ");
        assert("verse index "@ =~= lit_verse());
        assert("chorus\n"@ =~= lit_chorus());
        assert("bridge\n"@ =~= lit_bridge());
        assert("custom "@ =~= lit_custom());
    }
    match read_lit(v, i, "verse index ") {
        Some(j) => match read_num(v, j) {
            NumRead::Missing => None,
            NumRead::Overflow(_) => None,
            NumRead::Value(n, e) => {
                if n > (u32::MAX as usize) {
                    return None;
                }
                if e >= v.len() {
                    return None;
                }
                if v[e] != '\n' {
                    return None;
                }
                Some((SectionKind::Verse(n as u32), e + 1))
            },
        },
        None => match read_lit(v, i, "chorus\n") {
            Some(j) => Some((SectionKind::Chorus, j)),
            None => match read_lit(v, i, "bridge\n") {
                Some(j) => Some((SectionKind::Bridge, j)),
                None => match read_lit(v, i, "custom ") {
                    None => None,
                    Some(j) => match read_str(v, j) {
                        None => None,
                        Some((p, k)) => Some((SectionKind::Custom(chars_to_string(&p)), k)),
                    },
                },
            },
        },
    }
}

/// Reads `m` length-prefixed strings, matching [`rd_lines`].
fn read_lines(v: &Vec<char>, i: usize, m: usize) -> (r: Option<(Vec<String>, usize)>)
    requires
        i <= v.len(),
    ensures
        (match r {
            Some((ls, j)) => rd_lines(v@, i as int, m as nat, Seq::empty()) == Some(
                (ls@.map_values(|l: String| l@), j as int),
            ) && i <= j <= v.len(),
            None => rd_lines(v@, i as int, m as nat, Seq::empty()) is None,
        }),
{
    let mut acc: Vec<String> = Vec::new();
    let mut cur: usize = i;
    let mut k: usize = 0;
    proof {
        assert(acc@.map_values(|l: String| l@) =~= Seq::<Seq<char>>::empty());
    }
    while k < m
        invariant
            i <= cur <= v.len(),
            k <= m,
            rd_lines(v@, i as int, m as nat, Seq::empty()) == rd_lines(
                v@,
                cur as int,
                (m - k) as nat,
                acc@.map_values(|l: String| l@),
            ),
        decreases m - k,
    {
        let ghost acc0 = acc@.map_values(|l: String| l@);
        match read_str(v, cur) {
            None => {
                return None;
            },
            Some((p, j)) => {
                acc.push(chars_to_string(&p));
                proof {
                    assert(acc@.map_values(|l: String| l@) =~= acc0.push(p@));
                }
                cur = j;
                k = k + 1;
            },
        }
    }
    Some((acc, cur))
}

/// Reads one section, matching [`rd_section`].
fn read_section(v: &Vec<char>, i: usize) -> (r: Option<(Section, usize)>)
    requires
        i <= v.len(),
    ensures
        (match r {
            Some((sec, j)) => rd_section(v@, i as int) == Some((sec@, j as int)) && i < j
                <= v.len(),
            None => rd_section(v@, i as int) is None,
        }),
{
    proof {
        reveal_strlit("kind ");
        reveal_strlit("lines ");
        assert("kind "@ =~= lit_kind());
        assert("lines "@ =~= lit_lines());
    }
    let j = match read_lit(v, i, "kind ") {
        None => {
            return None;
        },
        Some(x) => x,
    };
    let (kind, j2) = match read_kind(v, j) {
        None => {
            return None;
        },
        Some(x) => x,
    };
    let j3 = match read_lit(v, j2, "lines ") {
        None => {
            return None;
        },
        Some(x) => x,
    };
    let (m, j4) = match read_num(v, j3) {
        NumRead::Missing => {
            return None;
        },
        NumRead::Overflow(e) => {
            proof {
                let big = digits_val(v@.subrange(j3 as int, e as int));
                if e < v@.len() && v@[e as int] == '\n' {
                    lemma_rd_lines_exhausts(v@, e + 1, big, Seq::empty());
                }
            }
            return None;
        },
        NumRead::Value(m, j4) => (m, j4),
    };
    if j4 >= v.len() {
        return None;
    }
    if v[j4] != '\n' {
        return None;
    }
    let (lines, j5) = match read_lines(v, j4 + 1, m) {
        None => {
            return None;
        },
        Some(x) => x,
    };
    let sec = Section { kind, lines };
    proof {
        assert(sec@ =~= SectionV { kind: sec.kind@, lines: sec.lines@.map_values(|l: String| l@) });
    }
    Some((sec, j5))
}

/// Reads `n` sections, matching [`rd_sections`].
fn read_sections(v: &Vec<char>, i: usize, n: usize) -> (r: Option<(Vec<Section>, usize)>)
    requires
        i <= v.len(),
    ensures
        (match r {
            Some((ss, j)) => rd_sections(v@, i as int, n as nat, Seq::empty()) == Some(
                (ss@.map_values(|s: Section| s@), j as int),
            ) && i <= j <= v.len(),
            None => rd_sections(v@, i as int, n as nat, Seq::empty()) is None,
        }),
{
    let mut acc: Vec<Section> = Vec::new();
    let mut cur: usize = i;
    let mut k: usize = 0;
    proof {
        assert(acc@.map_values(|s: Section| s@) =~= Seq::<SectionV>::empty());
    }
    while k < n
        invariant
            i <= cur <= v.len(),
            k <= n,
            rd_sections(v@, i as int, n as nat, Seq::empty()) == rd_sections(
                v@,
                cur as int,
                (n - k) as nat,
                acc@.map_values(|s: Section| s@),
            ),
        decreases n - k,
    {
        let ghost acc0 = acc@.map_values(|s: Section| s@);
        match read_section(v, cur) {
            None => {
                return None;
            },
            Some((sec, j)) => {
                proof {
                    assert(acc0.push(sec@) =~= acc@.push(sec).map_values(|s: Section| s@));
                }
                acc.push(sec);
                cur = j;
                k = k + 1;
            },
        }
    }
    Some((acc, cur))
}

/// The error a malformed interchange text reports: the character offset at
/// which reading stopped; the text is one logical record, so no line or
/// column is tracked and both are reported as 1.
fn deser_err(offset: usize) -> (e: ParseError)
    ensures
        e@.kind == ErrorKind::GrammarMismatch,
        e@.offset == offset as nat,
{
    ParseError {
        kind: ErrorKind::GrammarMismatch,
        line: 1,
        col: 1,
        offset,
        expected: Vec::new(),
        context: None,
    }
}

/// Deserializes a document from the textual interchange format: succeeds
/// exactly on the texts that [`spec_deser`] accepts, and then returns
/// exactly the document it denotes.
pub fn deserialize_document(s: &str) -> (r: Result<LyricsDocument, ParseError>)
    ensures
        (match r {
            Ok(d) => spec_deser(s@) == Some(d@),
            Err(e) => spec_deser(s@) is None && e@.kind == ErrorKind::GrammarMismatch,
        }),
{
    let v = str_to_chars(s);
    proof {
        reveal_strlit("title ");
        reveal_strlit("artist ");
        reveal_strlit("sections ");
        assert("title "@ =~= lit_title());
        assert("artist "@ =~= lit_artist());
        assert("sections "@ =~= lit_sections());
    }
    let j = match read_lit(&v, 0, "title ") {
        None => {
            return Err(deser_err(0));
        },
        Some(x) => x,
    };
    let (title, j2) = match read_opt(&v, j) {
        None => {
            return Err(deser_err(j));
        },
        Some(x) => x,
    };
    let j3 = match read_lit(&v, j2, "artist ") {
        None => {
            return Err(deser_err(j2));
        },
        Some(x) => x,
    };
    let (artist, j4) = match read_opt(&v, j3) {
        None => {
            return Err(deser_err(j3));
        },
        Some(x) => x,
    };
    let j5 = match read_lit(&v, j4, "sections ") {
        None => {
            return Err(deser_err(j4));
        },
        Some(x) => x,
    };
    let (n, j6) = match read_num(&v, j5) {
        NumRead::Missing => {
            return Err(deser_err(j5));
        },
        NumRead::Overflow(e) => {
            proof {
                let big = digits_val(v@.subrange(j5 as int, e as int));
                if e < v@.len() && v@[e as int] == '\n' {
                    lemma_rd_sections_exhausts(v@, e + 1, big, Seq::empty());
                }
            }
            return Err(deser_err(j5));
        },
        NumRead::Value(n, j6) => (n, j6),
    };
    if j6 >= v.len() {
        return Err(deser_err(j6));
    }
    if v[j6] != '\n' {
        return Err(deser_err(j6));
    }
    let (sections, j7) = match read_sections(&v, j6 + 1, n) {
        None => {
            return Err(deser_err(j6));
        },
        Some(x) => x,
    };
    if j7 != v.len() {
        return Err(deser_err(j7));
    }
    let doc = LyricsDocument { title, artist, sections };
    proof {
        assert(doc@ =~= DocV {
            title: match doc.title {
                Some(t) => Some(t@),
                None => None,
            },
            artist: match doc.artist {
                Some(a) => Some(a@),
                None => None,
            },
            sections: doc.sections@.map_values(|x: Section| x@),
        });
    }
    Ok(doc)
}

} // verus!
