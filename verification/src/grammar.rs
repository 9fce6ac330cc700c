//! The lexical rules of the lyrics language, stated over character
//! sequences, with the executable pattern checks proved against them.
//!
//! A line of the language is one of:
//!   * a metadata statement, `title:value` or `artist:value`, where the value
//!     is either a double-quoted string (no escapes) or a bare run of
//!     characters to the end of the line;
//!   * a section header, `VERSE[n]`, `CHORUS`, `BRIDGE`, or a bracketed
//!     custom marker `[label]` whose label holds no closing bracket;
//!   * a body line: anything else.
//!
//! A header matches only when the whole line has the header's shape; a line
//! such as `CHORUS tonight` is body text.

use vstd::prelude::*;

use crate::ast::{SectionKind, SectionKindV};
use crate::numbers::{
    dec_digits, digit_check, digits_val, is_digit, is_digit_run,
    lemma_dec_digits_is_digit_run, lemma_digits_val_of_dec, parse_digits_bounded,
};
use crate::text::{chars_to_string, copy_range, str_to_chars};

verus! {

/// Is `l` shaped like a verse header, `VERSE[` digits `]`?
///
/// The shape does not bound the digits: an overflowing index still has the
/// verse shape, and the parser reports it as a numeric overflow rather than
/// reading the line as body text.
pub open spec fn is_verse_shaped(l: Seq<char>) -> bool {
    &&& l.len() >= 8
    &&& l[0] == 'V'
    &&& l[1] == 'E'
    &&& l[2] == 'R'
    &&& l[3] == 'S'
    &&& l[4] == 'E'
    &&& l[5] == '['
    &&& l[l.len() - 1] == ']'
    &&& is_digit_run(l.subrange(6, l.len() - 1))
}

/// The digits between the brackets of a verse-shaped line.
pub open spec fn verse_digits(l: Seq<char>) -> Seq<char> {
    l.subrange(6, l.len() - 1)
}

/// The numeric value of a verse-shaped line's index.
pub open spec fn verse_value(l: Seq<char>) -> nat {
    digits_val(verse_digits(l))
}

/// Is `l` exactly the chorus header?
pub open spec fn is_chorus_text(l: Seq<char>) -> bool {
    l =~= seq!['C', 'H', 'O', 'R', 'U', 'S']
}

/// Is `l` exactly the bridge header?
pub open spec fn is_bridge_text(l: Seq<char>) -> bool {
    l =~= seq!['B', 'R', 'I', 'D', 'G', 'E']
}

/// Is `l` shaped like a custom bracketed marker, `[` label `]`, where the
/// label holds no closing bracket? The label may be empty.
pub open spec fn is_custom_shaped(l: Seq<char>) -> bool {
    &&& l.len() >= 2
    &&& l[0] == '['
    &&& l[l.len() - 1] == ']'
    &&& forall|i: int| 1 <= i < l.len() - 1 ==> l[i] != ']'
}

/// The label of a custom-shaped line.
pub open spec fn custom_label(l: Seq<char>) -> Seq<char> {
    l.subrange(1, l.len() - 1)
}

/// Does the whole line have one of the four header shapes?
pub open spec fn is_header_shaped(l: Seq<char>) -> bool {
    ||| is_verse_shaped(l)
    ||| is_chorus_text(l)
    ||| is_bridge_text(l)
    ||| is_custom_shaped(l)
}

/// The section kind a header line denotes, or `None` when the line is not a
/// header or its verse index exceeds the unsigned 32-bit range.
pub open spec fn header_of(l: Seq<char>) -> Option<SectionKindV> {
    if is_verse_shaped(l) {
        if verse_value(l) <= u32::MAX {
            Some(SectionKindV::Verse(verse_value(l) as u32))
        } else {
            None
        }
    } else if is_chorus_text(l) {
        Some(SectionKindV::Chorus)
    } else if is_bridge_text(l) {
        Some(SectionKindV::Bridge)
    } else if is_custom_shaped(l) {
        Some(SectionKindV::Custom(custom_label(l)))
    } else {
        None
    }
}

/// Does `l` open a title metadata statement?
pub open spec fn is_title_line(l: Seq<char>) -> bool {
    &&& l.len() >= 6
    &&& l[0] == 't'
    &&& l[1] == 'i'
    &&& l[2] == 't'
    &&& l[3] == 'l'
    &&& l[4] == 'e'
    &&& l[5] == ':'
}

/// Does `l` open an artist metadata statement?
pub open spec fn is_artist_line(l: Seq<char>) -> bool {
    &&& l.len() >= 7
    &&& l[0] == 'a'
    &&& l[1] == 'r'
    &&& l[2] == 't'
    &&& l[3] == 'i'
    &&& l[4] == 's'
    &&& l[5] == 't'
    &&& l[6] == ':'
}

/// What follows the `title:` key.
pub open spec fn title_rest(l: Seq<char>) -> Seq<char> {
    l.subrange(6, l.len() as int)
}

/// What follows the `artist:` key.
pub open spec fn artist_rest(l: Seq<char>) -> Seq<char> {
    l.subrange(7, l.len() as int)
}

/// Is `v` a double-quoted string with no interior quote?
pub open spec fn is_quoted(v: Seq<char>) -> bool {
    &&& v.len() >= 2
    &&& v[0] == '"'
    &&& v[v.len() - 1] == '"'
    &&& forall|i: int| 1 <= i < v.len() - 1 ==> v[i] != '"'
}

/// The value a metadata rest denotes: the interior of a quoted string, or
/// the bare text itself.
pub open spec fn meta_value(v: Seq<char>) -> Seq<char> {
    if is_quoted(v) {
        v.subrange(1, v.len() - 1)
    } else {
        v
    }
}

/// Checks whether `l[a..b]` is a non-empty digit run.
fn check_digit_run(l: &Vec<char>, a: usize, b: usize) -> (r: bool)
    requires
        a <= b <= l.len(),
    ensures
        r == is_digit_run(l@.subrange(a as int, b as int)),
{
    if a == b {
        proof {
            assert(l@.subrange(a as int, b as int).len() == 0);
        }
        return false;
    }
    let mut k: usize = a;
    while k < b
        invariant
            a <= k <= b <= l.len(),
            forall|t: int| a <= t < k ==> is_digit(#[trigger] l@[t]),
        decreases b - k,
    {
        if !digit_check(l[k]) {
            proof {
                assert(l@.subrange(a as int, b as int)[k - a] == l@[k as int]);
            }
            return false;
        }
        k = k + 1;
    }
    proof {
        let s = l@.subrange(a as int, b as int);
        assert forall|t: int| 0 <= t < s.len() implies is_digit(#[trigger] s[t]) by {
            assert(s[t] == l@[a + t]);
        }
    }
    true
}

/// Checks the verse header shape, matching [`is_verse_shaped`].
pub fn is_verse_line(l: &Vec<char>) -> (r: bool)
    ensures
        r == is_verse_shaped(l@),
{
    if l.len() < 8 {
        return false;
    }
    if !(l[0] == 'V' && l[1] == 'E' && l[2] == 'R' && l[3] == 'S' && l[4] == 'E' && l[5] == '[') {
        return false;
    }
    if l[l.len() - 1] != ']' {
        return false;
    }
    check_digit_run(l, 6, l.len() - 1)
}

/// Checks the chorus header, matching [`is_chorus_text`].
pub fn is_chorus_line(l: &Vec<char>) -> (r: bool)
    ensures
        r == is_chorus_text(l@),
{
    l.len() == 6 && l[0] == 'C' && l[1] == 'H' && l[2] == 'O' && l[3] == 'R' && l[4] == 'U'
        && l[5] == 'S'
}

/// Checks the bridge header, matching [`is_bridge_text`].
pub fn is_bridge_line(l: &Vec<char>) -> (r: bool)
    ensures
        r == is_bridge_text(l@),
{
    l.len() == 6 && l[0] == 'B' && l[1] == 'R' && l[2] == 'I' && l[3] == 'D' && l[4] == 'G'
        && l[5] == 'E'
}

/// Checks the custom marker shape, matching [`is_custom_shaped`].
pub fn is_custom_line(l: &Vec<char>) -> (r: bool)
    ensures
        r == is_custom_shaped(l@),
{
    if l.len() < 2 {
        return false;
    }
    if l[0] != '[' || l[l.len() - 1] != ']' {
        return false;
    }
    let mut k: usize = 1;
    while k < l.len() - 1
        invariant
            1 <= k <= l.len() - 1,
            l.len() >= 2,
            forall|t: int| 1 <= t < k ==> l@[t] != ']',
        decreases l.len() - k,
    {
        if l[k] == ']' {
            return false;
        }
        k = k + 1;
    }
    true
}

/// Checks whether the whole line has a header shape, matching
/// [`is_header_shaped`].
pub fn is_header_line(l: &Vec<char>) -> (r: bool)
    ensures
        r == is_header_shaped(l@),
{
    is_verse_line(l) || is_chorus_line(l) || is_bridge_line(l) || is_custom_line(l)
}

/// Reads the index of a verse-shaped line, refusing values above the
/// unsigned 32-bit range.
pub fn parse_verse_index(l: &Vec<char>) -> (r: Option<u32>)
    requires
        is_verse_shaped(l@),
    ensures
        match r {
            Some(n) => n as nat == verse_value(l@) && verse_value(l@) <= u32::MAX,
            None => verse_value(l@) > u32::MAX,
        },
{
    match parse_digits_bounded(l, 6, l.len() - 1, 0xFFFF_FFFFu128) {
        Some(v) => Some(v as u32),
        None => None,
    }
}

/// Checks the `title:` key, matching [`is_title_line`].
pub fn is_title_prefixed(l: &Vec<char>) -> (r: bool)
    ensures
        r == is_title_line(l@),
{
    l.len() >= 6 && l[0] == 't' && l[1] == 'i' && l[2] == 't' && l[3] == 'l' && l[4] == 'e'
        && l[5] == ':'
}

/// Checks the `artist:` key, matching [`is_artist_line`].
pub fn is_artist_prefixed(l: &Vec<char>) -> (r: bool)
    ensures
        r == is_artist_line(l@),
{
    l.len() >= 7 && l[0] == 'a' && l[1] == 'r' && l[2] == 't' && l[3] == 'i' && l[4] == 's'
        && l[5] == 't' && l[6] == ':'
}

/// Checks the quoted-string shape, matching [`is_quoted`].
fn is_quoted_chars(v: &Vec<char>) -> (r: bool)
    ensures
        r == is_quoted(v@),
{
    if v.len() < 2 {
        return false;
    }
    if v[0] != '"' || v[v.len() - 1] != '"' {
        return false;
    }
    let mut k: usize = 1;
    while k < v.len() - 1
        invariant
            1 <= k <= v.len() - 1,
            v.len() >= 2,
            forall|t: int| 1 <= t < k ==> v@[t] != '"',
        decreases v.len() - k,
    {
        if v[k] == '"' {
            return false;
        }
        k = k + 1;
    }
    true
}

/// Extracts the metadata value that starts at `start`, matching
/// [`meta_value`] of the rest of the line.
pub fn meta_value_of(l: &Vec<char>, start: usize) -> (out: Vec<char>)
    requires
        start <= l.len(),
    ensures
        out@ == meta_value(l@.subrange(start as int, l@.len() as int)),
{
    let rest = copy_range(l, start, l.len());
    if is_quoted_chars(&rest) {
        copy_range(&rest, 1, rest.len() - 1)
    } else {
        rest
    }
}

/// Classifies one line for interactive feedback, with the same header
/// patterns the full parser uses: `Some` names the header the line is, and
/// `None` marks a plain lyric line.
///
/// A verse header whose index exceeds the unsigned 32-bit range yields
/// `None` here; the full parser reports it as a numeric overflow instead.
pub fn classify_line(line: &str) -> (r: Option<SectionKind>)
    ensures
        match r {
            Some(k) => header_of(line@) == Some(k@),
            None => header_of(line@) is None,
        },
{
    let v = str_to_chars(line);
    classify_chars(&v)
}

/// The classifier on an already split character line; see [`classify_line`].
pub fn classify_chars(l: &Vec<char>) -> (r: Option<SectionKind>)
    ensures
        match r {
            Some(k) => header_of(l@) == Some(k@),
            None => header_of(l@) is None,
        },
{
    if is_verse_line(l) {
        match parse_verse_index(l) {
            Some(n) => Some(SectionKind::Verse(n)),
            None => None,
        }
    } else if is_chorus_line(l) {
        Some(SectionKind::Chorus)
    } else if is_bridge_line(l) {
        Some(SectionKind::Bridge)
    } else if is_custom_line(l) {
        let label = copy_range(l, 1, l.len() - 1);
        Some(SectionKind::Custom(chars_to_string(&label)))
    } else {
        None
    }
}

/// The canonical text of a section header.
pub open spec fn header_text(k: SectionKindV) -> Seq<char> {
    match k {
        SectionKindV::Verse(n) => seq!['V', 'E', 'R', 'S', 'E', '['] + dec_digits(n as nat)
            + seq![']'],
        SectionKindV::Chorus => seq!['C', 'H', 'O', 'R', 'U', 'S'],
        SectionKindV::Bridge => seq!['B', 'R', 'I', 'D', 'G', 'E'],
        SectionKindV::Custom(lbl) => seq!['['] + lbl + seq![']'],
    }
}

/// A kind whose canonical text is well formed: a custom label holds no
/// closing bracket. The built-in kinds are always well formed.
pub open spec fn kind_wf(k: SectionKindV) -> bool {
    match k {
        SectionKindV::Custom(lbl) => forall|i: int| 0 <= i < lbl.len() ==> lbl[i] != ']',
        _ => true,
    }
}

/// The header patterns accept their own canonical text: classifying the
/// canonical rendering of any well-formed section kind yields that kind
/// back. This ties the interactive classifier and the parser to the same
/// header definitions.
pub proof fn lemma_classify_canonical_header(k: SectionKindV)
    requires
        kind_wf(k),
    ensures
        header_of(header_text(k)) == Some(k),
{
    let t = header_text(k);
    match k {
        SectionKindV::Verse(n) => {
            let d = dec_digits(n as nat);
            lemma_dec_digits_is_digit_run(n as nat);
            lemma_digits_val_of_dec(n as nat);
            assert(d.len() >= 1);
            assert(t.len() == 7 + d.len());
            assert(t[0] == 'V');
            assert(t[1] == 'E');
            assert(t[2] == 'R');
            assert(t[3] == 'S');
            assert(t[4] == 'E');
            assert(t[5] == '[');
            assert(t[t.len() - 1] == ']');
            assert(t.subrange(6, t.len() - 1) =~= d);
            assert(is_verse_shaped(t));
            assert(verse_value(t) == n as nat);
        },
        SectionKindV::Chorus => {
            assert(!is_verse_shaped(t));
            assert(is_chorus_text(t));
        },
        SectionKindV::Bridge => {
            assert(!is_verse_shaped(t));
            assert(!is_chorus_text(t));
            assert(is_bridge_text(t));
        },
        SectionKindV::Custom(lbl) => {
            assert(t.len() == lbl.len() + 2);
            assert(t[0] == '[');
            assert(t[t.len() - 1] == ']');
            assert(!is_verse_shaped(t));
            assert(!is_chorus_text(t));
            assert(!is_bridge_text(t));
            assert forall|i: int| 1 <= i < t.len() - 1 implies t[i] != ']' by {
                assert(t[i] == lbl[i - 1]);
            }
            assert(is_custom_shaped(t));
            assert(custom_label(t) =~= lbl);
        },
    }
}

} // verus!
