//! Character-level text utilities: moving between `str`/`String` and
//! character vectors, and locating line boundaries.

use vstd::prelude::*;

verus! {

/// Turns `String::from_iter` into the library's way back from a character
/// vector to a `String`.
///
/// Relies on `String::from_iter` (via `Iterator::collect`): the collected
/// string holds exactly the characters the iterator yields, in order.
#[verifier::external_body]
pub fn chars_to_string(v: &Vec<char>) -> (s: String)
    ensures
        s@ == v@,
{
    v.iter().collect()
}

/// The characters of `s`, as a vector.
pub fn str_to_chars(s: &str) -> (v: Vec<char>)
    ensures
        v@ == s@,
{
    let n = s.unicode_len();
    let mut v: Vec<char> = Vec::new();
    let mut k: usize = 0;
    while k < n
        invariant
            n == s@.len(),
            0 <= k <= n,
            v@ == s@.subrange(0, k as int),
        decreases n - k,
    {
        let c = s.get_char(k);
        v.push(c);
        proof {
            assert(v@ =~= s@.subrange(0, k + 1 as int));
        }
        k = k + 1;
    }
    proof {
        assert(v@ =~= s@);
    }
    v
}

/// The characters of `v` between `a` (inclusive) and `b` (exclusive).
pub fn copy_range(v: &Vec<char>, a: usize, b: usize) -> (out: Vec<char>)
    requires
        a <= b <= v.len(),
    ensures
        out@ == v@.subrange(a as int, b as int),
{
    let mut out: Vec<char> = Vec::new();
    let mut k: usize = a;
    while k < b
        invariant
            a <= k <= b <= v.len(),
            out@ == v@.subrange(a as int, k as int),
        decreases b - k,
    {
        out.push(v[k]);
        proof {
            assert(out@ =~= v@.subrange(a as int, k + 1 as int));
        }
        k = k + 1;
    }
    out
}

/// The position of the first newline at or after `i`, or the length of `s`
/// when no newline follows.
pub open spec fn line_end(s: Seq<char>, i: int) -> int
    decreases s.len() - i when 0 <= i <= s.len()
{
    if i >= s.len() {
        s.len() as int
    } else if s[i] == '\n' {
        i
    } else {
        line_end(s, i + 1)
    }
}

/// Basic facts about [`line_end`]: it stays within bounds, nothing before it
/// is a newline, and it points at a newline unless it is the end of `s`.
pub proof fn lemma_line_end(s: Seq<char>, i: int)
    requires
        0 <= i <= s.len(),
    ensures
        i <= line_end(s, i) <= s.len(),
        forall|k: int| i <= k < line_end(s, i) ==> s[k] != '\n',
        line_end(s, i) < s.len() ==> s[line_end(s, i)] == '\n',
    decreases s.len() - i,
{
    if i < s.len() && s[i] != '\n' {
        lemma_line_end(s, i + 1);
    }
}

/// A line boundary depends only on the text up to the first newline: if `s`
/// and `t` agree on `[i, line_end(t, i)]`, the boundary is the same in both.
pub proof fn lemma_line_end_agrees(s: Seq<char>, t: Seq<char>, i: int)
    requires
        0 <= i <= t.len(),
        line_end(t, i) < t.len(),
        t.len() <= s.len(),
        forall|k: int| i <= k <= line_end(t, i) ==> s[k] == t[k],
    ensures
        line_end(s, i) == line_end(t, i),
    decreases t.len() - i,
{
    lemma_line_end(t, i);
    if i < t.len() && t[i] != '\n' {
        lemma_line_end_agrees(s, t, i + 1);
    }
}

/// The executable search for the end of the line starting at `i`.
pub fn find_line_end(v: &Vec<char>, i: usize) -> (j: usize)
    requires
        i <= v.len(),
    ensures
        j == line_end(v@, i as int),
        i <= j <= v.len(),
{
    let mut k: usize = i;
    while k < v.len()
        invariant
            i <= k <= v.len(),
            line_end(v@, i as int) == line_end(v@, k as int),
            forall|t: int| i <= t < k ==> v@[t] != '\n',
        decreases v.len() - k,
    {
        if v[k] == '\n' {
            proof {
                lemma_line_end(v@, i as int);
            }
            return k;
        }
        k = k + 1;
    }
    proof {
        lemma_line_end(v@, i as int);
    }
    k
}

} // verus!
