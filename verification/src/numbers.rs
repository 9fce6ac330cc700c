//! Decimal numerals: the mathematical reading of a digit run, its rendering,
//! and the executable routines that parse and print numbers against them.

use vstd::prelude::*;

verus! {

/// The numeric value of one decimal digit character.
pub open spec fn digit_val(c: char) -> nat {
    (c as nat - '0' as nat) as nat
}

/// Is `c` one of `'0'` through `'9'`?
pub open spec fn is_digit(c: char) -> bool {
    '0' <= c && c <= '9'
}

/// Is `s` a non-empty run of decimal digits?
pub open spec fn is_digit_run(s: Seq<char>) -> bool {
    s.len() > 0 && forall|i: int| 0 <= i < s.len() ==> is_digit(#[trigger] s[i])
}

/// The value of a digit run, read left to right in base ten.
pub open spec fn digits_val(s: Seq<char>) -> nat
    decreases s.len(),
{
    if s.len() == 0 {
        0
    } else {
        digits_val(s.drop_last()) * 10 + digit_val(s.last())
    }
}

/// The digit character for a value below ten.
pub open spec fn digit_char(d: nat) -> char {
    if d == 0 { '0' }
    else if d == 1 { '1' }
    else if d == 2 { '2' }
    else if d == 3 { '3' }
    else if d == 4 { '4' }
    else if d == 5 { '5' }
    else if d == 6 { '6' }
    else if d == 7 { '7' }
    else if d == 8 { '8' }
    else { '9' }
}

/// The canonical decimal rendering of `n` (no leading zeros except for 0 itself).
pub open spec fn dec_digits(n: nat) -> Seq<char>
    decreases n,
{
    if n < 10 {
        seq![digit_char(n)]
    } else {
        dec_digits(n / 10).push(digit_char(n % 10))
    }
}

/// The canonical rendering is a digit run.
pub proof fn lemma_dec_digits_is_digit_run(n: nat)
    ensures
        is_digit_run(dec_digits(n)),
    decreases n,
{
    if n < 10 {
        assert(is_digit(digit_char(n)));
    } else {
        lemma_dec_digits_is_digit_run(n / 10);
        assert(is_digit(digit_char(n % 10)));
        let s = dec_digits(n);
        assert forall|i: int| 0 <= i < s.len() implies is_digit(#[trigger] s[i]) by {
            if i < dec_digits(n / 10).len() {
                assert(s[i] == dec_digits(n / 10)[i]);
            }
        }
    }
}

/// Reading back the canonical rendering of `n` yields `n`.
pub proof fn lemma_digits_val_of_dec(n: nat)
    ensures
        digits_val(dec_digits(n)) == n,
    decreases n,
{
    if n < 10 {
        let s = dec_digits(n);
        assert(s.drop_last() =~= Seq::<char>::empty());
        assert(digits_val(Seq::<char>::empty()) == 0);
        assert(s.last() == digit_char(n));
        assert(digits_val(s) == digit_val(digit_char(n)));
    } else {
        lemma_digits_val_of_dec(n / 10);
        let s = dec_digits(n);
        assert(s.drop_last() =~= dec_digits(n / 10));
        assert(s.last() == digit_char(n % 10));
        assert(digit_val(digit_char(n % 10)) == n % 10);
        assert(digits_val(s) == (n / 10) * 10 + n % 10);
        assert((n / 10) * 10 + n % 10 == n) by (nonlinear_arith);
    }
}

/// A digit run's value does not shrink as the run is extended to the right.
pub proof fn lemma_digits_val_monotone(s: Seq<char>, k: int)
    requires
        0 <= k <= s.len(),
    ensures
        digits_val(s.subrange(0, k)) <= digits_val(s),
    decreases s.len() - k,
{
    if k == s.len() {
        assert(s.subrange(0, k) =~= s);
    } else {
        lemma_digits_val_monotone(s, k + 1);
        let a = s.subrange(0, k);
        let b = s.subrange(0, k + 1);
        assert(b.drop_last() =~= a);
        assert(digits_val(b) == digits_val(a) * 10 + digit_val(b.last()));
        assert(digits_val(a) * 10 >= digits_val(a)) by (nonlinear_arith);
    }
}

/// The executable digit test, matching [`is_digit`].
pub fn digit_check(c: char) -> (r: bool)
    ensures
        r == is_digit(c),
{
    '0' <= c && c <= '9'
}

/// The numeric value of a digit character, matching [`digit_val`].
pub fn digit_value(c: char) -> (d: u32)
    requires
        is_digit(c),
    ensures
        d == digit_val(c),
        d <= 9,
{
    (c as u32) - ('0' as u32)
}

/// The digit character for a value below ten, matching [`digit_char`].
pub fn digit_to_char(d: usize) -> (c: char)
    requires
        d < 10,
    ensures
        c == digit_char(d as nat),
{
    if d == 0 { '0' }
    else if d == 1 { '1' }
    else if d == 2 { '2' }
    else if d == 3 { '3' }
    else if d == 4 { '4' }
    else if d == 5 { '5' }
    else if d == 6 { '6' }
    else if d == 7 { '7' }
    else if d == 8 { '8' }
    else { '9' }
}

/// Reads the digit run `l[a..b]` as a decimal value, refusing values above
/// `bound`.
pub fn parse_digits_bounded(l: &Vec<char>, a: usize, b: usize, bound: u128) -> (r: Option<u128>)
    requires
        a <= b <= l.len(),
        is_digit_run(l@.subrange(a as int, b as int)),
        bound <= 0xFFFF_FFFF_FFFF_FFFFu128,
    ensures
        match r {
            Some(v) => v as nat == digits_val(l@.subrange(a as int, b as int)) && v <= bound,
            None => digits_val(l@.subrange(a as int, b as int)) > bound,
        },
{
    let ghost s = l@.subrange(a as int, b as int);
    let mut acc: u128 = 0;
    let mut k: usize = a;
    while k < b
        invariant
            a <= k <= b <= l.len(),
            s == l@.subrange(a as int, b as int),
            is_digit_run(s),
            bound <= 0xFFFF_FFFF_FFFF_FFFFu128,
            acc as nat == digits_val(s.subrange(0, k - a)),
            acc <= bound,
        decreases b - k,
    {
        proof {
            assert(s[k - a] == l@[k as int]);
            assert(is_digit(s[k - a]));
        }
        let d = digit_value(l[k]);
        let next: u128 = acc * 10 + (d as u128);
        proof {
            let pre = s.subrange(0, k - a);
            let pre1 = s.subrange(0, k - a + 1);
            assert(pre1.drop_last() =~= pre);
            assert(pre1.last() == s[k - a]);
            assert(digits_val(pre1) == digits_val(pre) * 10 + digit_val(s[k - a]));
        }
        if next > bound {
            proof {
                lemma_digits_val_monotone(s, k - a + 1);
            }
            return None;
        }
        acc = next;
        k = k + 1;
    }
    proof {
        assert(s.subrange(0, b - a) =~= s);
    }
    Some(acc)
}

/// Renders `n` in decimal, matching [`dec_digits`].
pub fn render_decimal(n: usize) -> (v: Vec<char>)
    ensures
        v@ == dec_digits(n as nat),
    decreases n,
{
    if n < 10 {
        let mut v: Vec<char> = Vec::new();
        v.push(digit_to_char(n));
        proof {
            assert(v@ =~= seq![digit_char(n as nat)]);
        }
        v
    } else {
        let mut v = render_decimal(n / 10);
        v.push(digit_to_char(n % 10));
        proof {
            assert(v@ =~= dec_digits((n / 10) as nat).push(digit_char((n % 10) as nat)));
            assert((n as nat) / 10 == ((n / 10) as nat));
            assert((n as nat) % 10 == ((n % 10) as nat));
        }
        v
    }
}

} // verus!
