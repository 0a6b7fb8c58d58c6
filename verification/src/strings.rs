//! Character-level helpers for building text: ASCII lower-casing of
//! strings and decimal rendering of numbers.

use vstd::prelude::*;

verus! {

/// `String::push` from std appends one character at the end.
#[verifier::external_body]
pub(crate) fn push_char(s: &mut String, c: char)
    ensures
        final(s)@ == old(s)@.push(c),
{
    s.push(c);
}

/// The ASCII lower-case form of a character: `A`..`Z` map to `a`..`z`,
/// every other character is left alone.
pub open spec fn lower_char(c: char) -> char {
    if 'A' <= c && c <= 'Z' {
        ((c as u32) + 32) as char
    } else {
        c
    }
}

/// The text with every character lower-cased.
pub open spec fn lower_chars(s: Seq<char>) -> Seq<char> {
    s.map_values(|c: char| lower_char(c))
}

fn lower_one_char(c: char) -> (r: char)
    ensures
        r == lower_char(c),
{
    if c >= 'A' && c <= 'Z' {
        let b: u8 = c as u8;
        assert(b == c as u32);
        let l: u8 = b + 32;
        l as char
    } else {
        c
    }
}

/// ASCII lower-casing of a string (what `str::to_ascii_lowercase` does).
pub fn ascii_lowercase(s: &str) -> (res: String)
    ensures
        res@ == lower_chars(s@),
{
    let n = s.unicode_len();
    let mut out = String::new();
    for i in 0..n
        invariant
            n == s@.len(),
            out@ =~= lower_chars(s@.take(i as int)),
    {
        let c = s.get_char(i);
        push_char(&mut out, lower_one_char(c));
        assert(lower_chars(s@.take(i + 1)) =~= lower_chars(s@.take(i as int)).push(lower_char(c)));
    }
    assert(s@.take(n as int) =~= s@);
    out
}

/// The character of a decimal digit `d < 10`.
pub open spec fn digit_char(d: nat) -> char {
    ((d + 48) as u32) as char
}

/// The decimal digits of a number, most significant first, with no
/// leading zeros (zero is written `0`).
pub open spec fn decimal_chars(n: nat) -> Seq<char>
    decreases n,
{
    if n < 10 {
        seq![digit_char(n)]
    } else {
        decimal_chars(n / 10).push(digit_char(n % 10))
    }
}

fn digit_to_char(d: u8) -> (c: char)
    requires
        d < 10,
    ensures
        c == digit_char(d as nat),
{
    let b: u8 = d + 48;
    b as char
}

/// Appends the decimal digits of `n` to `s`.
pub fn push_decimal(s: &mut String, n: usize)
    ensures
        final(s)@ == old(s)@ + decimal_chars(n as nat),
    decreases n,
{
    if n >= 10 {
        push_decimal(s, n / 10);
    }
    push_char(s, digit_to_char((n % 10) as u8));
}


/// Lower-casing a text twice is lower-casing it once.
pub proof fn law_lower_chars_idempotent(s: Seq<char>)
    ensures
        lower_chars(lower_chars(s)) == lower_chars(s),
{
    assert(lower_chars(lower_chars(s)) =~= lower_chars(s));
}


/// Lower-casing keeps the length, changes only the capitals `A`..`Z`,
/// and turns each of them into the letter 32 places later (`a`..`z`).
pub proof fn law_lower_chars_pointwise(s: Seq<char>)
    ensures
        lower_chars(s).len() == s.len(),
        forall|i: int| 0 <= i < s.len() ==> {
            &&& ('A' <= s[i] && s[i] <= 'Z') ==> (lower_chars(s)[i] as u32) == (s[i] as u32) + 32
            &&& !('A' <= s[i] && s[i] <= 'Z') ==> lower_chars(s)[i] == s[i]
        },
{
}

} // verus!
