use vstd::prelude::*;

verus! {

use vstd::string::StrSliceExecFns;
use itertools::Itertools;

/// The Unicode uppercasing of a sequence of characters, as `str::to_uppercase`
/// computes it. The mapping is a function of the characters alone; its full
/// definition (the Unicode case tables) is not restated here.
pub uninterp spec fn upper_of(s: Seq<char>) -> Seq<char>;

/// Relies on `str::to_uppercase`: the result is the Unicode uppercase mapping
/// of the input, a function of the input characters alone.
#[verifier::external_body]
pub fn to_upper_string(s: &str) -> (res: String)
    ensures
        res@ == upper_of(s@),
{
    s.to_uppercase()
}

/// Whether a character has the Unicode `Alphabetic` property, as
/// `char::is_alphabetic` reports it.
pub uninterp spec fn is_alpha(c: char) -> bool;

/// Relies on `char::is_alphabetic`: true exactly for characters with the
/// Unicode `Alphabetic` property. Its documentation fixes the ASCII range:
/// the letters `a`-`z` and `A`-`Z` are alphabetic, all other ASCII
/// characters are not.
#[verifier::external_body]
pub fn char_is_alphabetic(c: char) -> (res: bool)
    ensures
        res == is_alpha(c),
        ('a' <= c && c <= 'z') || ('A' <= c && c <= 'Z') ==> res,
        (c as u32) < 128 && !(('a' <= c && c <= 'z') || ('A' <= c && c <= 'Z')) ==> !res,
{
    c.is_alphabetic()
}

/// Relies on `String::push`: appends one character at the end.
#[verifier::external_body]
pub fn push_char(s: &mut String, c: char)
    ensures
        final(s)@ == old(s)@.push(c),
{
    s.push(c)
}

/// The models of a list of strings.
pub open spec fn str_views(ss: Seq<String>) -> Seq<Seq<char>> {
    ss.map_values(|s: String| s@)
}

/// The given parts joined with a single comma between neighbours.
pub open spec fn join_comma(parts: Seq<Seq<char>>) -> Seq<char>
    decreases parts.len(),
{
    if parts.len() == 0 {
        Seq::empty()
    } else if parts.len() == 1 {
        parts[0]
    } else {
        parts[0] + seq![','] + join_comma(parts.drop_first())
    }
}

/// Relies on `itertools::Itertools::join`: the elements, each displayed as
/// its own characters, concatenated with the separator between neighbours.
#[verifier::external_body]
pub fn join_commas(items: &Vec<String>) -> (res: String)
    ensures
        res@ == join_comma(str_views(items@)),
{
    items.iter().join(",")
}

/// Character equality of two strings.
pub fn str_eq(a: &str, b: &str) -> (res: bool)
    ensures
        res == (a@ == b@),
{
    let na = a.unicode_len();
    let nb = b.unicode_len();
    if na != nb {
        assert(a@ != b@) by {
            assert(a@.len() != b@.len());
        }
        return false;
    }
    let mut i: usize = 0;
    while i < na
        invariant
            na == a@.len(),
            nb == b@.len(),
            na == nb,
            i <= na,
            forall|j: int| 0 <= j < i ==> a@[j] == b@[j],
        decreases na - i,
    {
        if a.get_char(i) != b.get_char(i) {
            return false;
        }
        i += 1;
    }
    assert(a@ =~= b@);
    true
}

/// The headword display form: every `*` replaced by the bullet glyph.
pub open spec fn bullets(s: Seq<char>) -> Seq<char> {
    s.map_values(
        |c: char|
            if c == '*' {
                '\u{2022}'
            } else {
                c
            },
    )
}

/// Replaces every `*` with a bullet glyph, leaving all other characters as
/// they stand.
pub fn replace_stars(s: &str) -> (res: String)
    ensures
        res@ == bullets(s@),
{
    let n = s.unicode_len();
    let mut out = String::new();
    let mut i: usize = 0;
    while i < n
        invariant
            n == s@.len(),
            i <= n,
            out@ == bullets(s@).subrange(0, i as int),
        decreases n - i,
    {
        let c = s.get_char(i);
        if c == '*' {
            push_char(&mut out, '\u{2022}');
        } else {
            push_char(&mut out, c);
        }
        proof {
            assert(out@ =~= bullets(s@).subrange(0, i + 1 as int));
        }
        i += 1;
    }
    proof {
        assert(bullets(s@).subrange(0, n as int) =~= bullets(s@));
    }
    out
}

} // verus!
