//! Characters and strings: the few facts about std's character classes and
//! `String` that the library relies on, and a verified string comparison.
use vstd::prelude::*;
use vstd::string::*;

verus! {

broadcast use vstd::string::group_string_axioms;

/// Whether `c` has the Unicode `Alphabetic` property (what `char::is_alphabetic`
/// returns, as a function of the character alone).
pub uninterp spec fn char_is_alphabetic(c: char) -> bool;

/// Whether `c` is alphabetic or numeric in Unicode (what `char::is_alphanumeric`
/// returns, as a function of the character alone).
pub uninterp spec fn char_is_alphanumeric(c: char) -> bool;

/// An ASCII letter.
pub open spec fn is_ascii_letter(c: char) -> bool {
    ('a' <= c && c <= 'z') || ('A' <= c && c <= 'Z')
}

/// What `char::is_alphabetic` returns: on ASCII exactly the letters, elsewhere
/// the Unicode `Alphabetic` property.
pub open spec fn alphabetic(c: char) -> bool {
    if (c as u32) < 128 {
        is_ascii_letter(c)
    } else {
        char_is_alphabetic(c)
    }
}

/// What `char::is_alphanumeric` returns: on ASCII exactly the letters and the
/// decimal digits, elsewhere the Unicode alphabetic and numeric characters.
pub open spec fn alphanumeric(c: char) -> bool {
    if (c as u32) < 128 {
        is_ascii_letter(c) || is_decimal_digit(c)
    } else {
        char_is_alphanumeric(c)
    }
}

/// Calls `char::is_alphabetic`. Its contract claims that on ASCII the answer is
/// true exactly for the letters (the ASCII characters with the Unicode
/// `Alphabetic` property), and elsewhere the fixed property `char_is_alphabetic`
/// of the character; the Unicode tables are not restated.
#[verifier::external_body]
pub(crate) fn is_alphabetic(c: char) -> (r: bool)
    ensures
        r == (if (c as u32) < 128 {
            is_ascii_letter(c)
        } else {
            char_is_alphabetic(c)
        }),
{
    c.is_alphabetic()
}

/// Calls `char::is_alphanumeric`. Its contract claims that on ASCII the answer
/// is true exactly for the letters and digits, elsewhere the fixed property
/// `char_is_alphanumeric` of the character, and, as the documentation defines
/// it as `is_alphabetic() || is_numeric()`, that it holds of every alphabetic
/// character; the Unicode tables are not restated.
#[verifier::external_body]
pub(crate) fn is_alphanumeric(c: char) -> (r: bool)
    ensures
        r == (if (c as u32) < 128 {
            is_ascii_letter(c) || is_decimal_digit(c)
        } else {
            char_is_alphanumeric(c)
        }),
        alphabetic(c) ==> r,
{
    c.is_alphanumeric()
}

/// `String::push` appends the character to the end of the string.
pub assume_specification[ String::push ](s: &mut String, ch: char)
    ensures
        final(s)@ == old(s)@.push(ch),
;

/// Whether `c` is a decimal digit (`char::is_digit(10)`).
pub open spec fn is_decimal_digit(c: char) -> bool {
    '0' <= c && c <= '9'
}

/// `char::is_digit` with radix 10: true exactly for `'0'..='9'`.
pub fn is_digit10(c: char) -> (r: bool)
    ensures
        r == is_decimal_digit(c),
{
    '0' <= c && c <= '9'
}

/// Whether the text of `s` is exactly the text of `lit`.
pub fn str_is(s: &str, lit: &str) -> (r: bool)
    ensures
        r == (s@ == lit@),
{
    let n = s.unicode_len();
    let m = lit.unicode_len();
    if n != m {
        return false;
    }
    let mut i: usize = 0;
    while i < n
        invariant
            n == s@.len(),
            m == lit@.len(),
            n == m,
            i <= n,
            forall|j: int| 0 <= j < i ==> s@[j] == lit@[j],
        decreases n - i,
    {
        if s.get_char(i) != lit.get_char(i) {
            return false;
        }
        i = i + 1;
    }
    assert(s@ =~= lit@);
    true
}

/// The characters of `code`, in order.
pub fn chars_of(code: &str) -> (v: Vec<char>)
    ensures
        v@ == code@,
{
    let mut v: Vec<char> = Vec::new();
    for c in it: code.chars()
        invariant
            it.seq() == code@,
            v@ == code@.take(it.index() as int),
    {
        v.push(c);
    }
    v
}

} // verus!
