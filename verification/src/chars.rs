//! Character classification and conversions that come from `std`.
//!
//! Unicode tables take pages to state, so what `std` answers for a
//! character is named here and the library's own logic is stated over
//! those names.

use vstd::prelude::*;

verus! {

/// What `regex_syntax::is_word_character` answers for `c`: whether `c`
/// is in the Unicode `\w` class.
pub uninterp spec fn regex_is_word_char(c: char) -> bool;

/// What `char::is_whitespace` answers for `c`.
pub uninterp spec fn std_is_whitespace(c: char) -> bool;

/// Whitespace as `char::is_whitespace` decides it; the space character,
/// for which `std` answers `true`, is spelled out.
pub open spec fn char_is_whitespace(c: char) -> bool {
    c == ' ' || std_is_whitespace(c)
}

/// The characters that `char::to_lowercase` yields for `c`.
pub uninterp spec fn char_lowercase(c: char) -> Seq<char>;

/// Calls `regex_syntax::is_word_character`: whether `c` is in the Unicode
/// `\w` class (`Alphabetic`, `Join_Control`, `Decimal_Number`, `Mark`,
/// `Connector_Punctuation`). The contract names the answer and states the
/// answer for ASCII characters, which the function's byte fast path and
/// the head of its `PERL_WORD` table give: a letter, a digit or `_`.
/// (The function panics only without the crate's `unicode-perl` feature,
/// which the default features enable.)
#[verifier::external_body]
pub(crate) fn is_word_character(c: char) -> (r: bool)
    ensures
        r == regex_is_word_char(c),
        (c as u32) < 128 ==> (r <==> (('a' <= c && c <= 'z') || ('A' <= c && c <= 'Z') || (
        '0' <= c && c <= '9') || c == '_')),
{
    regex_syntax::is_word_character(c)
}

/// Calls `char::is_whitespace` (Unicode `White_Space`); the contract
/// names the answer and states that the space character is whitespace.
#[verifier::external_body]
fn std_whitespace(c: char) -> (r: bool)
    ensures
        r == std_is_whitespace(c),
        c == ' ' ==> r,
{
    c.is_whitespace()
}

/// Whether `c` is whitespace.
pub(crate) fn is_whitespace(c: char) -> (r: bool)
    ensures
        r == char_is_whitespace(c),
{
    std_whitespace(c)
}

/// Calls `char::to_lowercase` and collects what it yields;
/// the contract only names the characters.
#[verifier::external_body]
pub(crate) fn lowercase(c: char) -> (r: Vec<char>)
    ensures
        r@ == char_lowercase(c),
{
    c.to_lowercase().collect()
}

/// Collects the characters of a vector into a `String`
/// (`String`'s `FromIterator<&char>`); the string holds exactly those characters.
#[verifier::external_body]
pub(crate) fn string_from_chars(v: &Vec<char>) -> (s: String)
    ensures
        s@ == v@,
{
    String::from_iter(v.iter())
}

/// The characters of a string slice, in order.
pub fn chars_of(s: &str) -> (v: Vec<char>)
    ensures
        v@ == s@,
{
    let mut v: Vec<char> = Vec::new();
    for c in it: s.chars()
        invariant
            it.seq() == s@,
            v@ == it.seq().take(it.index() as int),
    {
        v.push(c);
    }
    v
}

} // verus!
