//! Case mapping and character classes that need the Unicode tables.

use vstd::prelude::*;

use crate::text;

verus! {

/// The capital form of a text by the Unicode tables.
pub uninterp spec fn uppercase(s: Seq<char>) -> Seq<char>;

/// The small form of a text by the Unicode tables.
pub uninterp spec fn lowercase(s: Seq<char>) -> Seq<char>;

/// The small form of one character by the Unicode tables.
pub uninterp spec fn char_lowercase(c: char) -> Seq<char>;

/// The capital form of one character by the Unicode tables.
pub uninterp spec fn char_uppercase(c: char) -> Seq<char>;

/// The Unicode property `Uppercase`.
pub uninterp spec fn is_uppercase(c: char) -> bool;

/// The Unicode property `Alphabetic`.
pub uninterp spec fn is_alphabetic(c: char) -> bool;

/// The Unicode properties `Alphabetic` and the numeric ones.
pub uninterp spec fn is_alphanumeric(c: char) -> bool;

/// `s` holds ASCII characters only.
pub open spec fn is_ascii_text(s: Seq<char>) -> bool {
    forall|i: int| 0 <= i < s.len() ==> (#[trigger] s[i] as int) < 128
}

/// The capital form of a text: that of its ASCII letters where it has no other
/// characters, else that of the Unicode tables once its ASCII letters are capitals.
pub open spec fn capitals(s: Seq<char>) -> Seq<char> {
    if is_ascii_text(s) {
        text::upper_text(s)
    } else {
        uppercase(text::upper_text(s))
    }
}

/// `str::to_uppercase`: a function of the text alone; on ASCII text it changes the
/// small letters only. Each character is mapped by itself, and a small ASCII letter to
/// what its capital is mapped to, so that the text with ASCII capitals gives the same.
#[verifier::external_body]
pub(crate) fn to_uppercase(s: &str) -> (r: String)
    ensures
        r@ == uppercase(s@),
        r@ == uppercase(text::upper_text(s@)),
        is_ascii_text(s@) ==> r@ == text::upper_text(s@),
{
    s.to_uppercase()
}

/// `str::to_lowercase`: a function of the text alone; on ASCII text it changes the
/// capitals only.
#[verifier::external_body]
pub(crate) fn to_lowercase(s: &str) -> (r: String)
    ensures
        r@ == lowercase(s@),
        is_ascii_text(s@) ==> r@ == text::lower_text(s@),
{
    s.to_lowercase()
}

/// `char::to_lowercase`, its characters gathered into a string; an ASCII character
/// gives its small form.
#[verifier::external_body]
pub(crate) fn char_to_lowercase(c: char) -> (r: String)
    ensures
        r@ == char_lowercase(c),
        (c as int) < 128 ==> r@ == seq![text::lower(c)],
{
    c.to_lowercase().to_string()
}

/// `char::to_uppercase`, its characters gathered into a string; an ASCII character
/// gives its capital form.
#[verifier::external_body]
pub(crate) fn char_to_uppercase(c: char) -> (r: String)
    ensures
        r@ == char_uppercase(c),
        (c as int) < 128 ==> r@ == seq![text::upper(c)],
{
    c.to_uppercase().to_string()
}

/// `char::is_uppercase`: of the ASCII characters, the capitals have the property.
#[verifier::external_body]
pub(crate) fn char_is_uppercase(c: char) -> (r: bool)
    ensures
        r == is_uppercase(c),
        (c as int) < 128 ==> r == ('A' <= c <= 'Z'),
{
    c.is_uppercase()
}

/// `char::is_alphabetic`: of the ASCII characters, the letters have the property.
#[verifier::external_body]
pub(crate) fn char_is_alphabetic(c: char) -> (r: bool)
    ensures
        r == is_alphabetic(c),
        (c as int) < 128 ==> r == text::is_letter(c),
{
    c.is_alphabetic()
}

/// `char::is_alphanumeric`: of the ASCII characters, the letters and digits have the
/// property.
#[verifier::external_body]
pub(crate) fn char_is_alphanumeric(c: char) -> (r: bool)
    ensures
        r == is_alphanumeric(c),
        (c as int) < 128 ==> r == text::is_alnum(c),
{
    c.is_alphanumeric()
}

} // verus!
