//! The script of a title.

use vstd::prelude::*;

use crate::text::chars_of;
use crate::transliteration::output::Script;

verus! {

/// A Japanese syllable sign.
pub open spec fn is_kana(c: char) -> bool {
    0x3040 <= c as u32 <= 0x30FF || 0x31F0 <= c as u32 <= 0x31FF
}

/// A Han character of the common blocks.
pub open spec fn is_common_han(c: char) -> bool {
    0x3400 <= c as u32 <= 0x4DBF || 0x4E00 <= c as u32 <= 0x9FFF
}

/// A character that is read as Japanese.
pub open spec fn is_japanese_char(c: char) -> bool {
    is_kana(c) || is_common_han(c)
}

/// Whether a character is read as Japanese.
pub fn char_is_japanese(c: char) -> (r: bool)
    ensures
        r == is_japanese_char(c),
{
    let u = c as u32;
    (0x3040 <= u && u <= 0x30FF) || (0x31F0 <= u && u <= 0x31FF) || (0x3400 <= u && u <= 0x4DBF)
        || (0x4E00 <= u && u <= 0x9FFF)
}

/// A text holds a character that is read as Japanese.
pub open spec fn has_japanese(s: Seq<char>) -> bool {
    exists|i: int| 0 <= i < s.len() && is_japanese_char(#[trigger] s[i])
}

/// The script of a title, or none where nothing is to be written in other letters. Any
/// syllable sign makes a title Japanese; so do Han characters alone.
pub fn detect_script(input: &str) -> (r: Option<Script>)
    ensures
        r == (if has_japanese(input@) {
            Some(Script::Japanese)
        } else {
            None
        }),
{
    let chars = chars_of(input);
    for i in 0..chars.len()
        invariant
            chars@ == input@,
            forall|k: int| 0 <= k < i ==> !is_japanese_char(#[trigger] input@[k]),
    {
        if char_is_japanese(chars[i]) {
            assert(is_japanese_char(input@[i as int]));
            return Some(Script::Japanese);
        }
    }
    None
}

} // verus!
