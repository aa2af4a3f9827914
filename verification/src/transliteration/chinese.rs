//! Chinese titles: one syllable of Pinyin for each character, without tones.

use vstd::prelude::*;

use crate::text::{
    self, char_is_alnum, char_is_space, char_upper, chars_of, chars_trim, push_chars, string_of,
};
use crate::transliteration::output::{
    FailureView, OutputView, Script, TransliterationError, TransliterationOutput, Transliterator,
};
use crate::transliteration::spacing::{self, collapse_spaces, pop_spaces};
use crate::transliteration::width::{self, narrow_char};

verus! {

/// What writes Chinese titles in Latin letters.
pub struct ChineseTransliterator;

impl ChineseTransliterator {
    /// What writes Chinese titles in Latin letters.
    pub fn new() -> (r: ChineseTransliterator)
        ensures
            r == ChineseTransliterator,
    {
        ChineseTransliterator
    }
}

/// The syllable of a Han character in the first of its readings, without the tone; none
/// for a character that is not in the tables.
pub uninterp spec fn plain_pinyin(c: char) -> Option<Seq<char>>;

/// `pinyin::ToPinyin::to_pinyin` of a character, and `Pinyin::plain`: the syllable is a
/// function of the character.
#[verifier::external_body]
fn to_plain_pinyin(c: char) -> (r: Option<String>)
    ensures
        text::opt_text(r) == plain_pinyin(c),
{
    match pinyin::ToPinyin::to_pinyin(&c) {
        Some(p) => Some(p.plain().to_string()),
        None => None,
    }
}

/// What stands before a character.
#[derive(Clone, Copy, PartialEq, Eq, Structural)]
pub enum Boundary {
    Start,
    PinyinWord,
    AsciiWord,
    Space,
    Punctuation(char),
}

/// A draft while it is written: the text, what it ends with, and whether a character was
/// not in the tables.
pub struct Written {
    pub out: Seq<char>,
    pub prev: Boundary,
    pub unknown: bool,
}

/// A Han character.
pub open spec fn is_han(c: char) -> bool {
    let u = c as u32;
    ||| 0x3400 <= u <= 0x4DBF
    ||| 0x4E00 <= u <= 0x9FFF
    ||| 0xF900 <= u <= 0xFAFF
    ||| 0x20000 <= u <= 0x2A6DF
    ||| 0x2A700 <= u <= 0x2B73F
    ||| 0x2B740 <= u <= 0x2B81F
    ||| 0x2B820 <= u <= 0x2CEAF
    ||| 0x2CEB0 <= u <= 0x2EBEF
    ||| 0x30000 <= u <= 0x3134F
}

fn char_is_han(c: char) -> (r: bool)
    ensures
        r == is_han(c),
{
    let u = c as u32;
    (0x3400 <= u && u <= 0x4DBF) || (0x4E00 <= u && u <= 0x9FFF) || (0xF900 <= u && u <= 0xFAFF)
        || (0x20000 <= u && u <= 0x2A6DF) || (0x2A700 <= u && u <= 0x2B73F) || (0x2B740 <= u && u
        <= 0x2B81F) || (0x2B820 <= u && u <= 0x2CEAF) || (0x2CEB0 <= u && u <= 0x2EBEF) || (0x30000
        <= u && u <= 0x3134F)
}

/// A character as it is written in Latin text.
pub open spec fn western(c: char) -> char {
    let u = c as u32;
    if u == 0x3000 {
        ' '
    } else if u == 0x3001 || u == 0xFF0C {
        ','
    } else if u == 0x3002 || u == 0xFF0E {
        '.'
    } else if u == 0x3008 || u == 0x300A || u == 0x300C || u == 0x300E || u == 0x3010 {
        '['
    } else if u == 0x3009 || u == 0x300B || u == 0x300D || u == 0x300F || u == 0x3011 {
        ']'
    } else if u == 0xFF08 {
        '('
    } else if u == 0xFF09 {
        ')'
    } else if u == 0xFF0D {
        '-'
    } else if u == 0xFF0F {
        '/'
    } else if u == 0xFF1A {
        ':'
    } else if u == 0xFF1B {
        ';'
    } else if u == 0xFF01 {
        '!'
    } else if u == 0xFF1F {
        '?'
    } else if 0xFF21 <= u <= 0xFF3A || 0xFF41 <= u <= 0xFF5A || 0xFF10 <= u <= 0xFF19 {
        width::narrow(c)
    } else {
        c
    }
}

fn normalize_char(c: char) -> (r: char)
    ensures
        r == western(c),
{
    let u = c as u32;
    if u == 0x3000 {
        ' '
    } else if u == 0x3001 || u == 0xFF0C {
        ','
    } else if u == 0x3002 || u == 0xFF0E {
        '.'
    } else if u == 0x3008 || u == 0x300A || u == 0x300C || u == 0x300E || u == 0x3010 {
        '['
    } else if u == 0x3009 || u == 0x300B || u == 0x300D || u == 0x300F || u == 0x3011 {
        ']'
    } else if u == 0xFF08 {
        '('
    } else if u == 0xFF09 {
        ')'
    } else if u == 0xFF0D {
        '-'
    } else if u == 0xFF0F {
        '/'
    } else if u == 0xFF1A {
        ':'
    } else if u == 0xFF1B {
        ';'
    } else if u == 0xFF01 {
        '!'
    } else if u == 0xFF1F {
        '?'
    } else if (0xFF21 <= u && u <= 0xFF3A) || (0xFF41 <= u && u <= 0xFF5A) || (0xFF10 <= u && u
        <= 0xFF19) {
        narrow_char(c)
    } else {
        c
    }
}

/// A text with a space at its end unless it is empty or has one.
pub open spec fn spaced(s: Seq<char>) -> Seq<char> {
    if s.len() > 0 && s.last() != ' ' {
        s.push(' ')
    } else {
        s
    }
}

fn push_space(out: &mut Vec<char>)
    ensures
        final(out)@ == spaced(old(out)@),
{
    let n: usize = out.len();
    if n > 0 && out[n - 1] != ' ' {
        out.push(' ');
    }
}

/// A bracket or quotation mark that a word follows without a space.
pub open spec fn is_opening(c: char) -> bool {
    c == '(' || c == '[' || c == '{' || c == '"' || c == '\''
}

/// A text followed by a word: with a space between them unless the text is empty, ends
/// with one, or ends with what a word follows at once.
pub open spec fn with_word(s: Seq<char>, prev: Boundary, word: Seq<char>) -> Seq<char> {
    let apart = s.len() > 0 && prev != Boundary::Start && prev != Boundary::Space && !(
    prev matches Boundary::Punctuation(c) && is_opening(c));
    (if apart {
        s.push(' ')
    } else {
        s
    }) + word
}

fn push_pinyin_word(out: &mut Vec<char>, prev: Boundary, word: &[char])
    ensures
        final(out)@ == with_word(old(out)@, prev, word@),
{
    let joins = match prev {
        Boundary::Start => true,
        Boundary::Space => true,
        Boundary::Punctuation(c) => c == '(' || c == '[' || c == '{' || c == '"' || c == '\'',
        Boundary::PinyinWord => false,
        Boundary::AsciiWord => false,
    };
    if out.len() > 0 && !joins {
        out.push(' ');
    }
    push_chars(out, word);
}

/// A text followed by a character that is no letter or digit: what closes stands at the
/// text, and some of it is followed by a space; what joins stands at the text; what opens
/// stands apart from it; and all else stands apart from both sides.
pub open spec fn with_mark(s: Seq<char>, c: char) -> Seq<char> {
    if c == ':' || c == ';' || c == ',' || c == '.' {
        spacing::drop_spaces(s).push(c).push(' ')
    } else if c == ')' || c == ']' || c == '}' || c == '!' || c == '?' || c == '-' || c == '/' || c
        == '\'' || c == '"' {
        spacing::drop_spaces(s).push(c)
    } else if c == '(' || c == '[' || c == '{' {
        spaced(s).push(c)
    } else {
        spaced(s).push(c).push(' ')
    }
}

fn push_punctuation(out: &mut Vec<char>, c: char)
    ensures
        final(out)@ == with_mark(old(out)@, c),
{
    if c == ':' || c == ';' || c == ',' || c == '.' {
        pop_spaces(out);
        out.push(c);
        out.push(' ');
    } else if c == ')' || c == ']' || c == '}' || c == '!' || c == '?' || c == '-' || c == '/' || c
        == '\'' || c == '"' {
        pop_spaces(out);
        out.push(c);
    } else if c == '(' || c == '[' || c == '{' {
        push_space(out);
        out.push(c);
    } else {
        push_space(out);
        out.push(c);
        out.push(' ');
    }
}

/// A text that begins with a capital of ASCII.
pub open spec fn title_cased(s: Seq<char>) -> Seq<char> {
    if s.len() == 0 {
        s
    } else {
        s.update(0, text::upper(s[0]))
    }
}

fn capitalize_ascii(s: &str) -> (r: Vec<char>)
    ensures
        r@ == title_cased(s@),
{
    let mut chars = chars_of(s);
    if chars.len() > 0 {
        let c = char_upper(chars[0]);
        chars.set(0, c);
    }
    chars
}

/// A draft with one more character of the title.
pub open spec fn write_one(w: Written, c: char) -> Written {
    if text::is_space(c) {
        Written { out: spaced(w.out), prev: Boundary::Space, unknown: w.unknown }
    } else if is_han(c) {
        match plain_pinyin(c) {
            Some(p) => Written {
                out: with_word(w.out, w.prev, title_cased(p)),
                prev: Boundary::PinyinWord,
                unknown: w.unknown,
            },
            None => Written {
                out: with_word(w.out, w.prev, seq![c]),
                prev: Boundary::PinyinWord,
                unknown: true,
            },
        }
    } else if text::is_alnum(western(c)) {
        Written {
            out: (if w.prev == Boundary::PinyinWord {
                w.out.push(' ')
            } else {
                w.out
            }).push(western(c)),
            prev: Boundary::AsciiWord,
            unknown: w.unknown,
        }
    } else {
        Written {
            out: with_mark(w.out, western(c)),
            prev: Boundary::Punctuation(western(c)),
            unknown: w.unknown,
        }
    }
}

/// The draft of the first `n` characters of a title.
pub open spec fn write_all(s: Seq<char>, n: int) -> Written
    decreases n,
{
    if n <= 0 {
        Written { out: Seq::empty(), prev: Boundary::Start, unknown: false }
    } else {
        write_one(write_all(s, n - 1), s[n - 1])
    }
}

/// The draft of a Chinese title.
pub open spec fn chinese_draft(s: Seq<char>) -> OutputView {
    let w = write_all(s, s.len() as int);
    OutputView {
        text: spacing::single_spaced(text::trim(w.out)),
        script: Script::Chinese,
        notes: if w.unknown {
            seq!["Some Han characters were not found in the pinyin dictionary."@]
        } else {
            Seq::empty()
        },
    }
}

fn push_one(out: &mut Vec<char>, prev: Boundary, unknown: bool, c: char) -> (r: (Boundary, bool))
    ensures
        (Written { out: final(out)@, prev: r.0, unknown: r.1 }) == write_one(
            Written { out: old(out)@, prev, unknown },
            c,
        ),
{
    if char_is_space(c) {
        push_space(out);
        return (Boundary::Space, unknown);
    }
    if char_is_han(c) {
        match to_plain_pinyin(c) {
            Some(p) => {
                let word = capitalize_ascii(p.as_str());
                push_pinyin_word(out, prev, &word);
                return (Boundary::PinyinWord, unknown);
            },
            None => {
                let mut word: Vec<char> = Vec::new();
                word.push(c);
                assert(word@ =~= seq![c]);
                push_pinyin_word(out, prev, &word);
                return (Boundary::PinyinWord, true);
            },
        }
    }
    let w = normalize_char(c);
    if char_is_alnum(w) {
        match prev {
            Boundary::PinyinWord => {
                out.push(' ');
            },
            _ => {},
        }
        out.push(w);
        (Boundary::AsciiWord, unknown)
    } else {
        push_punctuation(out, w);
        (Boundary::Punctuation(w), unknown)
    }
}

impl Transliterator for ChineseTransliterator {
    open spec fn reads(&self) -> Script {
        Script::Chinese
    }

    open spec fn drafts(&self, input: Seq<char>) -> Result<OutputView, FailureView> {
        Ok(chinese_draft(input))
    }

    fn script(&self) -> (r: Script) {
        Script::Chinese
    }

    fn transliterate(&self, input: &str) -> (r: Result<TransliterationOutput, TransliterationError>) {
        let chars = chars_of(input);
        let mut out: Vec<char> = Vec::new();
        let mut prev = Boundary::Start;
        let mut unknown = false;
        assert(out@ =~= Seq::<char>::empty());
        for i in 0..chars.len()
            invariant
                chars@ == input@,
                (Written { out: out@, prev, unknown }) == write_all(input@, i as int),
        {
            let next = push_one(&mut out, prev, unknown, chars[i]);
            prev = next.0;
            unknown = next.1;
        }
        let text = string_of(&collapse_spaces(chars_trim(&out)));
        let mut notes: Vec<String> = Vec::new();
        if unknown {
            notes.push(
                String::from_str("Some Han characters were not found in the pinyin dictionary."),
            );
        }
        assert(text::texts(notes@) =~= chinese_draft(input@).notes);
        Ok(TransliterationOutput { text, script: Script::Chinese, notes })
    }
}

/// No two spaces follow each other in the draft of a Chinese title.
pub proof fn law_drafts_are_single_spaced(s: Seq<char>, i: int)
    requires
        0 <= i < chinese_draft(s).text.len() - 1,
    ensures
        !(chinese_draft(s).text[i] == ' ' && chinese_draft(s).text[i + 1] == ' '),
{
    spacing::law_no_space_is_doubled(text::trim(write_all(s, s.len() as int).out), i);
}

} // verus!
