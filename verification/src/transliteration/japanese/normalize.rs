//! What is made of a Japanese title before it is read: spelled letters, marks and
//! characters of full width.

use vstd::prelude::*;

use crate::text::{self, chars_are, chars_of, chars_split, push_chars, push_str, string_of};
use crate::transliteration::spacing::{self, pop_spaces};
use crate::transliteration::width::{self, narrow_char};

verus! {

// ── Spelled letters ────────────────────────────────────────────────────────

/// The Latin letter that a katakana word names.
pub open spec fn letter_named(s: Seq<char>) -> Option<Seq<char>> {
    if s == "エー"@ {
        Some("A"@)
    } else if s == "ビー"@ {
        Some("B"@)
    } else if s == "シー"@ {
        Some("C"@)
    } else if s == "ディー"@ {
        Some("D"@)
    } else if s == "イー"@ {
        Some("E"@)
    } else if s == "エフ"@ {
        Some("F"@)
    } else if s == "ジー"@ {
        Some("G"@)
    } else if s == "エイチ"@ {
        Some("H"@)
    } else if s == "アイ"@ {
        Some("I"@)
    } else if s == "ジェー"@ || s == "ジェイ"@ {
        Some("J"@)
    } else if s == "ケー"@ {
        Some("K"@)
    } else if s == "エル"@ {
        Some("L"@)
    } else if s == "エム"@ {
        Some("M"@)
    } else if s == "エヌ"@ {
        Some("N"@)
    } else if s == "オー"@ {
        Some("O"@)
    } else if s == "ピー"@ {
        Some("P"@)
    } else if s == "キュー"@ {
        Some("Q"@)
    } else if s == "アール"@ {
        Some("R"@)
    } else if s == "エス"@ {
        Some("S"@)
    } else if s == "ティー"@ {
        Some("T"@)
    } else if s == "ユー"@ {
        Some("U"@)
    } else if s == "ブイ"@ {
        Some("V"@)
    } else if s == "ダブリュー"@ {
        Some("W"@)
    } else if s == "エックス"@ {
        Some("X"@)
    } else if s == "ワイ"@ {
        Some("Y"@)
    } else if s == "ゼット"@ || s == "ズィー"@ {
        Some("Z"@)
    } else {
        None
    }
}

fn letter_name(s: &[char]) -> (r: Option<&'static str>)
    ensures
        text::opt_str(r) == letter_named(s@),
{
    if chars_are(s, "エー") {
        Some("A")
    } else if chars_are(s, "ビー") {
        Some("B")
    } else if chars_are(s, "シー") {
        Some("C")
    } else if chars_are(s, "ディー") {
        Some("D")
    } else if chars_are(s, "イー") {
        Some("E")
    } else if chars_are(s, "エフ") {
        Some("F")
    } else if chars_are(s, "ジー") {
        Some("G")
    } else if chars_are(s, "エイチ") {
        Some("H")
    } else if chars_are(s, "アイ") {
        Some("I")
    } else if chars_are(s, "ジェー") || chars_are(s, "ジェイ") {
        Some("J")
    } else if chars_are(s, "ケー") {
        Some("K")
    } else if chars_are(s, "エル") {
        Some("L")
    } else if chars_are(s, "エム") {
        Some("M")
    } else if chars_are(s, "エヌ") {
        Some("N")
    } else if chars_are(s, "オー") {
        Some("O")
    } else if chars_are(s, "ピー") {
        Some("P")
    } else if chars_are(s, "キュー") {
        Some("Q")
    } else if chars_are(s, "アール") {
        Some("R")
    } else if chars_are(s, "エス") {
        Some("S")
    } else if chars_are(s, "ティー") {
        Some("T")
    } else if chars_are(s, "ユー") {
        Some("U")
    } else if chars_are(s, "ブイ") {
        Some("V")
    } else if chars_are(s, "ダブリュー") {
        Some("W")
    } else if chars_are(s, "エックス") {
        Some("X")
    } else if chars_are(s, "ワイ") {
        Some("Y")
    } else if chars_are(s, "ゼット") || chars_are(s, "ズィー") {
        Some("Z")
    } else {
        None
    }
}

/// A katakana letter.
pub open spec fn is_kata(c: char) -> bool {
    0x30A1 <= c as u32 <= 0x30FA || 0x30FC <= c as u32 <= 0x30FF
}

fn char_is_kata(c: char) -> (r: bool)
    ensures
        r == is_kata(c),
{
    let u = c as u32;
    (0x30A1 <= u && u <= 0x30FA) || (0x30FC <= u && u <= 0x30FF)
}

/// Where the katakana from a place on end.
pub open spec fn kata_end(s: Seq<char>, i: int) -> int
    decreases s.len() - i,
{
    if 0 <= i < s.len() && is_kata(s[i]) {
        kata_end(s, i + 1)
    } else {
        i
    }
}

/// A middle dot and another katakana stand at a place.
pub open spec fn is_joined(s: Seq<char>, j: int) -> bool {
    0 <= j && j + 1 < s.len() && s[j] == '・' && is_kata(s[j + 1])
}

proof fn lemma_kata_end(s: Seq<char>, i: int)
    requires
        0 <= i <= s.len(),
    ensures
        i <= kata_end(s, i) <= s.len(),
    decreases s.len() - i,
{
    if i < s.len() && is_kata(s[i]) {
        lemma_kata_end(s, i + 1);
    }
}

/// Where the katakana words from a place on end that middle dots join.
pub open spec fn group_end(s: Seq<char>, i: int) -> int
    decreases s.len() - i,
    when 0 <= i <= s.len()
    via group_end_decreases
{
    let j = kata_end(s, i);
    if is_joined(s, j) {
        group_end(s, j + 1)
    } else {
        j
    }
}

#[via_fn]
proof fn group_end_decreases(s: Seq<char>, i: int) {
    lemma_kata_end(s, i);
}

/// Katakana words that middle dots join begin at a place.
pub open spec fn is_group(s: Seq<char>, i: int) -> bool {
    0 <= i < s.len() && is_kata(s[i]) && is_joined(s, kata_end(s, i))
}

proof fn lemma_group_end(s: Seq<char>, i: int)
    requires
        0 <= i <= s.len(),
    ensures
        kata_end(s, i) <= group_end(s, i) <= s.len(),
        i <= kata_end(s, i),
    decreases s.len() - i,
{
    lemma_kata_end(s, i);
    let j = kata_end(s, i);
    if is_joined(s, j) {
        lemma_group_end(s, j + 1);
    }
}

/// Every word names a letter.
pub open spec fn all_letters(parts: Seq<Seq<char>>) -> bool {
    forall|i: int| 0 <= i < parts.len() ==> letter_named(#[trigger] parts[i]) is Some
}

/// The letters that words name.
pub open spec fn named_letters(parts: Seq<Seq<char>>) -> Seq<char>
    decreases parts.len(),
{
    if parts.len() == 0 {
        Seq::empty()
    } else {
        named_letters(parts.drop_last()) + letter_named(parts.last())->0
    }
}

/// Katakana words that middle dots join: the letters, if each names one.
pub open spec fn acronym(group: Seq<char>) -> Seq<char> {
    if all_letters(text::split(group, '・')) {
        named_letters(text::split(group, '・'))
    } else {
        group
    }
}

/// A title from a place on with its spelled letters as letters.
pub open spec fn despelled(s: Seq<char>, i: int) -> Seq<char>
    decreases s.len() - i,
    when 0 <= i <= s.len()
    via despelled_decreases
{
    if i >= s.len() {
        Seq::empty()
    } else if is_group(s, i) {
        acronym(s.subrange(i, group_end(s, i))) + despelled(s, group_end(s, i))
    } else {
        seq![s[i]] + despelled(s, i + 1)
    }
}

#[via_fn]
proof fn despelled_decreases(s: Seq<char>, i: int) {
    lemma_group_is_not_empty(s, i);
}

proof fn lemma_group_is_not_empty(s: Seq<char>, i: int)
    requires
        0 <= i <= s.len(),
    ensures
        is_group(s, i) ==> i < group_end(s, i) <= s.len(),
{
    lemma_group_end(s, i);
    if is_group(s, i) {
        lemma_kata_end(s, i + 1);
    }
}

fn find_kata_end(s: &[char], i: usize) -> (r: usize)
    requires
        i <= s@.len(),
    ensures
        r == kata_end(s@, i as int),
        i <= r <= s@.len(),
{
    let mut j: usize = i;
    while j < s.len() && char_is_kata(s[j])
        invariant
            i <= j <= s@.len(),
            kata_end(s@, i as int) == kata_end(s@, j as int),
        decreases s@.len() - j,
    {
        j = j + 1;
    }
    j
}

fn joins(s: &[char], j: usize) -> (r: bool)
    requires
        j <= s@.len(),
    ensures
        r == is_joined(s@, j as int),
        s@.len() <= usize::MAX,
{
    let n: usize = s.len();
    j < n && j + 1 < n && s[j] == '・' && char_is_kata(s[j + 1])
}

fn find_group_end(s: &[char], i: usize) -> (r: usize)
    requires
        i <= s@.len(),
    ensures
        r == group_end(s@, i as int),
        i <= r <= s@.len(),
{
    let mut j: usize = find_kata_end(s, i);
    while joins(s, j)
        invariant
            i <= j <= s@.len(),
            j == kata_end(s@, i as int) || i < j,
            group_end(s@, i as int) == (if is_joined(s@, j as int) {
                group_end(s@, j + 1)
            } else {
                j as int
            }),
        decreases s@.len() - j,
    {
        proof {
            lemma_group_end(s@, j + 1);
        }
        j = find_kata_end(s, j + 1);
    }
    j
}

fn push_acronym(out: &mut Vec<char>, group: &[char])
    ensures
        final(out)@ == old(out)@ + acronym(group@),
{
    let parts = chars_split(group, '・');
    let ghost all = text::slices(parts@);
    let mut letters: Vec<char> = Vec::new();
    assert(all.take(0) =~= Seq::<Seq<char>>::empty());
    assert(letters@ =~= Seq::<char>::empty());
    for i in 0..parts.len()
        invariant
            *out == *old(out),
            all == text::slices(parts@),
            all == text::split(group@, '・'),
            letters@ == named_letters(all.take(i as int)),
            forall|k: int| 0 <= k < i ==> letter_named(#[trigger] all[k]) is Some,
    {
        assert(all[i as int] == parts@[i as int]@);
        assert(all.take(i + 1).drop_last() =~= all.take(i as int));
        match letter_name(parts[i]) {
            Some(l) => {
                push_str(&mut letters, l);
            },
            None => {
                assert(!all_letters(all));
                push_chars(out, group);
                return;
            },
        }
    }
    assert(all.take(all.len() as int) =~= all);
    push_chars(out, &letters);
}

fn despell_letters(s: &[char]) -> (r: Vec<char>)
    ensures
        r@ == despelled(s@, 0),
{
    let mut out: Vec<char> = Vec::new();
    let n: usize = s.len();
    let mut i: usize = 0;
    assert(out@ + despelled(s@, 0) =~= despelled(s@, 0));
    while i < n
        invariant
            n == s@.len(),
            i <= n,
            out@ + despelled(s@, i as int) == despelled(s@, 0),
        decreases n - i,
    {
        let ghost before = out@;
        if char_is_kata(s[i]) && joins(s, find_kata_end(s, i)) {
            let e = find_group_end(s, i);
            proof {
                lemma_group_is_not_empty(s@, i as int);
            }
            let group = &s[i..e];
            assert(group@ =~= s@.subrange(i as int, e as int));
            push_acronym(&mut out, group);
            assert(out@ + despelled(s@, e as int) =~= before + (acronym(group@) + despelled(
                s@,
                e as int,
            )));
            i = e;
        } else {
            out.push(s[i]);
            assert(out@ + despelled(s@, i + 1) =~= before + (seq![s@[i as int]] + despelled(
                s@,
                i + 1,
            )));
            i = i + 1;
        }
    }
    assert(out@ + Seq::<char>::empty() =~= out@);
    out
}

// ── Marks ──────────────────────────────────────────────────────────────────

/// The wide space.
pub const MONOSPACE_SPACE: char = '\u{3000}';

/// A dash or tilde that parts a title.
pub open spec fn is_separator(c: char) -> bool {
    c == '\u{FF0D}' || c == '\u{301C}' || c == '\u{FF5E}'
}

/// The letters of a Roman numeral that is one character.
pub open spec fn roman_numeral(c: char) -> Option<Seq<char>> {
    match c {
        '\u{2160}' => Some("I"@),
        '\u{2161}' => Some("II"@),
        '\u{2162}' => Some("III"@),
        '\u{2163}' => Some("IV"@),
        '\u{2164}' => Some("V"@),
        '\u{2165}' => Some("VI"@),
        '\u{2166}' => Some("VII"@),
        '\u{2167}' => Some("VIII"@),
        '\u{2168}' => Some("IX"@),
        '\u{2169}' => Some("X"@),
        '\u{216A}' => Some("XI"@),
        '\u{216B}' => Some("XII"@),
        '\u{216C}' => Some("L"@),
        '\u{216D}' => Some("C"@),
        '\u{216E}' => Some("D"@),
        '\u{216F}' => Some("M"@),
        _ => None,
    }
}

fn read_roman_numeral(c: char) -> (r: Option<&'static str>)
    ensures
        text::opt_str(r) == roman_numeral(c),
{
    match c {
        '\u{2160}' => Some("I"),
        '\u{2161}' => Some("II"),
        '\u{2162}' => Some("III"),
        '\u{2163}' => Some("IV"),
        '\u{2164}' => Some("V"),
        '\u{2165}' => Some("VI"),
        '\u{2166}' => Some("VII"),
        '\u{2167}' => Some("VIII"),
        '\u{2168}' => Some("IX"),
        '\u{2169}' => Some("X"),
        '\u{216A}' => Some("XI"),
        '\u{216B}' => Some("XII"),
        '\u{216C}' => Some("L"),
        '\u{216D}' => Some("C"),
        '\u{216E}' => Some("D"),
        '\u{216F}' => Some("M"),
        _ => None,
    }
}

/// A mark that is left out.
pub open spec fn is_dropped(c: char) -> bool {
    c == '\u{3010}' || c == '\u{3011}' || c == '\u{300C}' || c == '\u{300D}' || c == '\u{309B}'
        || c == '\u{309C}' || c == '\u{3099}' || c == '\u{309A}'
}

/// A character of a title that does not part it.
pub open spec fn folded_char(c: char) -> Seq<char> {
    if c == MONOSPACE_SPACE || c == '\u{30FB}' {
        seq![' ']
    } else if c == '\u{2019}' {
        seq!['\'']
    } else if c == '\u{300E}' || c == '\u{300F}' {
        seq!['"']
    } else if is_dropped(c) {
        Seq::empty()
    } else if c == '\u{3001}' {
        seq![',']
    } else if c == '\u{3002}' {
        seq!['.']
    } else if roman_numeral(c) is Some {
        roman_numeral(c)->0
    } else if width::is_wide(c) {
        seq![width::narrow(c)]
    } else {
        seq![c]
    }
}

/// A title from a place on, behind what was made of it before. What parts a title is a
/// colon behind a wide space, nothing before a wide space, and else a space; the wide
/// spaces beside it are dropped.
pub open spec fn folded(s: Seq<char>, i: int, out: Seq<char>) -> Seq<char>
    decreases s.len() - i,
{
    if i < 0 || i >= s.len() {
        out
    } else if is_separator(s[i]) {
        let before = i > 0 && s[i - 1] == MONOSPACE_SPACE;
        let after = i + 1 < s.len() && s[i + 1] == MONOSPACE_SPACE;
        folded(
            s,
            if after {
                i + 2
            } else {
                i + 1
            },
            if before {
                spacing::drop_spaces(out) + ": "@
            } else if after {
                out
            } else {
                out.push(' ')
            },
        )
    } else {
        folded(s, i + 1, out + folded_char(s[i]))
    }
}

/// A title as it is read.
pub open spec fn normalized(s: Seq<char>) -> Seq<char> {
    folded(despelled(s, 0), 0, Seq::empty())
}

fn push_folded(out: &mut Vec<char>, c: char)
    ensures
        final(out)@ == old(out)@ + folded_char(c),
{
    let ghost before = out@;
    if c == MONOSPACE_SPACE || c == '\u{30FB}' {
        out.push(' ');
    } else if c == '\u{2019}' {
        out.push('\'');
    } else if c == '\u{300E}' || c == '\u{300F}' {
        out.push('"');
    } else if c == '\u{3010}' || c == '\u{3011}' || c == '\u{300C}' || c == '\u{300D}' || c
        == '\u{309B}' || c == '\u{309C}' || c == '\u{3099}' || c == '\u{309A}' {
    } else if c == '\u{3001}' {
        out.push(',');
    } else if c == '\u{3002}' {
        out.push('.');
    } else {
        match read_roman_numeral(c) {
            Some(l) => {
                push_str(out, l);
            },
            None => {
                let u = c as u32;
                if 0xFF01 <= u && u <= 0xFF5E {
                    out.push(narrow_char(c));
                } else {
                    out.push(c);
                }
            },
        }
    }
    assert(out@ =~= before + folded_char(c));
}

/// A title as it is read.
pub fn normalize(input: &str) -> (r: String)
    ensures
        r@ == normalized(input@),
{
    let raw = chars_of(input);
    let chars = despell_letters(&raw);
    let n: usize = chars.len();
    let mut out: Vec<char> = Vec::new();
    let mut i: usize = 0;
    assert(out@ =~= Seq::<char>::empty());
    while i < n
        invariant
            n == chars@.len(),
            i <= n,
            chars@ == despelled(input@, 0),
            folded(chars@, i as int, out@) == normalized(input@),
        decreases n - i,
    {
        let c = chars[i];
        if c == '\u{FF0D}' || c == '\u{301C}' || c == '\u{FF5E}' {
            let before = i > 0 && chars[i - 1] == MONOSPACE_SPACE;
            let after = i + 1 < n && chars[i + 1] == MONOSPACE_SPACE;
            if before {
                pop_spaces(&mut out);
                push_str(&mut out, ": ");
            } else if !after {
                out.push(' ');
            }
            i = if after {
                i + 2
            } else {
                i + 1
            };
        } else {
            push_folded(&mut out, c);
            i = i + 1;
        }
    }
    string_of(&out)
}

// ── Laws ───────────────────────────────────────────────────────────────────

proof fn lemma_no_group(s: Seq<char>, i: int)
    requires
        0 <= i <= s.len(),
        forall|k: int| 0 <= k < s.len() ==> (#[trigger] s[k] as u32) < 128,
    ensures
        despelled(s, i) == s.skip(i),
    decreases s.len() - i,
{
    if i < s.len() {
        assert((s[i] as u32) < 128);
        lemma_no_group(s, i + 1);
        assert(s.skip(i) =~= seq![s[i]] + s.skip(i + 1));
    } else {
        assert(s.skip(i) =~= Seq::<char>::empty());
    }
}

proof fn lemma_nothing_to_fold(s: Seq<char>, i: int, out: Seq<char>)
    requires
        0 <= i <= s.len(),
        forall|k: int| 0 <= k < s.len() ==> (#[trigger] s[k] as u32) < 128,
    ensures
        folded(s, i, out) == out + s.skip(i),
    decreases s.len() - i,
{
    if i < s.len() {
        assert((s[i] as u32) < 128);
        lemma_nothing_to_fold(s, i + 1, out + folded_char(s[i]));
        assert(roman_numeral(s[i]) is None);
        assert(folded_char(s[i]) =~= seq![s[i]]);
        assert(out + seq![s[i]] + s.skip(i + 1) =~= out + s.skip(i));
    } else {
        assert(out + s.skip(i) =~= out);
    }
}

/// A title of ASCII characters, hyphens among them, stays as it is.
pub proof fn law_ascii_titles_stay(s: Seq<char>)
    requires
        forall|k: int| 0 <= k < s.len() ==> (#[trigger] s[k] as u32) < 128,
    ensures
        normalized(s) == s,
{
    lemma_no_group(s, 0);
    assert(s.skip(0) =~= s);
    lemma_nothing_to_fold(s, 0, Seq::empty());
    assert(Seq::<char>::empty() + s =~= s);
}

} // verus!
