//! Japanese syllable signs in Latin letters, by the rules of Hepburn.

use vstd::prelude::*;

use crate::text::{self, chars_of, chars_start_with, push_chars, push_str, str_eq, string_of};

verus! {

// ── Long vowels ────────────────────────────────────────────────────────────

/// A vowel with a macron as two letters.
pub open spec fn long_vowel(c: char) -> Option<Seq<char>> {
    match c {
        'ā' => Some("aa"@),
        'ē' => Some("ee"@),
        'ī' => Some("ii"@),
        'ō' => Some("ou"@),
        'ū' => Some("uu"@),
        'Ā' => Some("Aa"@),
        'Ē' => Some("Ee"@),
        'Ī' => Some("Ii"@),
        'Ō' => Some("Ou"@),
        'Ū' => Some("Uu"@),
        _ => None,
    }
}

/// A text with every vowel with a macron as two letters.
pub open spec fn without_macrons(s: Seq<char>) -> Seq<char>
    decreases s.len(),
{
    if s.len() == 0 {
        s
    } else {
        without_macrons(s.drop_last()) + match long_vowel(s.last()) {
            Some(v) => v,
            None => seq![s.last()],
        }
    }
}

fn read_long_vowel(c: char) -> (r: Option<&'static str>)
    ensures
        text::opt_str(r) == long_vowel(c),
{
    match c {
        'ā' => Some("aa"),
        'ē' => Some("ee"),
        'ī' => Some("ii"),
        'ō' => Some("ou"),
        'ū' => Some("uu"),
        'Ā' => Some("Aa"),
        'Ē' => Some("Ee"),
        'Ī' => Some("Ii"),
        'Ō' => Some("Ou"),
        'Ū' => Some("Uu"),
        _ => None,
    }
}

/// A text with every vowel with a macron as two letters.
pub fn expand_macrons(input: &str) -> (r: String)
    ensures
        r@ == without_macrons(input@),
{
    let chars = chars_of(input);
    let mut out: Vec<char> = Vec::new();
    assert(input@.take(0) =~= out@);
    for i in 0..chars.len()
        invariant
            chars@ == input@,
            out@ == without_macrons(input@.take(i as int)),
    {
        assert(input@.take(i + 1).drop_last() =~= input@.take(i as int));
        let ghost before = out@;
        match read_long_vowel(chars[i]) {
            Some(v) => {
                push_str(&mut out, v);
            },
            None => {
                out.push(chars[i]);
                assert(out@ =~= before + seq![input@[i as int]]);
            },
        }
    }
    assert(input@.take(input@.len() as int) =~= input@);
    string_of(&out)
}

// ── Signs ──────────────────────────────────────────────────────────────────

/// A hiragana that has a katakana.
pub open spec fn is_hiragana(c: char) -> bool {
    0x3041 <= c as u32 <= 0x3096
}

/// A syllable sign as katakana.
pub open spec fn katakana(c: char) -> char {
    if is_hiragana(c) {
        ((c as u32 + 0x60) as u32) as char
    } else {
        c
    }
}

/// A text with its syllable signs as katakana.
pub open spec fn in_katakana(s: Seq<char>) -> Seq<char> {
    s.map_values(|c: char| katakana(c))
}

/// `char::from_u32`, which gives the character of a number that is one: here of the
/// numbers of katakana.
#[verifier::external_body]
fn char_of(u: u32) -> (r: char)
    requires
        u < 0xD800,
    ensures
        r == u as char,
{
    char::from_u32(u).unwrap_or(' ')
}

fn to_katakana(s: &[char]) -> (r: Vec<char>)
    ensures
        r@ == in_katakana(s@),
{
    let mut out: Vec<char> = Vec::new();
    for i in 0..s.len()
        invariant
            out@ == in_katakana(s@.take(i as int)),
    {
        let u = s[i] as u32;
        let ghost before = out@;
        if 0x3041 <= u && u <= 0x3096 {
            out.push(char_of(u + 0x60));
        } else {
            out.push(s[i]);
        }
        assert(s@.take(i + 1) =~= s@.take(i as int).push(s@[i as int]));
        assert(in_katakana(s@.take(i + 1)) =~= in_katakana(s@.take(i as int)).push(
            katakana(s@[i as int]),
        ));
    }
    assert(s@.take(s@.len() as int) =~= s@);
    out
}

/// A Latin vowel.
pub open spec fn is_vowel(c: char) -> bool {
    c == 'a' || c == 'e' || c == 'i' || c == 'o' || c == 'u'
}

fn char_is_vowel(c: char) -> (r: bool)
    ensures
        r == is_vowel(c),
{
    c == 'a' || c == 'e' || c == 'i' || c == 'o' || c == 'u'
}

/// The vowel of a small vowel sign.
pub open spec fn small_vowel(c: char) -> Option<char> {
    match c {
        'ァ' => Some('a'),
        'ィ' => Some('i'),
        'ゥ' => Some('u'),
        'ェ' => Some('e'),
        'ォ' => Some('o'),
        _ => None,
    }
}

fn read_small_vowel(c: char) -> (r: Option<char>)
    ensures
        r == small_vowel(c),
{
    match c {
        'ァ' => Some('a'),
        'ィ' => Some('i'),
        'ゥ' => Some('u'),
        'ェ' => Some('e'),
        'ォ' => Some('o'),
        _ => None,
    }
}

/// The vowel of a small sign for a glide.
pub open spec fn glide_vowel(c: char) -> Option<char> {
    match c {
        'ャ' => Some('a'),
        'ュ' => Some('u'),
        'ョ' => Some('o'),
        _ => None,
    }
}

fn read_glide_vowel(c: char) -> (r: Option<char>)
    ensures
        r == glide_vowel(c),
{
    match c {
        'ャ' => Some('a'),
        'ュ' => Some('u'),
        'ョ' => Some('o'),
        _ => None,
    }
}

/// The syllable of a katakana.
pub open spec fn syllable(c: char) -> Option<Seq<char>> {
    match c {
        'ア' => Some("a"@),
        'イ' => Some("i"@),
        'ウ' => Some("u"@),
        'エ' => Some("e"@),
        'オ' => Some("o"@),
        'カ' => Some("ka"@),
        'キ' => Some("ki"@),
        'ク' => Some("ku"@),
        'ケ' => Some("ke"@),
        'コ' => Some("ko"@),
        'ガ' => Some("ga"@),
        'ギ' => Some("gi"@),
        'グ' => Some("gu"@),
        'ゲ' => Some("ge"@),
        'ゴ' => Some("go"@),
        'サ' => Some("sa"@),
        'シ' => Some("shi"@),
        'ス' => Some("su"@),
        'セ' => Some("se"@),
        'ソ' => Some("so"@),
        'ザ' => Some("za"@),
        'ジ' => Some("ji"@),
        'ズ' => Some("zu"@),
        'ゼ' => Some("ze"@),
        'ゾ' => Some("zo"@),
        'タ' => Some("ta"@),
        'チ' => Some("chi"@),
        'ツ' => Some("tsu"@),
        'テ' => Some("te"@),
        'ト' => Some("to"@),
        'ダ' => Some("da"@),
        'ヂ' => Some("ji"@),
        'ヅ' => Some("zu"@),
        'デ' => Some("de"@),
        'ド' => Some("do"@),
        'ナ' => Some("na"@),
        'ニ' => Some("ni"@),
        'ヌ' => Some("nu"@),
        'ネ' => Some("ne"@),
        'ノ' => Some("no"@),
        'ハ' => Some("ha"@),
        'ヒ' => Some("hi"@),
        'フ' => Some("fu"@),
        'ヘ' => Some("he"@),
        'ホ' => Some("ho"@),
        'バ' => Some("ba"@),
        'ビ' => Some("bi"@),
        'ブ' => Some("bu"@),
        'ベ' => Some("be"@),
        'ボ' => Some("bo"@),
        'パ' => Some("pa"@),
        'ピ' => Some("pi"@),
        'プ' => Some("pu"@),
        'ペ' => Some("pe"@),
        'ポ' => Some("po"@),
        'マ' => Some("ma"@),
        'ミ' => Some("mi"@),
        'ム' => Some("mu"@),
        'メ' => Some("me"@),
        'モ' => Some("mo"@),
        'ヤ' => Some("ya"@),
        'ユ' => Some("yu"@),
        'ヨ' => Some("yo"@),
        'ラ' => Some("ra"@),
        'リ' => Some("ri"@),
        'ル' => Some("ru"@),
        'レ' => Some("re"@),
        'ロ' => Some("ro"@),
        'ワ' => Some("wa"@),
        'ヰ' => Some("wi"@),
        'ヱ' => Some("we"@),
        'ヲ' => Some("o"@),
        'ヴ' => Some("vu"@),
        'ヶ' => Some("ga"@),
        'ヵ' => Some("ka"@),
        _ => None,
    }
}

fn kata_base(c: char) -> (r: Option<&'static str>)
    ensures
        text::opt_str(r) == syllable(c),
{
    match c {
        'ア' => Some("a"),
        'イ' => Some("i"),
        'ウ' => Some("u"),
        'エ' => Some("e"),
        'オ' => Some("o"),
        'カ' => Some("ka"),
        'キ' => Some("ki"),
        'ク' => Some("ku"),
        'ケ' => Some("ke"),
        'コ' => Some("ko"),
        'ガ' => Some("ga"),
        'ギ' => Some("gi"),
        'グ' => Some("gu"),
        'ゲ' => Some("ge"),
        'ゴ' => Some("go"),
        'サ' => Some("sa"),
        'シ' => Some("shi"),
        'ス' => Some("su"),
        'セ' => Some("se"),
        'ソ' => Some("so"),
        'ザ' => Some("za"),
        'ジ' => Some("ji"),
        'ズ' => Some("zu"),
        'ゼ' => Some("ze"),
        'ゾ' => Some("zo"),
        'タ' => Some("ta"),
        'チ' => Some("chi"),
        'ツ' => Some("tsu"),
        'テ' => Some("te"),
        'ト' => Some("to"),
        'ダ' => Some("da"),
        'ヂ' => Some("ji"),
        'ヅ' => Some("zu"),
        'デ' => Some("de"),
        'ド' => Some("do"),
        'ナ' => Some("na"),
        'ニ' => Some("ni"),
        'ヌ' => Some("nu"),
        'ネ' => Some("ne"),
        'ノ' => Some("no"),
        'ハ' => Some("ha"),
        'ヒ' => Some("hi"),
        'フ' => Some("fu"),
        'ヘ' => Some("he"),
        'ホ' => Some("ho"),
        'バ' => Some("ba"),
        'ビ' => Some("bi"),
        'ブ' => Some("bu"),
        'ベ' => Some("be"),
        'ボ' => Some("bo"),
        'パ' => Some("pa"),
        'ピ' => Some("pi"),
        'プ' => Some("pu"),
        'ペ' => Some("pe"),
        'ポ' => Some("po"),
        'マ' => Some("ma"),
        'ミ' => Some("mi"),
        'ム' => Some("mu"),
        'メ' => Some("me"),
        'モ' => Some("mo"),
        'ヤ' => Some("ya"),
        'ユ' => Some("yu"),
        'ヨ' => Some("yo"),
        'ラ' => Some("ra"),
        'リ' => Some("ri"),
        'ル' => Some("ru"),
        'レ' => Some("re"),
        'ロ' => Some("ro"),
        'ワ' => Some("wa"),
        'ヰ' => Some("wi"),
        'ヱ' => Some("we"),
        'ヲ' => Some("o"),
        'ヴ' => Some("vu"),
        'ヶ' => Some("ga"),
        'ヵ' => Some("ka"),
        _ => None,
    }
}

/// The consonants that a syllable begins with.
pub open spec fn onset(s: Seq<char>) -> Seq<char>
    decreases s.len(),
{
    if s.len() == 0 || is_vowel(s[0]) {
        Seq::empty()
    } else {
        seq![s[0]] + onset(s.skip(1))
    }
}

/// A syllable with a glide; none for a vowel alone.
pub open spec fn with_glide(base: Seq<char>, v: char) -> Option<Seq<char>> {
    if base == "shi"@ {
        Some("sh"@.push(v))
    } else if base == "chi"@ {
        Some("ch"@.push(v))
    } else if base == "ji"@ {
        Some("j"@.push(v))
    } else if onset(base).len() == 0 {
        None
    } else {
        Some(onset(base).push('y').push(v))
    }
}

fn read_onset(s: &[char]) -> (r: Vec<char>)
    ensures
        r@ == onset(s@),
{
    let mut out: Vec<char> = Vec::new();
    let n: usize = s.len();
    let mut i: usize = 0;
    assert(s@.skip(0) =~= s@);
    assert(out@ + onset(s@) =~= onset(s@));
    while i < n && !char_is_vowel(s[i])
        invariant
            n == s@.len(),
            i <= n,
            out@ + onset(s@.skip(i as int)) == onset(s@),
        decreases n - i,
    {
        let ghost before = out@;
        out.push(s[i]);
        assert(s@.skip(i as int).skip(1) =~= s@.skip(i + 1));
        assert(out@ + onset(s@.skip(i + 1)) =~= before + (seq![s@[i as int]] + onset(
            s@.skip(i + 1),
        )));
        i = i + 1;
    }
    assert(onset(s@.skip(i as int)) =~= Seq::<char>::empty());
    assert(out@ + Seq::<char>::empty() =~= out@);
    out
}

fn with_char(head: &str, c: char) -> (r: Vec<char>)
    ensures
        r@ == head@.push(c),
{
    let mut v = chars_of(head);
    v.push(c);
    v
}

/// Characters that there may be.
pub open spec fn opt_chars(v: Option<Vec<char>>) -> Option<Seq<char>> {
    match v {
        Some(c) => Some(c@),
        None => None,
    }
}

fn palatalize(base: &str, v: char) -> (r: Option<Vec<char>>)
    ensures
        opt_chars(r) == with_glide(base@, v),
{
    if str_eq(base, "shi") {
        return Some(with_char("sh", v));
    }
    if str_eq(base, "chi") {
        return Some(with_char("ch", v));
    }
    if str_eq(base, "ji") {
        return Some(with_char("j", v));
    }
    let chars = chars_of(base);
    let mut consonant = read_onset(&chars);
    if consonant.len() == 0 {
        return None;
    }
    consonant.push('y');
    consonant.push(v);
    Some(consonant)
}

/// A sign with a small vowel, as in words from other languages.
pub open spec fn foreign(base: char, small: char) -> Option<Seq<char>> {
    match small_vowel(small) {
        None => None,
        Some(v) => if base == 'フ' {
            Some("f"@.push(v))
        } else if base == 'ヴ' {
            Some("v"@.push(v))
        } else if base == 'ウ' {
            Some("w"@.push(v))
        } else if base == 'ツ' {
            Some("ts"@.push(v))
        } else if base == 'テ' && v == 'i' {
            Some("ti"@)
        } else if base == 'デ' && v == 'i' {
            Some("di"@)
        } else if base == 'ト' && v == 'u' {
            Some("tu"@)
        } else if base == 'ド' && v == 'u' {
            Some("du"@)
        } else if base == 'チ' && v == 'e' {
            Some("che"@)
        } else if base == 'シ' && v == 'e' {
            Some("she"@)
        } else if base == 'ジ' && v == 'e' {
            Some("je"@)
        } else {
            None
        },
    }
}

fn foreign_combo(base: char, small: char) -> (r: Option<Vec<char>>)
    ensures
        opt_chars(r) == foreign(base, small),
{
    match read_small_vowel(small) {
        None => None,
        Some(v) => if base == 'フ' {
            Some(with_char("f", v))
        } else if base == 'ヴ' {
            Some(with_char("v", v))
        } else if base == 'ウ' {
            Some(with_char("w", v))
        } else if base == 'ツ' {
            Some(with_char("ts", v))
        } else if base == 'テ' && v == 'i' {
            Some(chars_of("ti"))
        } else if base == 'デ' && v == 'i' {
            Some(chars_of("di"))
        } else if base == 'ト' && v == 'u' {
            Some(chars_of("tu"))
        } else if base == 'ド' && v == 'u' {
            Some(chars_of("du"))
        } else if base == 'チ' && v == 'e' {
            Some(chars_of("che"))
        } else if base == 'シ' && v == 'e' {
            Some(chars_of("she"))
        } else if base == 'ジ' && v == 'e' {
            Some(chars_of("je"))
        } else {
            None
        },
    }
}

// ── Units ──────────────────────────────────────────────────────────────────

/// What a katakana text is made of.
pub enum Unit {
    Syl(Vec<char>),
    Sokuon,
    Choon,
    N,
    Raw(char),
}

/// What a katakana text is made of: syllables, the sign that doubles the consonant behind
/// it, the sign that makes the vowel before it long, the nasal, and other characters.
pub enum UnitView {
    Syl(Seq<char>),
    Sokuon,
    Choon,
    N,
    Raw(char),
}

impl View for Unit {
    type V = UnitView;

    open spec fn view(&self) -> UnitView {
        match self {
            Unit::Syl(s) => UnitView::Syl(s@),
            Unit::Sokuon => UnitView::Sokuon,
            Unit::Choon => UnitView::Choon,
            Unit::N => UnitView::N,
            Unit::Raw(c) => UnitView::Raw(*c),
        }
    }
}

/// What a katakana text is made of.
pub open spec fn unit_views(v: Seq<Unit>) -> Seq<UnitView> {
    v.map_values(|u: Unit| u@)
}

/// The syllable of two signs together.
pub open spec fn combined(c: char, next: char) -> Option<Seq<char>> {
    match syllable(c) {
        None => None,
        Some(base) => {
            let glided = match glide_vowel(next) {
                Some(v) => with_glide(base, v),
                None => None,
            };
            if glided is Some {
                glided
            } else {
                foreign(c, next)
            }
        },
    }
}

/// The unit of one sign.
pub open spec fn single(c: char) -> UnitView {
    if c == 'ッ' {
        UnitView::Sokuon
    } else if c == 'ー' {
        UnitView::Choon
    } else if c == 'ン' {
        UnitView::N
    } else {
        match syllable(c) {
            Some(base) => UnitView::Syl(base),
            None => match small_vowel(c) {
                Some(v) => UnitView::Syl(seq![v]),
                None => match glide_vowel(c) {
                    Some(v) => UnitView::Syl("y"@.push(v)),
                    None => UnitView::Raw(c),
                },
            },
        }
    }
}

/// The units of a katakana text from a place on.
pub open spec fn units_from(s: Seq<char>, i: int) -> Seq<UnitView>
    decreases s.len() - i,
{
    if i < 0 || i >= s.len() {
        Seq::empty()
    } else if i + 1 < s.len() && combined(s[i], s[i + 1]) is Some {
        seq![UnitView::Syl(combined(s[i], s[i + 1])->0)] + units_from(s, i + 2)
    } else {
        seq![single(s[i])] + units_from(s, i + 1)
    }
}

fn read_combined(c: char, next: char) -> (r: Option<Vec<char>>)
    ensures
        opt_chars(r) == combined(c, next),
{
    match kata_base(c) {
        None => None,
        Some(base) => {
            if let Some(v) = read_glide_vowel(next) {
                if let Some(p) = palatalize(base, v) {
                    return Some(p);
                }
            }
            foreign_combo(c, next)
        },
    }
}

fn read_single(c: char) -> (r: Unit)
    ensures
        r@ == single(c),
{
    if c == 'ッ' {
        return Unit::Sokuon;
    }
    if c == 'ー' {
        return Unit::Choon;
    }
    if c == 'ン' {
        return Unit::N;
    }
    match kata_base(c) {
        Some(base) => Unit::Syl(chars_of(base)),
        None => match read_small_vowel(c) {
            Some(v) => {
                let mut one: Vec<char> = Vec::new();
                one.push(v);
                assert(one@ =~= seq![v]);
                Unit::Syl(one)
            },
            None => match read_glide_vowel(c) {
                Some(v) => Unit::Syl(with_char("y", v)),
                None => Unit::Raw(c),
            },
        },
    }
}

fn lex(chars: &[char]) -> (r: Vec<Unit>)
    ensures
        unit_views(r@) == units_from(chars@, 0),
{
    let mut units: Vec<Unit> = Vec::new();
    let n: usize = chars.len();
    let mut i: usize = 0;
    assert(unit_views(units@) + units_from(chars@, 0) =~= units_from(chars@, 0));
    while i < n
        invariant
            n == chars@.len(),
            i <= n,
            unit_views(units@) + units_from(chars@, i as int) == units_from(chars@, 0),
        decreases n - i,
    {
        let ghost before = unit_views(units@);
        if i + 1 < n {
            if let Some(s) = read_combined(chars[i], chars[i + 1]) {
                let u = Unit::Syl(s);
                let ghost view = u@;
                units.push(u);
                assert(unit_views(units@) =~= before.push(view));
                assert(before.push(view) + units_from(chars@, i + 2) =~= before + (seq![view]
                    + units_from(chars@, i + 2)));
                i = i + 2;
                continue;
            }
        }
        let u = read_single(chars[i]);
        let ghost view = u@;
        units.push(u);
        assert(unit_views(units@) =~= before.push(view));
        assert(before.push(view) + units_from(chars@, i + 1) =~= before + (seq![view] + units_from(
            chars@,
            i + 1,
        )));
        i = i + 1;
    }
    assert(unit_views(units@) + Seq::<UnitView>::empty() =~= unit_views(units@));
    units
}

// ── Text ───────────────────────────────────────────────────────────────────

/// The consonant that is doubled before a syllable; `ch` is doubled as `tch`.
pub open spec fn doubled(s: Seq<char>) -> Seq<char> {
    if text::starts_with(s, "ch"@) {
        "t"@
    } else if s.len() > 0 && !is_vowel(s[0]) && s[0] != 'n' {
        seq![s[0]]
    } else {
        Seq::empty()
    }
}

fn geminate_prefix(s: &[char]) -> (r: Vec<char>)
    ensures
        r@ == doubled(s@),
{
    if chars_start_with(s, "ch") {
        return chars_of("t");
    }
    let mut out: Vec<char> = Vec::new();
    if s.len() > 0 && !char_is_vowel(s[0]) && s[0] != 'n' {
        out.push(s[0]);
    }
    assert(out@ =~= doubled(s@));
    out
}

/// The first letter of a unit; none for one that is no letter of its own.
pub open spec fn initial(u: UnitView) -> Option<char> {
    match u {
        UnitView::Syl(s) => if s.len() > 0 {
            Some(s[0])
        } else {
            None
        },
        UnitView::Raw(c) => Some(c),
        _ => None,
    }
}

/// The nasal at `i` stands before a vowel or a glide, from which an apostrophe parts it.
pub open spec fn is_parted(us: Seq<UnitView>, i: int) -> bool {
    i + 1 < us.len() && match initial(us[i + 1]) {
        Some(c) => is_vowel(c) || c == 'y',
        None => false,
    }
}

fn next_is_parted(us: &Vec<Unit>, i: usize) -> (r: bool)
    requires
        i < us@.len(),
    ensures
        r == is_parted(unit_views(us@), i as int),
{
    let n: usize = us.len();
    if i + 1 >= n {
        return false;
    }
    assert(unit_views(us@)[i + 1] == us@[i + 1]@);
    match &us[i + 1] {
        Unit::Syl(s) => s.len() > 0 && (char_is_vowel(s[0]) || s[0] == 'y'),
        Unit::Raw(c) => char_is_vowel(*c) || *c == 'y',
        Unit::Sokuon => false,
        Unit::Choon => false,
        Unit::N => false,
    }
}

/// The last vowel of a text.
pub open spec fn last_vowel(s: Seq<char>) -> Option<char>
    decreases s.len(),
{
    if s.len() == 0 {
        None
    } else if is_vowel(s.last()) {
        Some(s.last())
    } else {
        last_vowel(s.drop_last())
    }
}

fn find_last_vowel(s: &[char]) -> (r: Option<char>)
    ensures
        r == last_vowel(s@),
{
    let mut i: usize = s.len();
    assert(s@.take(s@.len() as int) =~= s@);
    while i > 0
        invariant
            i <= s@.len(),
            last_vowel(s@.take(i as int)) == last_vowel(s@),
        decreases i,
    {
        assert(s@.take(i as int).drop_last() =~= s@.take(i - 1));
        if char_is_vowel(s[i - 1]) {
            return Some(s[i - 1]);
        }
        i = i - 1;
    }
    None
}

/// The Latin letters of the first `n` units, and whether the next consonant is doubled.
pub open spec fn assembled(us: Seq<UnitView>, n: int) -> (Seq<char>, bool)
    decreases n,
{
    if n <= 0 {
        (Seq::empty(), false)
    } else {
        let (out, double) = assembled(us, n - 1);
        match us[n - 1] {
            UnitView::Sokuon => (out, true),
            UnitView::Choon => (
                match last_vowel(out) {
                    Some(v) => out.push(v),
                    None => out,
                },
                double,
            ),
            UnitView::N => (
                if is_parted(us, n - 1) {
                    out.push('n').push('\'')
                } else {
                    out.push('n')
                },
                double,
            ),
            UnitView::Syl(s) => (
                (if double {
                    out + doubled(s)
                } else {
                    out
                }) + s,
                false,
            ),
            UnitView::Raw(c) => (out.push(c), false),
        }
    }
}

fn assemble(us: &Vec<Unit>) -> (r: Vec<char>)
    ensures
        r@ == assembled(unit_views(us@), us@.len() as int).0,
{
    let ghost all = unit_views(us@);
    let mut out: Vec<char> = Vec::new();
    let mut double = false;
    assert(out@ =~= Seq::<char>::empty());
    for i in 0..us.len()
        invariant
            all == unit_views(us@),
            (out@, double) == assembled(all, i as int),
    {
        assert(all[i as int] == us@[i as int]@);
        match &us[i] {
            Unit::Sokuon => {
                double = true;
            },
            Unit::Choon => {
                if let Some(v) = find_last_vowel(&out) {
                    out.push(v);
                }
            },
            Unit::N => {
                out.push('n');
                if next_is_parted(us, i) {
                    out.push('\'');
                }
            },
            Unit::Syl(s) => {
                if double {
                    let d = geminate_prefix(s);
                    push_chars(&mut out, &d);
                    double = false;
                }
                push_chars(&mut out, s);
            },
            Unit::Raw(c) => {
                double = false;
                out.push(*c);
            },
        }
    }
    out
}

/// Syllable signs in Latin letters; other characters stay.
pub open spec fn romanized(s: Seq<char>) -> Seq<char> {
    let us = units_from(in_katakana(s), 0);
    assembled(us, us.len() as int).0
}

/// Syllable signs in Latin letters; other characters stay.
pub fn romanize_kana(input: &str) -> (r: String)
    ensures
        r@ == romanized(input@),
{
    let chars = chars_of(input);
    let kata = to_katakana(&chars);
    let units = lex(&kata);
    string_of(&assemble(&units))
}

// ── Laws ───────────────────────────────────────────────────────────────────

/// A text reads the same in hiragana and in katakana.
pub proof fn law_both_scripts_read_alike(s: Seq<char>)
    ensures
        romanized(in_katakana(s)) == romanized(s),
{
    assert(in_katakana(in_katakana(s)) =~= in_katakana(s));
}

proof fn lemma_plain_units(s: Seq<char>, i: int)
    requires
        0 <= i <= s.len(),
        forall|k: int| 0 <= k < s.len() ==> (#[trigger] s[k] as u32) < 0x3040,
    ensures
        units_from(s, i).len() == s.len() - i,
        forall|k: int|
            0 <= k < s.len() - i ==> (#[trigger] units_from(s, i)[k]) == UnitView::Raw(s[i + k]),
    decreases s.len() - i,
{
    if i < s.len() {
        assert((s[i] as u32) < 0x3040);
        lemma_plain_units(s, i + 1);
        assert(syllable(s[i]) is None);
        assert(single(s[i]) == UnitView::Raw(s[i]));
        assert forall|k: int| 0 <= k < s.len() - i implies (#[trigger] units_from(s, i)[k])
            == UnitView::Raw(s[i + k]) by {
            if k > 0 {
                assert(units_from(s, i)[k] == units_from(s, i + 1)[k - 1]);
            }
        }
    }
}

proof fn lemma_raw_text(s: Seq<char>, us: Seq<UnitView>, n: int)
    requires
        0 <= n <= us.len(),
        us.len() == s.len(),
        forall|k: int| 0 <= k < us.len() ==> (#[trigger] us[k]) == UnitView::Raw(s[k]),
    ensures
        assembled(us, n) == (s.take(n), false),
    decreases n,
{
    if n > 0 {
        lemma_raw_text(s, us, n - 1);
        assert(us[n - 1] == UnitView::Raw(s[n - 1]));
        assert(s.take(n) =~= s.take(n - 1).push(s[n - 1]));
    } else {
        assert(s.take(0) =~= Seq::<char>::empty());
    }
}

/// A text without syllable signs, such as one in Latin letters, stays as it is.
pub proof fn law_other_text_stays(s: Seq<char>)
    requires
        forall|k: int| 0 <= k < s.len() ==> (#[trigger] s[k] as u32) < 0x3040,
    ensures
        romanized(s) == s,
{
    assert(in_katakana(s) =~= s);
    lemma_plain_units(s, 0);
    lemma_raw_text(s, units_from(s, 0), s.len() as int);
    assert(s.take(s.len() as int) =~= s);
}

} // verus!
