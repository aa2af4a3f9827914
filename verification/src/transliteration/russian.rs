//! Russian titles: the letters of GOST 7.79-2000, system B, with apostrophes for its
//! marks.

use vstd::prelude::*;

use crate::text::{self, char_is_letter, char_upper, chars_of, chars_upper, push_chars, string_of};
use crate::transliteration::output::{
    self, FailureView, OutputView, Script, TransliterationError, TransliterationOutput,
    Transliterator, write_draft,
};
use crate::unicode::{self, char_is_uppercase, char_to_lowercase};

verus! {

/// What writes Russian titles in Latin letters.
pub struct RussianTransliterator;

impl RussianTransliterator {
    /// What writes Russian titles in Latin letters.
    pub fn new() -> (r: RussianTransliterator)
        ensures
            r == RussianTransliterator,
    {
        RussianTransliterator
    }
}

/// The small form of a letter.
pub open spec fn small(c: char) -> char {
    if unicode::char_lowercase(c).len() > 0 {
        unicode::char_lowercase(c)[0]
    } else {
        c
    }
}

/// The small form of a letter.
pub fn lower_char(c: char) -> (r: char)
    ensures
        r == small(c),
{
    let lower = chars_of(char_to_lowercase(c).as_str());
    if lower.len() > 0 {
        lower[0]
    } else {
        c
    }
}

/// A small letter that is written with an `i`, `e`, `y` or `j` at its beginning.
pub open spec fn is_soft(c: char) -> bool {
    c == 'и' || c == 'е' || c == 'э' || c == 'ы' || c == 'ю' || c == 'я' || c == 'ё' || c == 'й'
}

/// The small Latin letters of a small Russian letter whatever follows it.
pub open spec fn plain_letter(c: char) -> Option<Seq<char>> {
    match c {
        'а' => Some("a"@),
        'б' => Some("b"@),
        'в' => Some("v"@),
        'г' => Some("g"@),
        'д' => Some("d"@),
        'е' => Some("e"@),
        'ё' => Some("yo"@),
        'ж' => Some("zh"@),
        'з' => Some("z"@),
        'и' => Some("i"@),
        'й' => Some("j"@),
        'к' => Some("k"@),
        'л' => Some("l"@),
        'м' => Some("m"@),
        'н' => Some("n"@),
        'о' => Some("o"@),
        'п' => Some("p"@),
        'р' => Some("r"@),
        'с' => Some("s"@),
        'т' => Some("t"@),
        'у' => Some("u"@),
        'ф' => Some("f"@),
        'х' => Some("x"@),
        'ч' => Some("ch"@),
        'ш' => Some("sh"@),
        'щ' => Some("shh"@),
        'ъ' => Some("''"@),
        'ы' => Some("y"@),
        'ь' => Some("'"@),
        'э' => Some("e'"@),
        'ю' => Some("yu"@),
        'я' => Some("ya"@),
        _ => None,
    }
}

/// The letter `ц`, small or capital.
pub open spec fn is_tse(c: char) -> bool {
    c == 'ц' || c == 'Ц'
}

/// The small Latin letters of a Russian letter: `ц` is `c` before a letter that is
/// written with an `i`, `e`, `y` or `j`, and `cz` before others.
pub open spec fn latin_letter(c: char, next: Option<char>) -> Option<Seq<char>> {
    if is_tse(c) {
        if next is Some && is_soft(next->0) {
            Some("c"@)
        } else {
            Some("cz"@)
        }
    } else {
        plain_letter(small(c))
    }
}

fn base_letter(c: char) -> (r: Option<&'static str>)
    ensures
        text::opt_str(r) == plain_letter(c),
{
    match c {
        'а' => Some("a"),
        'б' => Some("b"),
        'в' => Some("v"),
        'г' => Some("g"),
        'д' => Some("d"),
        'е' => Some("e"),
        'ё' => Some("yo"),
        'ж' => Some("zh"),
        'з' => Some("z"),
        'и' => Some("i"),
        'й' => Some("j"),
        'к' => Some("k"),
        'л' => Some("l"),
        'м' => Some("m"),
        'н' => Some("n"),
        'о' => Some("o"),
        'п' => Some("p"),
        'р' => Some("r"),
        'с' => Some("s"),
        'т' => Some("t"),
        'у' => Some("u"),
        'ф' => Some("f"),
        'х' => Some("x"),
        'ч' => Some("ch"),
        'ш' => Some("sh"),
        'щ' => Some("shh"),
        'ъ' => Some("''"),
        'ы' => Some("y"),
        'ь' => Some("'"),
        'э' => Some("e'"),
        'ю' => Some("yu"),
        'я' => Some("ya"),
        _ => None,
    }
}

fn next_is_ieyj(next: Option<char>) -> (r: bool)
    ensures
        r == (next is Some && is_soft(next->0)),
{
    match next {
        Some(c) => c == 'и' || c == 'е' || c == 'э' || c == 'ы' || c == 'ю' || c == 'я' || c == 'ё'
            || c == 'й',
        None => false,
    }
}

fn base_latin(c: char, next: Option<char>) -> (r: Option<&'static str>)
    ensures
        text::opt_str(r) == latin_letter(c, next),
{
    if c == 'ц' || c == 'Ц' {
        if next_is_ieyj(next) {
            Some("c")
        } else {
            Some("cz")
        }
    } else {
        base_letter(lower_char(c))
    }
}

/// A Russian capital.
pub open spec fn is_capital(c: char) -> bool {
    unicode::is_uppercase(c) && latin_letter(c, None) is Some
}

fn capital(c: char) -> (r: bool)
    ensures
        r == is_capital(c),
{
    char_is_uppercase(c) && base_latin(c, None).is_some()
}

/// A Russian capital stands beside the one at `i`.
pub open spec fn in_capitals(s: Seq<char>, i: int) -> bool {
    (i > 0 && is_capital(s[i - 1])) || (i + 1 < s.len() && is_capital(s[i + 1]))
}

fn in_caps_run(chars: &[char], i: usize) -> (r: bool)
    requires
        i < chars@.len(),
    ensures
        r == in_capitals(chars@, i as int),
{
    let n: usize = chars.len();
    (i > 0 && capital(chars[i - 1])) || (i + 1 < n && capital(chars[i + 1]))
}

/// A text whose first letter of ASCII is a capital.
pub open spec fn first_letter_up(s: Seq<char>) -> Seq<char>
    decreases s.len(),
{
    if s.len() == 0 {
        s
    } else if text::is_letter(s[0]) {
        seq![text::upper(s[0])] + s.skip(1)
    } else {
        seq![s[0]] + first_letter_up(s.skip(1))
    }
}

/// Latin letters as a capital: all of them among Russian capitals, else the first.
pub open spec fn cased(latin: Seq<char>, all: bool) -> Seq<char> {
    if all {
        text::upper_text(latin)
    } else {
        first_letter_up(latin)
    }
}

fn apply_case(latin: &[char], all_caps: bool) -> (r: Vec<char>)
    ensures
        r@ == cased(latin@, all_caps),
{
    if all_caps {
        return chars_upper(latin);
    }
    let n: usize = latin.len();
    let mut out: Vec<char> = Vec::new();
    let mut i: usize = 0;
    assert(latin@.skip(0) =~= latin@);
    assert(out@ + first_letter_up(latin@) =~= first_letter_up(latin@));
    while i < n
        invariant
            !all_caps,
            n == latin@.len(),
            i <= n,
            out@ + first_letter_up(latin@.skip(i as int)) == first_letter_up(latin@),
        decreases n - i,
    {
        let ghost before = out@;
        let ghost rest = latin@.skip(i as int);
        assert(rest.skip(1) =~= latin@.skip(i + 1));
        let c = latin[i];
        if char_is_letter(c) {
            out.push(char_upper(c));
            let tail = &latin[i + 1..n];
            assert(tail@ =~= latin@.skip(i + 1));
            push_chars(&mut out, tail);
            assert(out@ =~= before + (seq![text::upper(c)] + rest.skip(1)));
            return out;
        }
        out.push(c);
        assert(out@ + first_letter_up(rest.skip(1)) =~= before + (seq![c] + first_letter_up(
            rest.skip(1),
        )));
        i = i + 1;
    }
    assert(latin@.skip(n as int) =~= Seq::<char>::empty());
    assert(out@ + Seq::<char>::empty() =~= out@);
    out
}

/// The Latin letters of the character at `i`; others than Russian letters stay.
pub open spec fn letter_at(s: Seq<char>, i: int) -> Seq<char> {
    let next = if i + 1 < s.len() {
        Some(small(s[i + 1]))
    } else {
        None
    };
    match latin_letter(s[i], next) {
        Some(l) => if unicode::is_uppercase(s[i]) {
            cased(l, in_capitals(s, i))
        } else {
            l
        },
        None => seq![s[i]],
    }
}

/// The first `n` characters of a Russian title in Latin letters.
pub open spec fn letters(s: Seq<char>, n: int) -> Seq<char>
    decreases n,
{
    if n <= 0 {
        Seq::empty()
    } else {
        letters(s, n - 1) + letter_at(s, n - 1)
    }
}

fn write_letter(chars: &[char], i: usize) -> (r: Vec<char>)
    requires
        i < chars@.len(),
    ensures
        r@ == letter_at(chars@, i as int),
{
    let n: usize = chars.len();
    let c = chars[i];
    let next = if i + 1 < n {
        Some(lower_char(chars[i + 1]))
    } else {
        None
    };
    match base_latin(c, next) {
        Some(l) => {
            let latin = chars_of(l);
            if char_is_uppercase(c) {
                apply_case(&latin, in_caps_run(chars, i))
            } else {
                latin
            }
        },
        None => {
            let mut one: Vec<char> = Vec::new();
            one.push(c);
            assert(one@ =~= seq![c]);
            one
        },
    }
}

impl Transliterator for RussianTransliterator {
    open spec fn reads(&self) -> Script {
        Script::Russian
    }

    open spec fn drafts(&self, input: Seq<char>) -> Result<OutputView, FailureView> {
        Ok(output::draft(letters(input, input.len() as int), Script::Russian))
    }

    fn script(&self) -> (r: Script) {
        Script::Russian
    }

    fn transliterate(&self, input: &str) -> (r: Result<TransliterationOutput, TransliterationError>) {
        let chars = chars_of(input);
        let mut out: Vec<char> = Vec::new();
        assert(out@ =~= Seq::<char>::empty());
        for i in 0..chars.len()
            invariant
                chars@ == input@,
                out@ == letters(input@, i as int),
        {
            let l = write_letter(&chars, i);
            push_chars(&mut out, &l);
        }
        Ok(write_draft(string_of(&out), Script::Russian))
    }
}

/// A title without Russian letters stays as it is.
pub proof fn law_other_letters_stay(s: Seq<char>, n: int)
    requires
        0 <= n <= s.len(),
        forall|i: int| 0 <= i < n ==> latin_letter(#[trigger] s[i], None) is None,
    ensures
        letters(s, n) == s.take(n),
    decreases n,
{
    if n > 0 {
        law_other_letters_stay(s, n - 1);
        assert(latin_letter(s[n - 1], None) is None);
        assert(s.take(n) =~= s.take(n - 1) + seq![s[n - 1]]);
    } else {
        assert(s.take(0) =~= Seq::<char>::empty());
    }
}

/// Two pieces of a text do not change each other's letters.
pub open spec fn stand_apart(a: Seq<char>, b: Seq<char>) -> bool {
    a.len() > 0 && b.len() > 0 ==> {
        &&& !(is_tse(a.last()) && is_soft(small(b[0])))
        &&& !(is_capital(a.last()) && is_capital(b[0]))
    }
}

proof fn lemma_first_piece(a: Seq<char>, b: Seq<char>, n: int)
    requires
        stand_apart(a, b),
        0 <= n <= a.len(),
    ensures
        letters(a + b, n) == letters(a, n),
    decreases n,
{
    if n > 0 {
        lemma_first_piece(a, b, n - 1);
        let s = a + b;
        let i = n - 1;
        assert(s[i] == a[i]);
        if i > 0 {
            assert(s[i - 1] == a[i - 1]);
        }
        if n < a.len() {
            assert(s[n] == a[n]);
        } else if b.len() > 0 {
            assert(s[n] == b[0]);
            assert(a.last() == a[i]);
        }
        assert(letter_at(s, i) == letter_at(a, i));
    }
}

proof fn lemma_second_piece(a: Seq<char>, b: Seq<char>, n: int)
    requires
        stand_apart(a, b),
        0 <= n <= b.len(),
    ensures
        letters(a + b, a.len() + n) == letters(a, a.len() as int) + letters(b, n),
    decreases n,
{
    if n == 0 {
        lemma_first_piece(a, b, a.len() as int);
        assert(letters(a, a.len() as int) + letters(b, 0) =~= letters(a, a.len() as int));
    } else {
        lemma_second_piece(a, b, n - 1);
        let s = a + b;
        let i = n - 1;
        let k = a.len() + i;
        assert(s[k] == b[i]);
        if i > 0 {
            assert(s[k - 1] == b[i - 1]);
        } else if a.len() > 0 {
            assert(s[k - 1] == a.last());
        }
        if n < b.len() {
            assert(s[k + 1] == b[n]);
        }
        assert(letter_at(s, k) == letter_at(b, i));
        assert(letters(a, a.len() as int) + letters(b, i) + letter_at(b, i) =~= letters(
            a,
            a.len() as int,
        ) + (letters(b, i) + letter_at(b, i)));
    }
}

/// A title is written piece by piece: two pieces give together what each gives alone,
/// unless the first ends in a `ц` before a letter that softens it, or a Russian capital
/// ends the first where one begins the second.
pub proof fn law_pieces_are_written_apart(a: Seq<char>, b: Seq<char>)
    requires
        stand_apart(a, b),
    ensures
        letters(a + b, (a + b).len() as int) == letters(a, a.len() as int) + letters(
            b,
            b.len() as int,
        ),
        RussianTransliterator.drafts(a + b)->Ok_0.text == RussianTransliterator.drafts(a)->Ok_0.text
            + RussianTransliterator.drafts(b)->Ok_0.text,
{
    lemma_second_piece(a, b, b.len() as int);
}

/// So it is, whatever the letters are, where the first piece does not end in a `ц`, small or
/// capital, and not both a capital ends it and a capital begins the second.
pub proof fn law_plain_pieces_are_written_apart(a: Seq<char>, b: Seq<char>)
    requires
        a.len() > 0 ==> !is_tse(a.last()),
        a.len() > 0 && b.len() > 0 ==> !(unicode::is_uppercase(a.last()) && unicode::is_uppercase(b[0])),
    ensures
        letters(a + b, (a + b).len() as int) == letters(a, a.len() as int) + letters(
            b,
            b.len() as int,
        ),
        RussianTransliterator.drafts(a + b)->Ok_0.text == RussianTransliterator.drafts(a)->Ok_0.text
            + RussianTransliterator.drafts(b)->Ok_0.text,
{
    law_pieces_are_written_apart(a, b);
}

} // verus!
