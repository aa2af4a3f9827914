//! Japanese titles: their words, read by a dictionary and written in Latin letters.

use vstd::prelude::*;

use crate::text::{
    self, cat2, chars_of, chars_trim, push_chars, push_str, str_eq, str_trim, string_of,
};
use crate::transliteration::detect::{self, char_is_japanese};
use crate::transliteration::japanese::normalize::{self, normalize};
use crate::transliteration::japanese::overrides::{self, Overrides, OverridesView};
use crate::transliteration::japanese::romaji::{self, expand_macrons, romanize_kana};
use crate::transliteration::output::{
    self, FailureView, OutputView, Script, TransliterationError, TransliterationOutput,
    Transliterator, write_draft,
};
use crate::transliteration::spacing::{self, collapse_spaces};
use crate::unicode::{self, char_is_alphabetic, char_to_uppercase};

verus! {

/// Where the details of a token tell its reading.
pub const READING_INDEX: usize = 7;

/// Where the details of a token tell its part of speech.
pub const POS_INDEX: usize = 0;

/// The part of speech of particles.
pub const POS_PARTICLE: &'static str = "助詞";

/// What no space stands before.
pub const NO_SPACE_BEFORE: &'static str = ")]}>:;,.!?\"'-";

/// What no space stands behind.
pub const NO_SPACE_AFTER: &'static str = "([{<\"'";

// ── Tokens ─────────────────────────────────────────────────────────────────

/// A word of a text with what the dictionary tells of it.
#[derive(Debug)]
pub struct Token {
    pub surface: String,
    pub details: Vec<String>,
}

/// A word of a text with what the dictionary tells of it.
pub struct TokenView {
    pub surface: Seq<char>,
    pub details: Seq<Seq<char>>,
}

impl View for Token {
    type V = TokenView;

    open spec fn view(&self) -> TokenView {
        TokenView { surface: self.surface@, details: text::texts(self.details@) }
    }
}

/// The words of a text.
pub open spec fn token_views(v: Seq<Token>) -> Seq<TokenView> {
    v.map_values(|t: Token| t@)
}

/// The words of a text, or why it could not be read.
pub open spec fn tokens_result(r: Result<Vec<Token>, String>) -> Result<Seq<TokenView>, Seq<char>> {
    match r {
        Ok(v) => Ok(token_views(v@)),
        Err(e) => Err(e@),
    }
}

/// `lindera::tokenizer::Tokenizer`, which holds a dictionary.
#[verifier::external_type_specification]
#[verifier::external_body]
pub struct ExTokenizer(lindera::tokenizer::Tokenizer);

/// The words of a text by the dictionary of a tokenizer, or why it could not be read.
pub uninterp spec fn tokens_of(tokenizer: lindera::tokenizer::Tokenizer, text: Seq<char>) -> Result<
    Seq<TokenView>,
    Seq<char>,
>;

/// `lindera::dictionary::load_dictionary` of the embedded dictionary, `Segmenter::new`
/// and `Tokenizer::new`: a tokenizer, or the text of the error. The dictionary is there
/// only where the crate was built with it.
#[verifier::external_body]
fn load_tokenizer() -> (r: Result<lindera::tokenizer::Tokenizer, String>) {
    let dictionary = lindera::dictionary::load_dictionary("embedded://ipadic");
    let dictionary = dictionary.map_err(|e| e.to_string())?;
    let mode = lindera::mode::Mode::Normal;
    let segmenter = lindera::segmenter::Segmenter::new(mode, dictionary, None);
    Ok(lindera::tokenizer::Tokenizer::new(segmenter))
}

/// `lindera::tokenizer::Tokenizer::tokenize` and `Token::details`: the words of a text
/// with their details, or the text of the error, are a function of the tokenizer and of
/// the text.
#[verifier::external_body]
fn tokenize(tokenizer: &lindera::tokenizer::Tokenizer, text: &str) -> (r: Result<Vec<Token>, String>)
    ensures
        tokens_result(r) == tokens_of(*tokenizer, text@),
{
    let mut tokens = tokenizer.tokenize(text).map_err(|e| e.to_string())?;
    Ok(tokens.iter_mut().map(|t| Token {
        surface: t.surface.to_string(),
        details: t.details().iter().map(|d| d.to_string()).collect(),
    }).collect())
}

/// A detail of a token, or what stands for one that is missing.
pub open spec fn detail(t: TokenView, i: int, missing: Seq<char>) -> Seq<char> {
    if i < t.details.len() {
        t.details[i]
    } else {
        missing
    }
}

/// The surfaces of tokens.
pub open spec fn surfaces(v: Seq<TokenView>) -> Seq<Seq<char>> {
    v.map_values(|t: TokenView| t.surface)
}

// ── Words ──────────────────────────────────────────────────────────────────

/// A particle that is written small.
pub open spec fn is_small_particle(s: Seq<char>) -> bool {
    s == "は"@ || s == "が"@ || s == "を"@ || s == "へ"@ || s == "か"@ || s == "の"@ || s == "な"@ || s
        == "も"@ || s == "で"@ || s == "に"@ || s == "と"@ || s == "や"@ || s == "から"@ || s == "まで"@
}

fn is_listed_particle(s: &str) -> (r: bool)
    ensures
        r == is_small_particle(s@),
{
    str_eq(s, "は") || str_eq(s, "が") || str_eq(s, "を") || str_eq(s, "へ") || str_eq(s, "か")
        || str_eq(s, "の") || str_eq(s, "な") || str_eq(s, "も") || str_eq(s, "で") || str_eq(s, "に")
        || str_eq(s, "と") || str_eq(s, "や") || str_eq(s, "から") || str_eq(s, "まで")
}

/// A particle that is not written as it is spelled.
pub open spec fn spoken_particle(s: Seq<char>) -> Option<Seq<char>> {
    if s == "は"@ {
        Some("wa"@)
    } else if s == "へ"@ {
        Some("e"@)
    } else if s == "を"@ {
        Some("o"@)
    } else {
        None
    }
}

fn particle_romaji(s: &str) -> (r: Option<&'static str>)
    ensures
        text::opt_str(r) == spoken_particle(s@),
{
    if str_eq(s, "は") {
        Some("wa")
    } else if str_eq(s, "へ") {
        Some("e")
    } else if str_eq(s, "を") {
        Some("o")
    } else {
        None
    }
}

/// A text that begins with a capital.
pub open spec fn capitalized(s: Seq<char>) -> Seq<char> {
    if s.len() == 0 {
        s
    } else {
        unicode::char_uppercase(s[0]) + s.skip(1)
    }
}

/// A text that begins with a capital.
pub fn capitalize(s: &str) -> (r: String)
    ensures
        r@ == capitalized(s@),
{
    let chars = chars_of(s);
    let n: usize = chars.len();
    if n == 0 {
        return String::new();
    }
    let mut out = char_to_uppercase(chars[0]);
    let tail = &chars[1..n];
    assert(tail@ =~= s@.skip(1));
    out.append(string_of(tail).as_str());
    out
}

/// A token is a particle that is written small.
pub open spec fn is_particle(t: TokenView) -> bool {
    detail(t, POS_INDEX as int, Seq::empty()) == POS_PARTICLE@ && is_small_particle(t.surface)
}

/// The reading of a token in Latin letters; without one the token reads as it is written.
pub open spec fn read_aloud(t: TokenView) -> Seq<char> {
    let reading = detail(t, READING_INDEX as int, "*"@);
    romaji::without_macrons(
        romaji::romanized(
            if reading == "*"@ || reading.len() == 0 {
                t.surface
            } else {
                reading
            },
        ),
    )
}

/// A token in Latin letters: particles small, and some as they are spoken; other words
/// with a capital.
pub open spec fn word_of(t: TokenView) -> Seq<char> {
    if is_particle(t) && spoken_particle(t.surface) is Some {
        spoken_particle(t.surface)->0
    } else if is_particle(t) {
        read_aloud(t)
    } else {
        capitalized(read_aloud(t))
    }
}

/// The words of tokens from a place on: settled phrases as they are settled, and other
/// tokens one by one.
pub open spec fn words_from(o: OverridesView, ts: Seq<TokenView>, i: int) -> Seq<Seq<char>>
    decreases ts.len() - i,
{
    if i < 0 || i >= ts.len() {
        Seq::empty()
    } else {
        match overrides::phrase_at(o, surfaces(ts), i) {
            Some(p) => if 0 < p.0 <= ts.len() - i {
                seq![p.1] + words_from(o, ts, i + p.0)
            } else {
                Seq::empty()
            },
            None => seq![word_of(ts[i])] + words_from(o, ts, i + 1),
        }
    }
}

fn read_detail<'a>(t: &'a Token, i: usize, missing: &'a str) -> (r: &'a str)
    ensures
        r@ == detail(t@, i as int, missing@),
{
    if i < t.details.len() {
        assert(text::texts(t.details@)[i as int] == t.details@[i as int]@);
        t.details[i].as_str()
    } else {
        missing
    }
}

fn write_word(t: &Token) -> (r: String)
    ensures
        r@ == word_of(t@),
{
    proof {
        reveal_strlit("");
        assert(""@ =~= Seq::<char>::empty());
    }
    let surface = t.surface.as_str();
    let particle = str_eq(read_detail(t, POS_INDEX, ""), POS_PARTICLE) && is_listed_particle(
        surface,
    );
    if particle {
        if let Some(p) = particle_romaji(surface) {
            return String::from_str(p);
        }
    }
    let reading = read_detail(t, READING_INDEX, "*");
    let kana = if str_eq(reading, "*") || reading.is_empty() {
        surface
    } else {
        reading
    };
    let romaji = expand_macrons(romanize_kana(kana).as_str());
    if particle {
        romaji
    } else {
        capitalize(romaji.as_str())
    }
}

fn collect_surfaces(tokens: &Vec<Token>) -> (r: Vec<String>)
    ensures
        text::texts(r@) == surfaces(token_views(tokens@)),
{
    let ghost all = surfaces(token_views(tokens@));
    let mut out: Vec<String> = Vec::new();
    assert(text::texts(out@) =~= all.take(0));
    for i in 0..tokens.len()
        invariant
            all == surfaces(token_views(tokens@)),
            text::texts(out@) == all.take(i as int),
    {
        let ghost before = out@;
        let s = tokens[i].surface.clone();
        out.push(s);
        assert(all[i as int] == s@);
        assert(text::texts(out@) =~= text::texts(before).push(s@));
        assert(all.take(i + 1) =~= all.take(i as int).push(all[i as int]));
    }
    assert(all.take(all.len() as int) =~= all);
    out
}

/// The words of tokens: settled phrases as they are settled, and other tokens one by one.
pub fn romanize_tokens(overrides: &Overrides, tokens: &Vec<Token>) -> (r: Vec<String>)
    ensures
        text::texts(r@) == words_from(overrides@, token_views(tokens@), 0),
{
    let ghost ts = token_views(tokens@);
    let names = collect_surfaces(tokens);
    let n: usize = tokens.len();
    let mut words: Vec<String> = Vec::new();
    let mut i: usize = 0;
    assert(names@.len() == text::texts(names@).len());
    assert(text::texts(words@) + words_from(overrides@, ts, 0) =~= words_from(overrides@, ts, 0));
    while i < n
        invariant
            n == tokens@.len(),
            i <= n,
            ts == token_views(tokens@),
            text::texts(names@) == surfaces(ts),
            names@.len() == n,
            text::texts(words@) + words_from(overrides@, ts, i as int) == words_from(overrides@, ts, 0),
        decreases n - i,
    {
        let ghost before = words@;
        match overrides.phrase_match(&names, i) {
            Some((consumed, v)) => {
                let w = String::from_str(v);
                let ghost text = w@;
                words.push(w);
                assert(text::texts(words@) =~= text::texts(before).push(text));
                assert(text::texts(words@) + words_from(overrides@, ts, i + consumed) =~= text::texts(before)
                    + (seq![text] + words_from(overrides@, ts, i + consumed)));
                i = i + consumed;
            },
            None => {
                assert(ts[i as int] == tokens@[i as int]@);
                let w = write_word(&tokens[i]);
                let ghost text = w@;
                words.push(w);
                assert(text::texts(words@) =~= text::texts(before).push(text));
                assert(text::texts(words@) + words_from(overrides@, ts, i + 1) =~= text::texts(before) + (seq![
                    text,
                ] + words_from(overrides@, ts, i + 1)));
                i = i + 1;
            },
        }
    }
    assert(text::texts(words@) + Seq::<Seq<char>>::empty() =~= text::texts(words@));
    words
}

// ── Parts of a title ───────────────────────────────────────────────────────

/// A part of a title: Japanese, or text that stays.
#[derive(Debug)]
pub struct Segment {
    pub japanese: bool,
    pub text: String,
}

/// A part of a title.
pub struct SegmentView {
    pub japanese: bool,
    pub text: Seq<char>,
}

impl View for Segment {
    type V = SegmentView;

    open spec fn view(&self) -> SegmentView {
        SegmentView { japanese: self.japanese, text: self.text@ }
    }
}

/// The parts of a title.
pub open spec fn segment_views(v: Seq<Segment>) -> Seq<SegmentView> {
    v.map_values(|s: Segment| s@)
}

/// The parts of the first `n` characters of a title: runs of Japanese characters and runs
/// of others.
pub open spec fn segments(s: Seq<char>, n: int) -> Seq<SegmentView>
    decreases n,
{
    if n <= 0 {
        Seq::empty()
    } else {
        let before = segments(s, n - 1);
        let c = s[n - 1];
        if before.len() > 0 && before.last().japanese == detect::is_japanese_char(c) {
            before.drop_last().push(
                SegmentView {
                    japanese: before.last().japanese,
                    text: before.last().text.push(c),
                },
            )
        } else {
            before.push(SegmentView { japanese: detect::is_japanese_char(c), text: seq![c] })
        }
    }
}

fn split_title(s: &[char]) -> (r: Vec<Segment>)
    ensures
        segment_views(r@) == segments(s@, s@.len() as int),
{
    let mut out: Vec<Segment> = Vec::new();
    if s.len() == 0 {
        assert(segment_views(out@) =~= Seq::<SegmentView>::empty());
        return out;
    }
    let mut japanese = char_is_japanese(s[0]);
    let mut text: Vec<char> = Vec::new();
    text.push(s[0]);
    let mut i: usize = 1;
    proof {
        assert(segments(s@, 0) =~= Seq::<SegmentView>::empty());
        assert(text@ =~= seq![s@[0]]);
        assert(segments(s@, 1) =~= segment_views(out@).push(SegmentView { japanese, text: text@ }));
    }
    while i < s.len()
        invariant
            1 <= i <= s@.len(),
            segments(s@, i as int) == segment_views(out@).push(
                SegmentView { japanese, text: text@ },
            ),
        decreases s@.len() - i,
    {
        let ghost shown = segment_views(out@);
        let ghost last = SegmentView { japanese, text: text@ };
        assert(segments(s@, i as int).drop_last() =~= shown);
        assert(segments(s@, i as int).last() == last);
        let c = s[i];
        let jp = char_is_japanese(c);
        if jp == japanese {
            text.push(c);
        } else {
            let seg = Segment { japanese, text: string_of(&text) };
            let ghost before = out@;
            out.push(seg);
            assert(segment_views(out@) =~= segment_views(before).push(seg@));
            japanese = jp;
            text = Vec::new();
            text.push(c);
            assert(text@ =~= seq![c]);
        }
        i = i + 1;
    }
    let seg = Segment { japanese, text: string_of(&text) };
    let ghost before = out@;
    out.push(seg);
    assert(segment_views(out@) =~= segment_views(before).push(seg@));
    out
}

/// The texts of parts, one after the other.
pub open spec fn whole(v: Seq<SegmentView>) -> Seq<char>
    decreases v.len(),
{
    if v.len() == 0 {
        Seq::empty()
    } else {
        whole(v.drop_last()) + v.last().text
    }
}

/// The parts of a title are the title in its order: no part is empty, each holds Japanese
/// characters only or none, and no two of a kind follow each other.
pub proof fn law_parts_are_the_title(s: Seq<char>, n: int)
    requires
        0 <= n <= s.len(),
    ensures
        whole(segments(s, n)) == s.take(n),
        forall|i: int|
            0 <= i < segments(s, n).len() ==> (#[trigger] segments(s, n)[i]).text.len() > 0,
        forall|i: int, k: int|
            0 <= i < segments(s, n).len() && 0 <= k < segments(s, n)[i].text.len()
                ==> detect::is_japanese_char(#[trigger] segments(s, n)[i].text[k]) == segments(
                s,
                n,
            )[i].japanese,
        forall|i: int|
            0 < i < segments(s, n).len() ==> (#[trigger] segments(s, n)[i]).japanese != segments(
                s,
                n,
            )[i - 1].japanese,
    decreases n,
{
    let v = segments(s, n);
    if n > 0 {
        law_parts_are_the_title(s, n - 1);
        let before = segments(s, n - 1);
        let c = s[n - 1];
        assert(s.take(n) =~= s.take(n - 1).push(c));
        if before.len() > 0 && before.last().japanese == detect::is_japanese_char(c) {
            let longer = before.last().text.push(c);
            assert(v.drop_last() =~= before.drop_last());
            assert(whole(v.drop_last()) + longer =~= whole(before).push(c));
            assert forall|i: int, k: int|
                0 <= i < v.len() && 0 <= k < v[i].text.len() implies detect::is_japanese_char(
                #[trigger] v[i].text[k],
            ) == v[i].japanese by {
                if i < before.len() - 1 {
                    assert(v[i] == before[i]);
                } else if k < before.last().text.len() {
                    assert(before[i].text[k] == v[i].text[k]);
                }
            }
            assert forall|i: int| 0 < i < v.len() implies (#[trigger] v[i]).japanese != v[i
                - 1].japanese by {
                assert(before[i].japanese != before[i - 1].japanese);
            }
        } else {
            let one = SegmentView { japanese: detect::is_japanese_char(c), text: seq![c] };
            assert(v.drop_last() =~= before);
            assert(whole(before) + one.text =~= whole(before).push(c));
            assert forall|i: int, k: int|
                0 <= i < v.len() && 0 <= k < v[i].text.len() implies detect::is_japanese_char(
                #[trigger] v[i].text[k],
            ) == v[i].japanese by {
                if i < before.len() {
                    assert(v[i] == before[i]);
                }
            }
            assert forall|i: int| 0 < i < v.len() implies (#[trigger] v[i]).japanese != v[i
                - 1].japanese by {
                if i < before.len() {
                    assert(before[i].japanese != before[i - 1].japanese);
                }
            }
        }
    } else {
        assert(s.take(0) =~= Seq::<char>::empty());
    }
}

/// The Japanese parts among the first `n` parts.
pub open spec fn japanese_parts(v: Seq<SegmentView>, n: int) -> Seq<Seq<char>>
    decreases n,
{
    if n <= 0 {
        Seq::empty()
    } else if v[n - 1].japanese {
        japanese_parts(v, n - 1).push(v[n - 1].text)
    } else {
        japanese_parts(v, n - 1)
    }
}

/// The parts of a title as it is read.
pub open spec fn title_parts(input: Seq<char>) -> Seq<SegmentView> {
    let s = normalize::normalized(text::trim(input));
    segments(s, s.len() as int)
}

/// The texts of a title that the dictionary reads.
pub open spec fn runs_of(input: Seq<char>) -> Seq<Seq<char>> {
    japanese_parts(title_parts(input), title_parts(input).len() as int)
}

fn read_parts(input: &str) -> (r: Vec<Segment>)
    ensures
        segment_views(r@) == title_parts(input@),
{
    let n = normalize(str_trim(input).as_str());
    split_title(&chars_of(n.as_str()))
}

/// The texts of a title that the dictionary reads.
pub fn japanese_runs(input: &str) -> (r: Vec<String>)
    ensures
        text::texts(r@) == runs_of(input@),
{
    let parts = read_parts(input);
    let ghost all = segment_views(parts@);
    let mut out: Vec<String> = Vec::new();
    assert(text::texts(out@) =~= Seq::<Seq<char>>::empty());
    for i in 0..parts.len()
        invariant
            all == segment_views(parts@),
            text::texts(out@) == japanese_parts(all, i as int),
    {
        assert(all[i as int] == parts@[i as int]@);
        if parts[i].japanese {
            let ghost before = out@;
            let t = parts[i].text.clone();
            out.push(t);
            assert(text::texts(out@) =~= text::texts(before).push(t@));
        }
    }
    out
}

// ── The title ──────────────────────────────────────────────────────────────

/// A space stands between what ends with the one character and begins with the other.
pub open spec fn needs_space(last: char, first: char) -> bool {
    last != ' ' && first != ' ' && !NO_SPACE_BEFORE@.contains(first) && !NO_SPACE_AFTER@.contains(
        last,
    )
}

/// The first `n` texts one behind the other, with spaces where they are needed.
pub open spec fn strung(v: Seq<Seq<char>>, n: int) -> Seq<char>
    decreases n,
{
    if n <= 0 {
        Seq::empty()
    } else {
        let out = strung(v, n - 1);
        let c = v[n - 1];
        if c.len() == 0 {
            out
        } else if out.len() == 0 {
            c
        } else if needs_space(out.last(), c[0]) {
            out.push(' ') + c
        } else {
            out + c
        }
    }
}

/// Texts as one, with spaces where they are needed.
pub open spec fn strung_together(v: Seq<Seq<char>>) -> Seq<char> {
    spacing::single_spaced(text::trim(strung(v, v.len() as int)))
}

fn chars_contain(s: &str, c: char) -> (r: bool)
    ensures
        r == s@.contains(c),
{
    let chars = chars_of(s);
    for i in 0..chars.len()
        invariant
            chars@ == s@,
            forall|k: int| 0 <= k < i ==> s@[k] != c,
    {
        if chars[i] == c {
            assert(s@[i as int] == c);
            return true;
        }
    }
    false
}

fn wants_space(last: char, first: char) -> (r: bool)
    ensures
        r == needs_space(last, first),
{
    last != ' ' && first != ' ' && !chars_contain(NO_SPACE_BEFORE, first) && !chars_contain(
        NO_SPACE_AFTER,
        last,
    )
}

/// Texts as one, with spaces where they are needed.
pub fn join_chunks(chunks: &Vec<String>) -> (r: String)
    ensures
        r@ == strung_together(text::texts(chunks@)),
{
    let ghost all = text::texts(chunks@);
    let mut out: Vec<char> = Vec::new();
    assert(out@ =~= Seq::<char>::empty());
    for i in 0..chunks.len()
        invariant
            all == text::texts(chunks@),
            out@ == strung(all, i as int),
    {
        assert(all[i as int] == chunks@[i as int]@);
        let c = chars_of(chunks[i].as_str());
        let n: usize = out.len();
        if c.len() > 0 {
            let ghost before = out@;
            if n > 0 && wants_space(out[n - 1], c[0]) {
                out.push(' ');
            }
            push_chars(&mut out, &c);
            if n == 0 {
                assert(out@ =~= c@);
            }
        }
    }
    string_of(&collapse_spaces(chars_trim(&out)))
}

/// A text whose first letter is a capital.
pub open spec fn first_alpha_up(s: Seq<char>) -> Seq<char>
    decreases s.len(),
{
    if s.len() == 0 {
        s
    } else if unicode::is_alphabetic(s[0]) {
        unicode::char_uppercase(s[0]) + s.skip(1)
    } else {
        seq![s[0]] + first_alpha_up(s.skip(1))
    }
}

fn capitalize_first_alpha(s: &str) -> (r: String)
    ensures
        r@ == first_alpha_up(s@),
{
    let chars = chars_of(s);
    let n: usize = chars.len();
    let mut out: Vec<char> = Vec::new();
    let mut i: usize = 0;
    assert(s@.skip(0) =~= s@);
    assert(out@ + first_alpha_up(s@) =~= first_alpha_up(s@));
    while i < n
        invariant
            n == s@.len(),
            chars@ == s@,
            i <= n,
            out@ + first_alpha_up(s@.skip(i as int)) == first_alpha_up(s@),
        decreases n - i,
    {
        let ghost before = out@;
        let ghost rest = s@.skip(i as int);
        assert(rest.skip(1) =~= s@.skip(i + 1));
        let c = chars[i];
        if char_is_alphabetic(c) {
            push_str(&mut out, char_to_uppercase(c).as_str());
            let tail = &chars[i + 1..n];
            assert(tail@ =~= s@.skip(i + 1));
            push_chars(&mut out, tail);
            assert(out@ =~= before + (unicode::char_uppercase(c) + rest.skip(1)));
            return string_of(&out);
        }
        out.push(c);
        assert(out@ + first_alpha_up(rest.skip(1)) =~= before + (seq![c] + first_alpha_up(
            rest.skip(1),
        )));
        i = i + 1;
    }
    assert(s@.skip(n as int) =~= Seq::<char>::empty());
    assert(out@ + Seq::<char>::empty() =~= out@);
    string_of(&out)
}

/// What the dictionary tells of texts.
pub open spec fn readings(v: Seq<Result<Vec<Token>, String>>) -> Seq<
    Result<Seq<TokenView>, Seq<char>>,
> {
    v.map_values(|r: Result<Vec<Token>, String>| tokens_result(r))
}

/// The texts of parts, the Japanese ones by what the dictionary tells of each; or why
/// the first of them that it cannot read could not be read.
pub open spec fn chunks_of(
    o: OverridesView,
    parts: Seq<SegmentView>,
    tokens: Seq<Result<Seq<TokenView>, Seq<char>>>,
) -> Result<Seq<Seq<char>>, Seq<char>>
    decreases parts.len(),
{
    if parts.len() == 0 {
        Ok(Seq::empty())
    } else if !parts[0].japanese {
        match chunks_of(o, parts.skip(1), tokens) {
            Ok(rest) => Ok(seq![parts[0].text] + rest),
            Err(m) => Err(m),
        }
    } else {
        match tokens[0] {
            Err(m) => Err(m),
            Ok(ts) => match chunks_of(o, parts.skip(1), tokens.skip(1)) {
                Ok(rest) => Ok(words_from(o, ts, 0) + rest),
                Err(m) => Err(m),
            },
        }
    }
}

/// The draft of a Japanese title, by what the dictionary tells of its Japanese parts.
pub open spec fn japanese_draft(
    o: OverridesView,
    input: Seq<char>,
    tokens: Seq<Result<Seq<TokenView>, Seq<char>>>,
) -> Result<OutputView, FailureView> {
    match overrides::entry_of(o.full, text::trim(normalize::normalized(text::trim(input)))) {
        Some(t) => Ok(output::draft(t, Script::Japanese)),
        None => match chunks_of(o, title_parts(input), tokens) {
            Ok(chunks) => Ok(output::draft(first_alpha_up(strung_together(chunks)), Script::Japanese)),
            Err(m) => Err(FailureView::Backend("tokenize: "@ + m)),
        },
    }
}

fn push_words(out: &mut Vec<String>, words: Vec<String>)
    ensures
        text::texts(final(out)@) == text::texts(old(out)@) + text::texts(words@),
{
    let ghost start = text::texts(out@);
    let ghost all = text::texts(words@);
    assert(start + all.take(0) =~= start);
    for i in 0..words.len()
        invariant
            all == text::texts(words@),
            text::texts(out@) == start + all.take(i as int),
    {
        let ghost before = out@;
        let w = words[i].clone();
        out.push(w);
        assert(all[i as int] == w@);
        assert(text::texts(out@) =~= text::texts(before).push(w@));
        assert(start + all.take(i + 1) =~= (start + all.take(i as int)).push(w@));
    }
    assert(all.take(all.len() as int) =~= all);
}

proof fn lemma_runs_step(parts: Seq<SegmentView>, i: int)
    requires
        0 <= i <= parts.len(),
    ensures
        japanese_parts(parts, i).len() <= japanese_parts(parts, parts.len() as int).len(),
        i < parts.len() && parts[i].japanese ==> japanese_parts(parts, i).len() < japanese_parts(
            parts,
            parts.len() as int,
        ).len(),
    decreases parts.len() - i,
{
    if i < parts.len() {
        lemma_runs_step(parts, i + 1);
    }
}

/// Texts, or why there are none.
pub open spec fn texts_result(r: Result<Vec<String>, String>) -> Result<Seq<Seq<char>>, Seq<char>> {
    match r {
        Ok(v) => Ok(text::texts(v@)),
        Err(e) => Err(e@),
    }
}

fn render_parts(
    overrides: &Overrides,
    parts: &Vec<Segment>,
    tokens: &Vec<Result<Vec<Token>, String>>,
) -> (r: Result<Vec<String>, String>)
    requires
        tokens@.len() == japanese_parts(segment_views(parts@), parts@.len() as int).len(),
    ensures
        texts_result(r) == chunks_of(overrides@, segment_views(parts@), readings(tokens@)),
{
    let ghost o = overrides@;
    let ghost ps = segment_views(parts@);
    let ghost toks = readings(tokens@);
    let ghost whole = chunks_of(o, ps, toks);
    let mut out: Vec<String> = Vec::new();
    let mut k: usize = 0;
    let m: usize = tokens.len();
    assert(ps.skip(0) =~= ps);
    assert(toks.skip(0) =~= toks);
    assert(text::texts(out@) =~= Seq::<Seq<char>>::empty());
    assert(match whole {
        Ok(v) => text::texts(out@) + v =~= v,
        Err(_) => true,
    });
    for i in 0..parts.len()
        invariant
            o == overrides@,
            ps == segment_views(parts@),
            toks == readings(tokens@),
            m == tokens@.len(),
            m == japanese_parts(ps, ps.len() as int).len(),
            k == japanese_parts(ps, i as int).len(),
            whole == chunks_of(o, ps, toks),
            match chunks_of(o, ps.skip(i as int), toks.skip(k as int)) {
                Ok(rest) => whole == Ok::<Seq<Seq<char>>, Seq<char>>(text::texts(out@) + rest),
                Err(m) => whole == Err::<Seq<Seq<char>>, Seq<char>>(m),
            },
    {
        proof {
            lemma_runs_step(ps, i as int);
            assert(ps[i as int] == parts@[i as int]@);
            assert(ps.skip(i as int)[0] == ps[i as int]);
            assert(ps.skip(i as int).skip(1) =~= ps.skip(i + 1));
        }
        let ghost before = text::texts(out@);
        if !parts[i].japanese {
            let t = parts[i].text.clone();
            out.push(t);
            assert(text::texts(out@) =~= before.push(t@));
            proof {
                match chunks_of(o, ps.skip(i + 1), toks.skip(k as int)) {
                    Ok(rest) => {
                        assert(before.push(t@) + rest =~= before + (seq![t@] + rest));
                    },
                    Err(_) => {},
                }
            }
        } else {
            assert(toks.skip(k as int)[0] == tokens_result(tokens@[k as int]));
            assert(toks.skip(k as int).skip(1) =~= toks.skip(k + 1));
            match &tokens[k] {
                Err(m) => {
                    return Err(m.clone());
                },
                Ok(ts) => {
                    let words = romanize_tokens(overrides, ts);
                    let ghost w = text::texts(words@);
                    push_words(&mut out, words);
                    proof {
                        match chunks_of(o, ps.skip(i + 1), toks.skip(k + 1)) {
                            Ok(rest) => {
                                assert((before + w) + rest =~= before + (w + rest));
                            },
                            Err(_) => {},
                        }
                    }
                },
            }
            k = k + 1;
        }
    }
    assert(ps.skip(ps.len() as int) =~= Seq::<SegmentView>::empty());
    assert(text::texts(out@) + Seq::<Seq<char>>::empty() =~= text::texts(out@));
    Ok(out)
}

/// The draft of a Japanese title, by what the dictionary tells of its Japanese parts.
pub fn transliterate_with(
    overrides: &Overrides,
    input: &str,
    tokens: &Vec<Result<Vec<Token>, String>>,
) -> (r: Result<TransliterationOutput, TransliterationError>)
    requires
        tokens@.len() == runs_of(input@).len(),
    ensures
        output::outcome(r) == japanese_draft(overrides@, input@, readings(tokens@)),
{
    let name = normalize(str_trim(input).as_str());
    if let Some(pinned) = overrides.full_lookup(name.as_str()) {
        return Ok(write_draft(String::from_str(pinned), Script::Japanese));
    }
    let parts = read_parts(input);
    assert(parts@.len() == segment_views(parts@).len());
    match render_parts(overrides, &parts, tokens) {
        Ok(chunks) => {
            let text = capitalize_first_alpha(join_chunks(&chunks).as_str());
            Ok(write_draft(text, Script::Japanese))
        },
        Err(m) => Err(TransliterationError::Backend(cat2("tokenize: ", m.as_str()))),
    }
}

/// What writes Japanese titles in Latin letters.
pub struct JapaneseTransliterator {
    pub tokenizer: lindera::tokenizer::Tokenizer,
    pub overrides: Overrides,
}

impl JapaneseTransliterator {
    /// Load the dictionary. Whether it is there depends on how the crate was built.
    pub fn new() -> (r: Result<JapaneseTransliterator, TransliterationError>)
        ensures
            match r {
                Ok(t) => t.overrides@ == overrides::seeded(),
                Err(e) => e matches TransliterationError::Backend(m) && text::starts_with(
                    m@,
                    "load ipadic: "@,
                ),
            },
    {
        match load_tokenizer() {
            Ok(tokenizer) => Ok(JapaneseTransliterator { tokenizer, overrides: Overrides::seed() }),
            Err(e) => {
                let m = cat2("load ipadic: ", e.as_str());
                assert(m@.take("load ipadic: "@.len() as int) =~= "load ipadic: "@);
                Err(TransliterationError::Backend(m))
            },
        }
    }
}

/// What a dictionary tells of texts.
pub open spec fn readings_by(t: lindera::tokenizer::Tokenizer, runs: Seq<Seq<char>>) -> Seq<
    Result<Seq<TokenView>, Seq<char>>,
> {
    runs.map_values(|r: Seq<char>| tokens_of(t, r))
}

fn tokenize_all(tokenizer: &lindera::tokenizer::Tokenizer, runs: &Vec<String>) -> (r: Vec<
    Result<Vec<Token>, String>,
>)
    ensures
        readings(r@) == readings_by(*tokenizer, text::texts(runs@)),
{
    let ghost all = readings_by(*tokenizer, text::texts(runs@));
    let mut out: Vec<Result<Vec<Token>, String>> = Vec::new();
    assert(readings(out@) =~= all.take(0));
    for i in 0..runs.len()
        invariant
            all == readings_by(*tokenizer, text::texts(runs@)),
            readings(out@) == all.take(i as int),
    {
        let ghost before = out@;
        let t = tokenize(tokenizer, runs[i].as_str());
        let ghost told = tokens_result(t);
        out.push(t);
        assert(all[i as int] == told);
        assert(readings(out@) =~= readings(before).push(told));
        assert(all.take(i + 1) =~= all.take(i as int).push(told));
    }
    assert(all.take(all.len() as int) =~= all);
    out
}

impl Transliterator for JapaneseTransliterator {
    open spec fn reads(&self) -> Script {
        Script::Japanese
    }

    open spec fn drafts(&self, input: Seq<char>) -> Result<OutputView, FailureView> {
        japanese_draft(self.overrides@, input, readings_by(self.tokenizer, runs_of(input)))
    }

    fn script(&self) -> (r: Script) {
        Script::Japanese
    }

    fn transliterate(&self, input: &str) -> (r: Result<TransliterationOutput, TransliterationError>) {
        let runs = japanese_runs(input);
        let tokens = tokenize_all(&self.tokenizer, &runs);
        assert(readings(tokens@).len() == text::texts(runs@).len());
        transliterate_with(&self.overrides, input, &tokens)
    }
}

} // verus!
