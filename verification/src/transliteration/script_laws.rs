//! What the drafts of titles in other scripts keep.

use vstd::prelude::*;

use crate::transliteration::output::Transliterator;

use crate::text;
use crate::transliteration::chinese;
use crate::transliteration::detect;
use crate::transliteration::greek;
use crate::transliteration::output::{self, FailureView, OutputView, Script};
use crate::transliteration::registry::{self, Backend};
use crate::transliteration::russian;

verus! {

/// A title is Japanese exactly if one of its parts is.
pub proof fn law_parts_are_detected(a: Seq<char>, b: Seq<char>)
    ensures
        detect::has_japanese(a + b) <==> detect::has_japanese(a) || detect::has_japanese(b),
{
    let all = a + b;
    if detect::has_japanese(a) {
        let i = choose|i: int| 0 <= i < a.len() && detect::is_japanese_char(#[trigger] a[i]);
        assert(all[i] == a[i]);
    }
    if detect::has_japanese(b) {
        let i = choose|i: int| 0 <= i < b.len() && detect::is_japanese_char(#[trigger] b[i]);
        assert(all[a.len() + i] == b[i]);
    }
    if detect::has_japanese(all) {
        let i = choose|i: int| 0 <= i < all.len() && detect::is_japanese_char(#[trigger] all[i]);
        if i < a.len() {
            assert(a[i] == all[i]);
        } else {
            assert(b[i - a.len()] == all[i]);
        }
    }
}

/// A title of ASCII is not taken for a Japanese one.
pub proof fn law_ascii_is_not_japanese(s: Seq<char>)
    requires
        forall|i: int| 0 <= i < s.len() ==> (#[trigger] s[i] as u32) < 0x80,
    ensures
        !detect::has_japanese(s),
{
}

/// A title is handed, without the space around it, to the first that reads the script that
/// was asked for, and what that makes of it is the draft.
pub proof fn law_asked_scripts_are_read(
    v: Seq<Backend>,
    input: Seq<char>,
    script: Script,
    k: int,
)
    requires
        0 <= k < v.len(),
        v[k].reads() == script,
        forall|j: int| 0 <= j < k ==> (#[trigger] v[j]).reads() != script,
        text::trim(input).len() > 0,
    ensures
        registry::draft_by(v, input, Some(script)) == v[k].drafts(text::trim(input)),
{
    lemma_backend_for(v, script, k);
}

proof fn lemma_backend_for(v: Seq<Backend>, script: Script, k: int)
    requires
        0 <= k < v.len(),
        v[k].reads() == script,
        forall|j: int| 0 <= j < k ==> (#[trigger] v[j]).reads() != script,
    ensures
        registry::backend_for(v, script) == Some(k),
    decreases v.len(),
{
    let front = v.drop_last();
    if k < front.len() {
        assert(front[k] == v[k]);
        assert forall|j: int| 0 <= j < k implies (#[trigger] front[j]).reads() != script by {
            assert(front[j] == v[j]);
        }
        lemma_backend_for(front, script, k);
    } else {
        assert forall|j: int| 0 <= j < front.len() implies (#[trigger] front[j]).reads()
            != script by {
            assert(front[j] == v[j]);
        }
        lemma_no_backend(front, script);
    }
}

proof fn lemma_no_backend(v: Seq<Backend>, script: Script)
    requires
        forall|j: int| 0 <= j < v.len() ==> (#[trigger] v[j]).reads() != script,
    ensures
        registry::backend_for(v, script) is None,
    decreases v.len(),
{
    if v.len() > 0 {
        let front = v.drop_last();
        assert forall|j: int| 0 <= j < front.len() implies (#[trigger] front[j]).reads()
            != script by {
            assert(front[j] == v[j]);
        }
        lemma_no_backend(front, script);
        assert(v[v.len() - 1] == v.last());
    }
}

/// A title that nothing is asked of is read as Japanese if it is, and refused if it is not.
pub proof fn law_unasked_titles(v: Seq<Backend>, input: Seq<char>)
    requires
        text::trim(input).len() > 0,
    ensures
        detect::has_japanese(text::trim(input)) ==> registry::draft_by(v, input, None) == registry::draft_by(
            v,
            input,
            Some(Script::Japanese),
        ),
        !detect::has_japanese(text::trim(input)) ==> registry::draft_by(v, input, None) == Err::<OutputView, FailureView>(
            FailureView::UnsupportedScript,
        ),
{
}

/// No two scripts have the same name.
pub proof fn law_scripts_have_their_names(a: Script, b: Script)
    ensures
        output::script_name(a) == output::script_name(b) ==> a == b,
{
    reveal_strlit("japanese");
    reveal_strlit("chinese");
    reveal_strlit("greek");
    reveal_strlit("russian");
    assert("japanese"@.len() == 8 && "chinese"@.len() == 7 && "greek"@.len() == 5);
    assert("russian"@.len() == 7 && "chinese"@[0] == 'c' && "russian"@[0] == 'r');
}

// ── Greek ──────────────────────────────────────────────────────────────────

/// A letter has the same name with an accent as without one, and the sigma at the end of a
/// word the name of the other.
pub proof fn law_accents_do_not_matter()
    ensures
        greek::small_letter_name('ά') == greek::small_letter_name('α'),
        greek::small_letter_name('έ') == greek::small_letter_name('ε'),
        greek::small_letter_name('ή') == greek::small_letter_name('η'),
        greek::small_letter_name('ί') == greek::small_letter_name('ι'),
        greek::small_letter_name('ϊ') == greek::small_letter_name('ι'),
        greek::small_letter_name('ΐ') == greek::small_letter_name('ι'),
        greek::small_letter_name('ό') == greek::small_letter_name('ο'),
        greek::small_letter_name('ύ') == greek::small_letter_name('υ'),
        greek::small_letter_name('ϋ') == greek::small_letter_name('υ'),
        greek::small_letter_name('ΰ') == greek::small_letter_name('υ'),
        greek::small_letter_name('ώ') == greek::small_letter_name('ω'),
        greek::small_letter_name('ς') == greek::small_letter_name('σ'),
{
}

// ── Russian ────────────────────────────────────────────────────────────────

/// The letter `ц` is one letter before those that are written with an `i`, `e`, `y` or `j`,
/// and two letters before all others and at the end.
pub proof fn law_letter_tse(c: char)
    ensures
        russian::latin_letter('ц', Some('и')) == Some("c"@),
        russian::latin_letter('ц', Some('е')) == Some("c"@),
        russian::latin_letter('ц', Some('ы')) == Some("c"@),
        russian::latin_letter('ц', Some('й')) == Some("c"@),
        russian::latin_letter('ц', Some('а')) == Some("cz"@),
        russian::latin_letter('ц', None) == Some("cz"@),
        russian::latin_letter('Ц', Some(c)) == russian::latin_letter('ц', Some(c)),
{
}

/// A capital is written with the letters of the small one: the first of them as a capital, and
/// all of them among other capitals.
pub proof fn law_capitals_are_written_as_capitals(latin: Seq<char>)
    requires
        forall|i: int| 0 <= i < latin.len() ==> text::lower(#[trigger] latin[i]) == latin[i],
    ensures
        text::lower_text(russian::cased(latin, true)) == latin,
        text::lower_text(russian::cased(latin, false)) == latin,
        russian::cased(latin, true).len() == latin.len(),
        latin.len() > 0 && text::is_letter(latin[0]) ==> russian::cased(latin, false)[0] == text::upper(latin[0])
            && russian::cased(latin, false).skip(1) == latin.skip(1),
        forall|i: int| 0 <= i < latin.len() ==> russian::cased(latin, true)[i] == text::upper(#[trigger] latin[i]),
{
    assert forall|c: char| text::lower(c) == c implies text::lower(#[trigger] text::upper(c)) == c by {
        if 'a' <= c <= 'z' {
            let u = (c as int - 32) as char;
            assert('A' <= u <= 'Z');
            assert((u as int + 32) as char == c);
        }
    }
    assert(text::lower_text(russian::cased(latin, true)) =~= latin);
    lemma_first_up(latin);
    if latin.len() > 0 && text::is_letter(latin[0]) {
        assert(russian::first_letter_up(latin).skip(1) =~= latin.skip(1));
    }
}

proof fn lemma_first_up(s: Seq<char>)
    requires
        forall|i: int| 0 <= i < s.len() ==> text::lower(#[trigger] s[i]) == s[i],
        forall|c: char| text::lower(c) == c ==> text::lower(#[trigger] text::upper(c)) == c,
    ensures
        text::lower_text(russian::first_letter_up(s)) == s,
    decreases s.len(),
{
    if s.len() == 0 {
        assert(text::lower_text(russian::first_letter_up(s)) =~= s);
    } else if text::is_letter(s[0]) {
        let r = russian::first_letter_up(s);
        assert forall|i: int| 0 <= i < s.len() implies text::lower_text(r)[i] == s[i] by {
            if i == 0 {
                assert(text::lower(text::upper(s[0])) == s[0]);
            } else {
                assert(r[i] == s[i]);
            }
        }
        assert(text::lower_text(r) =~= s);
    } else {
        let t = s.skip(1);
        assert forall|i: int| 0 <= i < t.len() implies text::lower(#[trigger] t[i]) == t[i] by {
            assert(t[i] == s[i + 1]);
        }
        lemma_first_up(t);
        let r = russian::first_letter_up(s);
        assert forall|i: int| 0 <= i < s.len() implies text::lower_text(r)[i] == s[i] by {
            if i > 0 {
                assert(r[i] == russian::first_letter_up(t)[i - 1]);
                assert(text::lower_text(russian::first_letter_up(t))[i - 1] == t[i - 1]);
            } else {
                assert(text::lower(s[0]) == s[0]);
            }
        }
        assert(text::lower_text(r) =~= s);
    }
}

// ── Chinese ────────────────────────────────────────────────────────────────

/// Digits and letters of full width are written as those of ASCII.
pub proof fn law_wide_characters_are_narrowed(n: u32)
    ensures
        n < 10 ==> chinese::western(((0xFF10 + n) as u32) as char) == ((0x30 + n) as u32) as char,
        n < 26 ==> chinese::western(((0xFF21 + n) as u32) as char) == ((0x41 + n) as u32) as char,
        n < 26 ==> chinese::western(((0xFF41 + n) as u32) as char) == ((0x61 + n) as u32) as char,
{
}

/// Brackets are written as brackets that open and close in the same places.
pub proof fn law_brackets_stay_in_pairs()
    ensures
        chinese::western('（') == '(' && chinese::western('）') == ')',
        chinese::western('《') == '[' && chinese::western('》') == ']',
        chinese::western('「') == '[' && chinese::western('」') == ']',
        chinese::western('【') == '[' && chinese::western('】') == ']',
        chinese::western('，') == ',' && chinese::western('。') == '.',
        chinese::western('：') == ':' && chinese::western('？') == '?',
{
}

proof fn lemma_unknown(s: Seq<char>, n: int)
    requires
        0 <= n <= s.len(),
    ensures
        chinese::write_all(s, n).unknown <==> exists|i: int|
            0 <= i < n && !text::is_space(#[trigger] s[i]) && chinese::is_han(s[i]) && chinese::plain_pinyin(s[i]) is None,
    decreases n,
{
    if n > 0 {
        lemma_unknown(s, n - 1);
    }
}

/// A draft has a hint exactly if some Han character of the title has no syllable.
pub proof fn law_unknown_characters_are_noted(s: Seq<char>)
    ensures
        chinese::chinese_draft(s).notes.len() > 0 <==> exists|i: int|
            0 <= i < s.len() && !text::is_space(#[trigger] s[i]) && chinese::is_han(s[i]) && chinese::plain_pinyin(s[i])
                is None,
        chinese::chinese_draft(s).script == Script::Chinese,
{
    lemma_unknown(s, s.len() as int);
}

} // verus!
