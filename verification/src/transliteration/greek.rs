//! Greek letters in titles, written by their names.

use vstd::prelude::*;

use crate::text::{self, chars_of, push_str, string_of};
use crate::transliteration::output::{
    self, FailureView, OutputView, Script, TransliterationError, TransliterationOutput,
    Transliterator, write_draft,
};
use crate::transliteration::russian::{self, lower_char};
use crate::unicode::{self, char_is_alphanumeric};

verus! {

/// What writes Greek letters by their names.
pub struct GreekTransliterator;

impl GreekTransliterator {
    /// What writes Greek letters by their names.
    pub fn new() -> (r: GreekTransliterator)
        ensures
            r == GreekTransliterator,
    {
        GreekTransliterator
    }
}

/// The name of a small Greek letter, whatever its accent.
pub open spec fn small_letter_name(c: char) -> Option<Seq<char>> {
    match c {
        'α' | 'ά' => Some("Alpha"@),
        'β' => Some("Beta"@),
        'γ' => Some("Gamma"@),
        'δ' => Some("Delta"@),
        'ε' | 'έ' => Some("Epsilon"@),
        'ζ' => Some("Zeta"@),
        'η' | 'ή' => Some("Eta"@),
        'θ' => Some("Theta"@),
        'ι' | 'ί' | 'ϊ' | 'ΐ' => Some("Iota"@),
        'κ' => Some("Kappa"@),
        'λ' => Some("Lambda"@),
        'μ' => Some("Mu"@),
        'ν' => Some("Nu"@),
        'ξ' => Some("Xi"@),
        'ο' | 'ό' => Some("Omicron"@),
        'π' => Some("Pi"@),
        'ρ' => Some("Rho"@),
        'σ' | 'ς' => Some("Sigma"@),
        'τ' => Some("Tau"@),
        'υ' | 'ύ' | 'ϋ' | 'ΰ' => Some("Upsilon"@),
        'φ' => Some("Phi"@),
        'χ' => Some("Chi"@),
        'ψ' => Some("Psi"@),
        'ω' | 'ώ' => Some("Omega"@),
        _ => None,
    }
}

fn letter_name(c: char) -> (r: Option<&'static str>)
    ensures
        text::opt_str(r) == small_letter_name(russian::small(c)),
{
    match lower_char(c) {
        'α' | 'ά' => Some("Alpha"),
        'β' => Some("Beta"),
        'γ' => Some("Gamma"),
        'δ' => Some("Delta"),
        'ε' | 'έ' => Some("Epsilon"),
        'ζ' => Some("Zeta"),
        'η' | 'ή' => Some("Eta"),
        'θ' => Some("Theta"),
        'ι' | 'ί' | 'ϊ' | 'ΐ' => Some("Iota"),
        'κ' => Some("Kappa"),
        'λ' => Some("Lambda"),
        'μ' => Some("Mu"),
        'ν' => Some("Nu"),
        'ξ' => Some("Xi"),
        'ο' | 'ό' => Some("Omicron"),
        'π' => Some("Pi"),
        'ρ' => Some("Rho"),
        'σ' | 'ς' => Some("Sigma"),
        'τ' => Some("Tau"),
        'υ' | 'ύ' | 'ϋ' | 'ΰ' => Some("Upsilon"),
        'φ' => Some("Phi"),
        'χ' => Some("Chi"),
        'ψ' => Some("Psi"),
        'ω' | 'ώ' => Some("Omega"),
        _ => None,
    }
}

/// A text ends with a letter or a digit.
pub open spec fn ends_in_word(s: Seq<char>) -> bool {
    s.len() > 0 && unicode::is_alphanumeric(s.last())
}

/// The first `n` characters of a title: letters by their names, which stand apart from
/// other letters and digits; and whether the last of them is a name.
pub open spec fn names(s: Seq<char>, n: int) -> (Seq<char>, bool)
    decreases n,
{
    if n <= 0 {
        (Seq::empty(), false)
    } else {
        let (out, named) = names(s, n - 1);
        let c = s[n - 1];
        match small_letter_name(russian::small(c)) {
            Some(name) => (
                (if ends_in_word(out) {
                    out.push(' ')
                } else {
                    out
                }) + name,
                true,
            ),
            None => (
                (if named && unicode::is_alphanumeric(c) {
                    out.push(' ')
                } else {
                    out
                }).push(c),
                false,
            ),
        }
    }
}

fn push_char_or_name(out: &mut Vec<char>, named: bool, c: char) -> (r: bool)
    ensures
        ({
            let o = old(out)@;
            match small_letter_name(russian::small(c)) {
                Some(name) => r && final(out)@ == (if ends_in_word(o) {
                    o.push(' ')
                } else {
                    o
                }) + name,
                None => !r && final(out)@ == (if named && unicode::is_alphanumeric(c) {
                    o.push(' ')
                } else {
                    o
                }).push(c),
            }
        }),
{
    match letter_name(c) {
        Some(name) => {
            let n: usize = out.len();
            if n > 0 && char_is_alphanumeric(out[n - 1]) {
                out.push(' ');
            }
            push_str(out, name);
            true
        },
        None => {
            if named && char_is_alphanumeric(c) {
                out.push(' ');
            }
            out.push(c);
            false
        },
    }
}

impl Transliterator for GreekTransliterator {
    open spec fn reads(&self) -> Script {
        Script::Greek
    }

    open spec fn drafts(&self, input: Seq<char>) -> Result<OutputView, FailureView> {
        Ok(output::draft(names(input, input.len() as int).0, Script::Greek))
    }

    fn script(&self) -> (r: Script) {
        Script::Greek
    }

    fn transliterate(&self, input: &str) -> (r: Result<TransliterationOutput, TransliterationError>) {
        let chars = chars_of(input);
        let mut out: Vec<char> = Vec::new();
        let mut prev_was_name = false;
        assert(out@ =~= Seq::<char>::empty());
        for i in 0..chars.len()
            invariant
                chars@ == input@,
                (out@, prev_was_name) == names(input@, i as int),
        {
            prev_was_name = push_char_or_name(&mut out, prev_was_name, chars[i]);
        }
        Ok(write_draft(string_of(&out), Script::Greek))
    }
}

/// A title without Greek letters stays as it is.
pub proof fn law_titles_without_greek_stay(s: Seq<char>, n: int)
    requires
        0 <= n <= s.len(),
        forall|i: int| 0 <= i < n ==> small_letter_name(#[trigger] russian::small(s[i])) is None,
    ensures
        names(s, n) == (s.take(n), false),
    decreases n,
{
    if n > 0 {
        law_titles_without_greek_stay(s, n - 1);
        assert(small_letter_name(russian::small(s[n - 1])) is None);
        assert(s.take(n) =~= s.take(n - 1).push(s[n - 1]));
    } else {
        assert(s.take(0) =~= Seq::<char>::empty());
    }
}

} // verus!
