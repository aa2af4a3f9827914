//! The writing systems that titles are read in.

use vstd::prelude::*;

use crate::text::{self, str_trim};
use crate::transliteration::chinese::ChineseTransliterator;
use crate::transliteration::detect::{self, detect_script};
use crate::transliteration::greek::GreekTransliterator;
use crate::transliteration::japanese::overrides;
use crate::transliteration::japanese::transliterator::JapaneseTransliterator;
use crate::transliteration::output::{
    self, FailureView, OutputView, Script, TransliterationError, TransliterationOutput,
    Transliterator,
};
use crate::transliteration::russian::RussianTransliterator;

verus! {

/// What writes the titles of one script in Latin letters.
pub enum Backend {
    Japanese(JapaneseTransliterator),
    Chinese(ChineseTransliterator),
    Greek(GreekTransliterator),
    Russian(RussianTransliterator),
}

impl Transliterator for Backend {
    open spec fn reads(&self) -> Script {
        match self {
            Backend::Japanese(t) => t.reads(),
            Backend::Chinese(t) => t.reads(),
            Backend::Greek(t) => t.reads(),
            Backend::Russian(t) => t.reads(),
        }
    }

    open spec fn drafts(&self, input: Seq<char>) -> Result<OutputView, FailureView> {
        match self {
            Backend::Japanese(t) => t.drafts(input),
            Backend::Chinese(t) => t.drafts(input),
            Backend::Greek(t) => t.drafts(input),
            Backend::Russian(t) => t.drafts(input),
        }
    }

    fn script(&self) -> (r: Script) {
        match self {
            Backend::Japanese(t) => t.script(),
            Backend::Chinese(t) => t.script(),
            Backend::Greek(t) => t.script(),
            Backend::Russian(t) => t.script(),
        }
    }

    fn transliterate(&self, input: &str) -> (r: Result<TransliterationOutput, TransliterationError>) {
        match self {
            Backend::Japanese(t) => t.transliterate(input),
            Backend::Chinese(t) => t.transliterate(input),
            Backend::Greek(t) => t.transliterate(input),
            Backend::Russian(t) => t.transliterate(input),
        }
    }
}

/// What writes titles in Latin letters, at most one for each script.
pub struct TransliterationRegistry {
    pub backends: Vec<Backend>,
}

/// The position of what reads a script.
pub open spec fn backend_for(v: Seq<Backend>, script: Script) -> Option<int>
    decreases v.len(),
{
    if v.len() == 0 {
        None
    } else {
        match backend_for(v.drop_last(), script) {
            Some(k) => Some(k),
            None => if v.last().reads() == script {
                Some(v.len() - 1)
            } else {
                None
            },
        }
    }
}

/// The script that a title is read in: the one that is asked for, or else the one it is
/// written in.
pub open spec fn script_for(input: Seq<char>, script: Option<Script>) -> Option<Script> {
    if script is Some {
        script
    } else if detect::has_japanese(text::trim(input)) {
        Some(Script::Japanese)
    } else {
        None
    }
}

/// The title and script that are handed on, or why there are none; told by whether a
/// script is read.
pub open spec fn dispatched(
    input: Seq<char>,
    script: Option<Script>,
    is_read: spec_fn(Script) -> bool,
) -> Result<(Seq<char>, Script), FailureView> {
    if text::trim(input).len() == 0 {
        Err(FailureView::EmptyInput)
    } else {
        match script_for(input, script) {
            Some(s) => if is_read(s) {
                Ok((text::trim(input), s))
            } else {
                Err(FailureView::UnsupportedScript)
            },
            None => Err(FailureView::UnsupportedScript),
        }
    }
}

/// A title and a script, or why there are none.
pub open spec fn dispatch_view(r: Result<(String, Script), TransliterationError>) -> Result<
    (Seq<char>, Script),
    FailureView,
> {
    match r {
        Ok(p) => Ok((p.0@, p.1)),
        Err(e) => Err(e@),
    }
}

fn choose_script(input: &str, script: Option<Script>) -> (r: Option<Script>)
    ensures
        r == script_for(input@, script),
{
    match script {
        Some(s) => Some(s),
        None => detect_script(str_trim(input).as_str()),
    }
}

/// The title and script that are handed on where these scripts are read.
pub fn dispatch(input: &str, script: Option<Script>, scripts: &Vec<Script>) -> (r: Result<
    (String, Script),
    TransliterationError,
>)
    ensures
        dispatch_view(r) == dispatched(input@, script, |s: Script| scripts@.contains(s)),
{
    let trimmed = str_trim(input);
    if trimmed.as_str().is_empty() {
        return Err(TransliterationError::EmptyInput);
    }
    let chosen = match choose_script(input, script) {
        Some(s) => s,
        None => {
            return Err(TransliterationError::UnsupportedScript);
        },
    };
    for i in 0..scripts.len()
        invariant
            forall|k: int| 0 <= k < i ==> #[trigger] scripts@[k] != chosen,
            text::trim(input@).len() > 0,
            trimmed@ == text::trim(input@),
            script_for(input@, script) == Some(chosen),
    {
        if scripts[i] == chosen {
            assert(scripts@[i as int] == chosen);
            return Ok((trimmed, chosen));
        }
    }
    Err(TransliterationError::UnsupportedScript)
}

/// The scripts of what reads them.
pub open spec fn scripts_of(v: Seq<Backend>) -> Seq<Script> {
    v.map_values(|b: Backend| b.reads())
}

proof fn lemma_backend_for(v: Seq<Backend>, script: Script)
    ensures
        match backend_for(v, script) {
            Some(k) => 0 <= k < v.len() && v[k].reads() == script,
            None => forall|i: int| 0 <= i < v.len() ==> (#[trigger] v[i]).reads() != script,
        },
        backend_for(v, script) is Some <==> scripts_of(v).contains(script),
    decreases v.len(),
{
    if v.len() > 0 {
        let d = v.drop_last();
        lemma_backend_for(d, script);
        if backend_for(v, script) is None {
            assert forall|i: int| 0 <= i < v.len() implies (#[trigger] v[i]).reads() != script by {
                if i < d.len() {
                    assert(v[i] == d[i]);
                }
            }
        } else if backend_for(d, script) is Some {
            assert(v[backend_for(d, script)->0] == d[backend_for(d, script)->0]);
        }
    }
    match backend_for(v, script) {
        Some(k) => {
            assert(scripts_of(v)[k] == script);
        },
        None => {
            if scripts_of(v).contains(script) {
                let i = choose|i: int| 0 <= i < v.len() && scripts_of(v)[i] == script;
                assert(v[i].reads() == script);
            }
        },
    }
}

/// The draft of a title by what reads its script.
pub open spec fn draft_by(v: Seq<Backend>, input: Seq<char>, script: Option<Script>) -> Result<
    OutputView,
    FailureView,
> {
    match dispatched(input, script, |s: Script| backend_for(v, s) is Some) {
        Ok(p) => v[backend_for(v, p.1)->0].drafts(p.0),
        Err(e) => Err(e),
    }
}

impl TransliterationRegistry {
    /// What reads Japanese titles; the dictionary has to be there.
    pub fn new() -> (r: Result<TransliterationRegistry, TransliterationError>)
        ensures
            match r {
                Ok(t) => {
                    &&& t.backends@.len() == 1
                    &&& t.backends@[0] matches Backend::Japanese(j)
                    &&& j.overrides@ == overrides::seeded()
                },
                Err(e) => e matches TransliterationError::Backend(m) && text::starts_with(
                    m@,
                    "load ipadic: "@,
                ),
            },
    {
        match JapaneseTransliterator::new() {
            Ok(j) => {
                let mut backends: Vec<Backend> = Vec::new();
                backends.push(Backend::Japanese(j));
                Ok(TransliterationRegistry { backends })
            },
            Err(e) => Err(e),
        }
    }

    fn find(&self, script: Script) -> (r: Option<usize>)
        ensures
            match r {
                Some(k) => backend_for(self.backends@, script) == Some(k as int) && k
                    < self.backends@.len(),
                None => backend_for(self.backends@, script) is None,
            },
    {
        let mut found: Option<usize> = None;
        assert(self.backends@.take(0) =~= Seq::<Backend>::empty());
        for i in 0..self.backends.len()
            invariant
                match found {
                    Some(k) => backend_for(self.backends@.take(i as int), script) == Some(
                        k as int,
                    ) && k < i,
                    None => backend_for(self.backends@.take(i as int), script) is None,
                },
        {
            assert(self.backends@.take(i + 1).drop_last() =~= self.backends@.take(i as int));
            if found.is_none() && self.backends[i].script() == script {
                found = Some(i);
            }
        }
        assert(self.backends@.take(self.backends@.len() as int) =~= self.backends@);
        found
    }

    /// Whether a script is read.
    pub fn supports(&self, script: Script) -> (r: bool)
        ensures
            r == (backend_for(self.backends@, script) is Some),
    {
        self.find(script).is_some()
    }

    fn scripts(&self) -> (r: Vec<Script>)
        ensures
            r@ == scripts_of(self.backends@),
    {
        let ghost all = scripts_of(self.backends@);
        let mut out: Vec<Script> = Vec::new();
        for i in 0..self.backends.len()
            invariant
                all == scripts_of(self.backends@),
                out@ == all.take(i as int),
        {
            out.push(self.backends[i].script());
            assert(all.take(i + 1) =~= all.take(i as int).push(all[i as int]));
        }
        assert(all.take(all.len() as int) =~= all);
        out
    }

    /// The draft of a title, read in the script that is asked for, or else in the one it
    /// is written in.
    pub fn transliterate(&self, input: &str, script: Option<Script>) -> (r: Result<
        TransliterationOutput,
        TransliterationError,
    >)
        ensures
            output::outcome(r) == draft_by(self.backends@, input@, script),
    {
        let scripts = self.scripts();
        proof {
            let a = |s: Script| scripts@.contains(s);
            let b = |s: Script| backend_for(self.backends@, s) is Some;
            assert forall|s: Script| #[trigger] a(s) == b(s) by {
                lemma_backend_for(self.backends@, s);
            }
            assert(a =~= b);
        }
        match dispatch(input, script, &scripts) {
            Ok((text, s)) => match self.find(s) {
                Some(k) => self.backends[k].transliterate(text.as_str()),
                None => Err(TransliterationError::UnsupportedScript),
            },
            Err(e) => Err(e),
        }
    }
}

/// A blank title is refused as empty; a title in no script that is read, with none asked
/// for, is refused as unsupported.
pub proof fn law_refused_titles(v: Seq<Backend>, input: Seq<char>)
    ensures
        text::is_blank(input) ==> forall|s: Option<Script>| #[trigger]
            draft_by(v, input, s) == Err::<OutputView, FailureView>(FailureView::EmptyInput),
        !text::is_blank(input) && !detect::has_japanese(text::trim(input)) ==> draft_by(v, input, None) == Err::<
            OutputView,
            FailureView,
        >(FailureView::UnsupportedScript),
{
}

} // verus!
