//! What a transliteration gives.

use vstd::prelude::*;

use crate::text::{self, cat2};

verus! {

/// A writing system.
#[derive(Debug, Clone, Copy, PartialEq, Eq, Hash, Structural)]
pub enum Script {
    Japanese,
    Chinese,
    Greek,
    Russian,
}

impl Script {
    /// The name of a writing system.
    pub fn as_str(self) -> (r: &'static str)
        ensures
            r@ == script_name(self),
    {
        match self {
            Script::Japanese => "japanese",
            Script::Chinese => "chinese",
            Script::Greek => "greek",
            Script::Russian => "russian",
        }
    }
}

/// The name of a writing system.
pub open spec fn script_name(s: Script) -> Seq<char> {
    match s {
        Script::Japanese => "japanese"@,
        Script::Chinese => "chinese"@,
        Script::Greek => "greek"@,
        Script::Russian => "russian"@,
    }
}

/// A draft in Latin letters, the script it was written in, and hints for the reader.
#[derive(Debug, PartialEq)]
pub struct TransliterationOutput {
    pub text: String,
    pub script: Script,
    pub notes: Vec<String>,
}

/// A draft in Latin letters.
pub struct OutputView {
    pub text: Seq<char>,
    pub script: Script,
    pub notes: Seq<Seq<char>>,
}

impl View for TransliterationOutput {
    type V = OutputView;

    open spec fn view(&self) -> OutputView {
        OutputView { text: self.text@, script: self.script, notes: text::texts(self.notes@) }
    }
}

/// A draft without hints.
pub open spec fn draft(text: Seq<char>, script: Script) -> OutputView {
    OutputView { text, script, notes: Seq::empty() }
}

/// Why there is no draft.
#[derive(Debug, PartialEq)]
pub enum TransliterationError {
    EmptyInput,
    UnsupportedScript,
    Backend(String),
}

/// Why there is no draft.
pub enum FailureView {
    EmptyInput,
    UnsupportedScript,
    Backend(Seq<char>),
}

impl View for TransliterationError {
    type V = FailureView;

    open spec fn view(&self) -> FailureView {
        match self {
            TransliterationError::EmptyInput => FailureView::EmptyInput,
            TransliterationError::UnsupportedScript => FailureView::UnsupportedScript,
            TransliterationError::Backend(m) => FailureView::Backend(m@),
        }
    }
}

/// The message of a failure.
pub open spec fn failure_text(e: FailureView) -> Seq<char> {
    match e {
        FailureView::EmptyInput => "input contained no transliterable text"@,
        FailureView::UnsupportedScript => "no transliterator available for the requested script"@,
        FailureView::Backend(m) => "transliteration backend error: "@ + m,
    }
}

impl TransliterationError {
    /// The message of a failure.
    pub fn text(&self) -> (r: String)
        ensures
            r@ == failure_text(self@),
    {
        match self {
            TransliterationError::EmptyInput => String::from_str(
                "input contained no transliterable text",
            ),
            TransliterationError::UnsupportedScript => String::from_str(
                "no transliterator available for the requested script",
            ),
            TransliterationError::Backend(m) => cat2(
                "transliteration backend error: ",
                m.as_str(),
            ),
        }
    }
}

/// A draft, or why there is none.
pub open spec fn outcome(r: Result<TransliterationOutput, TransliterationError>) -> Result<
    OutputView,
    FailureView,
> {
    match r {
        Ok(o) => Ok(o@),
        Err(e) => Err(e@),
    }
}

/// What writes the titles of one script in Latin letters.
pub trait Transliterator {
    /// The script.
    spec fn reads(&self) -> Script;

    /// The draft of a title.
    spec fn drafts(&self, input: Seq<char>) -> Result<OutputView, FailureView>;

    /// The script.
    fn script(&self) -> (r: Script)
        ensures
            r == self.reads(),
    ;

    /// The draft of a title.
    fn transliterate(&self, input: &str) -> (r: Result<TransliterationOutput, TransliterationError>)
        ensures
            outcome(r) == self.drafts(input@),
    ;
}

/// A draft without hints.
pub fn write_draft(text: String, script: Script) -> (r: TransliterationOutput)
    ensures
        r@ == draft(text@, script),
{
    let notes: Vec<String> = Vec::new();
    assert(text::texts(notes@) =~= Seq::<Seq<char>>::empty());
    TransliterationOutput { text, script, notes }
}

} // verus!
