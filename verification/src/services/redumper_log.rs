//! What the log of a dump tells about the disc.

use vstd::prelude::*;

use crate::models::{self, eq_ignore_case};
use crate::numbers::{self, read_i64, read_u64};
use crate::services::cue_sessions::{self, cuesheet_has_only_audio_tracks, cuesheet_is_enhanced_cd};
use crate::services::validation::{self, validate_sbi, validate_sector_ranges};
use crate::text::{
    self, cat2, char_is_alnum, char_is_space, chars_all_digits, chars_all_hex, chars_are,
    chars_end_with, chars_eq, chars_find, chars_lines, chars_of, chars_start_with, chars_trim,
    chars_trim_end, chars_trim_start, chars_words, join_strings, str_eq, str_unix_newlines,
    string_of,
};

verus! {

/// The first build whose logs are read.
pub const MINIMUM_AUTOFILL_BUILD: u64 = 737;

/// What a log tells about the disc.
#[derive(Debug, PartialEq, Eq)]
pub struct ParsedRedumperLog {
    pub system_code: Option<String>,
    pub version: Option<String>,
    pub exe_date: Option<String>,
    pub edc: Option<bool>,
    pub error_count: Option<i64>,
    pub universal_hash: Option<String>,
    pub sample_start: Option<String>,
    pub offset_value: Option<String>,
    pub sector_ranges: Option<String>,
    pub sbi: Option<String>,
    pub pvd: Option<String>,
    pub header: Option<String>,
    pub cuesheet: Option<String>,
    pub dat: Option<String>,
    /// Nothing where the log does not speak of protection; the empty text where it says
    /// that there is none.
    pub protection: Option<String>,
}

/// What a log tells about the disc.
pub struct LogView {
    pub system_code: Option<Seq<char>>,
    pub version: Option<Seq<char>>,
    pub exe_date: Option<Seq<char>>,
    pub edc: Option<bool>,
    pub error_count: Option<int>,
    pub universal_hash: Option<Seq<char>>,
    pub sample_start: Option<Seq<char>>,
    pub offset_value: Option<Seq<char>>,
    pub sector_ranges: Option<Seq<char>>,
    pub sbi: Option<Seq<char>>,
    pub pvd: Option<Seq<char>>,
    pub header: Option<Seq<char>>,
    pub cuesheet: Option<Seq<char>>,
    pub dat: Option<Seq<char>>,
    pub protection: Option<Seq<char>>,
}

impl View for ParsedRedumperLog {
    type V = LogView;

    open spec fn view(&self) -> LogView {
        LogView {
            system_code: text::opt_text(self.system_code),
            version: text::opt_text(self.version),
            exe_date: text::opt_text(self.exe_date),
            edc: self.edc,
            error_count: match self.error_count {
                Some(n) => Some(n as int),
                None => None,
            },
            universal_hash: text::opt_text(self.universal_hash),
            sample_start: text::opt_text(self.sample_start),
            offset_value: text::opt_text(self.offset_value),
            sector_ranges: text::opt_text(self.sector_ranges),
            sbi: text::opt_text(self.sbi),
            pvd: text::opt_text(self.pvd),
            header: text::opt_text(self.header),
            cuesheet: text::opt_text(self.cuesheet),
            dat: text::opt_text(self.dat),
            protection: text::opt_text(self.protection),
        }
    }
}

// ── Builds ─────────────────────────────────────────────────────────────────

/// What follows a prefix.
pub open spec fn after(s: Seq<char>, p: Seq<char>) -> Option<Seq<char>> {
    if text::starts_with(s, p) {
        Some(s.skip(p.len() as int))
    } else {
        None
    }
}

fn strip<'a>(s: &'a [char], p: &str) -> (r: Option<&'a [char]>)
    ensures
        match r {
            Some(t) => after(s@, p@) == Some(t@),
            None => after(s@, p@) is None,
        },
{
    let word = chars_of(p);
    if !chars_start_with(s, p) {
        return None;
    }
    let n: usize = word.len();
    let rest = &s[n..s.len()];
    assert(rest@ =~= s@.skip(n as int));
    Some(rest)
}

/// A build that is supported: `b` and a number that is large enough, before the closing
/// bracket.
pub open spec fn is_supported_build(rest: Seq<char>) -> bool {
    let inner = text::trim(rest.drop_last());
    let digits = inner.skip(1);
    &&& rest.len() > 0
    &&& rest.last() == ')'
    &&& inner.len() > 1
    &&& inner[0] == 'b'
    &&& text::all_digits(digits)
    &&& MINIMUM_AUTOFILL_BUILD <= numbers::digits_value(digits) <= u64::MAX
}

/// A line that names the build.
pub open spec fn build_of_line(line: Seq<char>) -> Option<Seq<char>> {
    after(text::trim(line), "redumper (build:"@)
}

/// Some line names the build, and every build that is named is supported.
pub open spec fn builds_supported(ls: Seq<Seq<char>>) -> bool {
    &&& exists|i: int| 0 <= i < ls.len() && build_of_line(#[trigger] ls[i]) is Some
    &&& forall|i: int|
        0 <= i < ls.len() ==> match build_of_line(#[trigger] ls[i]) {
            Some(b) => is_supported_build(b),
            None => true,
        }
}

fn supports_build(rest: &[char]) -> (r: bool)
    ensures
        r == is_supported_build(rest@),
{
    let n: usize = rest.len();
    if n == 0 || rest[n - 1] != ')' {
        return false;
    }
    let inside = &rest[0..n - 1];
    assert(inside@ =~= rest@.drop_last());
    let inner = chars_trim(inside);
    if inner.len() < 2 || inner[0] != 'b' {
        return false;
    }
    let digits = &inner[1..inner.len()];
    assert(digits@ =~= inner@.skip(1));
    if !chars_all_digits(digits) {
        return false;
    }
    match read_u64(digits) {
        Some(v) => v >= MINIMUM_AUTOFILL_BUILD,
        None => false,
    }
}

/// Whether a log names the build that wrote it, and only builds whose logs are read.
pub fn has_supported_autofill_builds(log: &str) -> (r: bool)
    ensures
        r == builds_supported(text::lines(log@)),
{
    let chars = chars_of(log);
    let ls = chars_lines(&chars);
    let ghost all = text::slices(ls@);
    let mut found = false;
    for i in 0..ls.len()
        invariant
            all == text::slices(ls@),
            all == text::lines(log@),
            found == (exists|k: int|
                0 <= k < i && build_of_line(#[trigger] all[k]) is Some),
            forall|k: int|
                0 <= k < i ==> match build_of_line(#[trigger] all[k]) {
                    Some(b) => is_supported_build(b),
                    None => true,
                },
    {
        assert(all[i as int] == ls@[i as int]@);
        if let Some(rest) = strip(chars_trim(ls[i]), "redumper (build:") {
            found = true;
            if !supports_build(rest) {
                return false;
            }
        }
    }
    found
}

// ── Sections ───────────────────────────────────────────────────────────────

/// The name of the section that a line begins.
pub open spec fn section_of(line: Seq<char>) -> Option<Seq<char>> {
    match after(line, "*** "@) {
        Some(rest) => if text::words(rest).len() > 0 {
            Some(text::words(rest)[0])
        } else {
            None
        },
        None => None,
    }
}

/// The lines of the last section with a name so far, and whether it goes on.
pub open spec fn section_so_far(ls: Seq<Seq<char>>, wanted: Seq<char>) -> (
    Option<Seq<Seq<char>>>,
    bool,
)
    decreases ls.len(),
{
    if ls.len() == 0 {
        (None, false)
    } else {
        let (latest, on) = section_so_far(ls.drop_last(), wanted);
        match section_of(ls.last()) {
            Some(name) => if name == wanted {
                (Some(Seq::empty()), true)
            } else {
                (latest, false)
            },
            None => if on {
                (
                    match latest {
                        Some(v) => Some(v.push(ls.last())),
                        None => None,
                    },
                    on,
                )
            } else {
                (latest, on)
            },
        }
    }
}

/// The lines of the last section with a name.
pub open spec fn last_section(ls: Seq<Seq<char>>, wanted: Seq<char>) -> Option<Seq<Seq<char>>> {
    section_so_far(ls, wanted).0
}

fn section_name<'a>(line: &'a [char]) -> (r: Option<&'a [char]>)
    ensures
        match r {
            Some(n) => section_of(line@) == Some(n@),
            None => section_of(line@) is None,
        },
{
    match strip(line, "*** ") {
        Some(rest) => {
            let ws = chars_words(rest);
            if ws.len() > 0 {
                assert(text::slices(ws@)[0] == ws@[0]@);
                Some(ws[0])
            } else {
                assert(text::slices(ws@).len() == 0);
                None
            }
        },
        None => None,
    }
}

/// The view of optional lines.
pub open spec fn opt_slices(v: Option<Vec<&[char]>>) -> Option<Seq<Seq<char>>> {
    match v {
        Some(l) => Some(text::slices(l@)),
        None => None,
    }
}

fn latest_section<'a>(ls: &Vec<&'a [char]>, wanted: &str) -> (r: Option<Vec<&'a [char]>>)
    ensures
        opt_slices(r) == last_section(text::slices(ls@), wanted@),
{
    let ghost all = text::slices(ls@);
    let mut latest: Vec<&'a [char]> = Vec::new();
    let mut found = false;
    let mut on = false;
    assert(all.take(0) =~= Seq::<Seq<char>>::empty());
    for i in 0..ls.len()
        invariant
            all == text::slices(ls@),
            on ==> found,
            section_so_far(all.take(i as int), wanted@) == (
                if found {
                    Some(text::slices(latest@))
                } else {
                    None
                },
                on,
            ),
    {
        proof {
            assert(all.take(i + 1).drop_last() =~= all.take(i as int));
            assert(all.take(i + 1).last() == ls@[i as int]@);
        }
        match section_name(ls[i]) {
            Some(name) => {
                on = chars_are(name, wanted);
                if on {
                    latest = Vec::new();
                    found = true;
                    assert(text::slices(latest@) =~= Seq::<Seq<char>>::empty());
                }
            },
            None => {
                if on {
                    let ghost before = latest@;
                    latest.push(ls[i]);
                    assert(text::slices(latest@) =~= text::slices(before).push(ls@[i as int]@));
                }
            },
        }
    }
    assert(all.take(all.len() as int) =~= all);
    if found {
        Some(latest)
    } else {
        None
    }
}

// ── Values ─────────────────────────────────────────────────────────────────

/// The value behind a label, if it is not empty.
pub open spec fn labelled(line: Seq<char>, label: Seq<char>) -> Option<Seq<char>> {
    match after(text::trim(line), label) {
        Some(rest) => if text::trim(rest).len() > 0 {
            Some(text::trim(rest))
        } else {
            None
        },
        None => None,
    }
}

/// The first value behind a label from line `i` on.
pub open spec fn value_from(ls: Seq<Seq<char>>, label: Seq<char>, i: int) -> Option<Seq<char>>
    decreases ls.len() - i,
{
    if i < 0 || i >= ls.len() {
        None
    } else if labelled(ls[i], label) is Some {
        labelled(ls[i], label)
    } else {
        value_from(ls, label, i + 1)
    }
}

/// The first value behind a label.
pub open spec fn value(ls: Seq<Seq<char>>, label: Seq<char>) -> Option<Seq<char>> {
    value_from(ls, label, 0)
}

fn scalar_value(ls: &[&[char]], label: &str) -> (r: Option<String>)
    ensures
        text::opt_text(r) == value(text::slices(ls@), label@),
{
    let ghost all = text::slices(ls@);
    for i in 0..ls.len()
        invariant
            all == text::slices(ls@),
            value_from(all, label@, i as int) == value(all, label@),
    {
        assert(all[i as int] == ls@[i as int]@);
        if let Some(rest) = strip(chars_trim(ls[i]), label) {
            let v = chars_trim(rest);
            if v.len() > 0 {
                return Some(string_of(v));
            }
        }
    }
    None
}

/// The sum of the error lines so far, and whether there was one; nothing once a line
/// cannot be counted.
pub open spec fn errors_so_far(ls: Seq<Seq<char>>) -> Option<(bool, int)>
    decreases ls.len(),
{
    if ls.len() == 0 {
        Some((false, 0))
    } else {
        match errors_so_far(ls.drop_last()) {
            None => None,
            Some((found, total)) => match after(text::trim(ls.last()), "REDUMP.INFO errors:"@) {
                None => Some((found, total)),
                Some(rest) => match numbers::i64_value(text::trim(rest)) {
                    Some(v) => if v < 0 || total + v > i64::MAX {
                        None
                    } else {
                        Some((true, total + v))
                    },
                    None => None,
                },
            },
        }
    }
}

/// A line of the older kind of error count.
pub open spec fn has_old_errors(ls: Seq<Seq<char>>) -> bool {
    exists|i: int|
        0 <= i < ls.len() && text::starts_with(text::trim(#[trigger] ls[i]), "REDUMP.ORG errors:"@)
}

/// The number of errors: the sum of the error lines, unless one is of the older kind.
pub open spec fn errors(ls: Seq<Seq<char>>) -> Option<int> {
    if has_old_errors(ls) {
        None
    } else {
        match errors_so_far(ls) {
            Some((true, total)) => Some(total),
            _ => None,
        }
    }
}

fn any_old_errors(ls: &Vec<&[char]>) -> (r: bool)
    ensures
        r == has_old_errors(text::slices(ls@)),
{
    let ghost all = text::slices(ls@);
    for i in 0..ls.len()
        invariant
            all == text::slices(ls@),
            forall|k: int|
                0 <= k < i ==> !text::starts_with(text::trim(#[trigger] all[k]), "REDUMP.ORG errors:"@),
    {
        assert(all[i as int] == ls@[i as int]@);
        if chars_start_with(chars_trim(ls[i]), "REDUMP.ORG errors:") {
            return true;
        }
    }
    false
}

proof fn lemma_errors_fail(ls: Seq<Seq<char>>, i: int)
    requires
        0 <= i <= ls.len(),
        errors_so_far(ls.take(i)) is None,
    ensures
        errors_so_far(ls) is None,
    decreases ls.len() - i,
{
    if i < ls.len() {
        assert(ls.take(i + 1).drop_last() =~= ls.take(i));
        lemma_errors_fail(ls, i + 1);
    } else {
        assert(ls.take(i) =~= ls);
    }
}

fn sum_errors(ls: &Vec<&[char]>) -> (r: Option<(bool, i64)>)
    ensures
        match r {
            Some(t) => errors_so_far(text::slices(ls@)) == Some((t.0, t.1 as int)),
            None => errors_so_far(text::slices(ls@)) is None,
        },
{
    let ghost all = text::slices(ls@);
    let mut found = false;
    let mut total: i64 = 0;
    assert(all.take(0) =~= Seq::<Seq<char>>::empty());
    for i in 0..ls.len()
        invariant
            all == text::slices(ls@),
            total >= 0,
            errors_so_far(all.take(i as int)) == Some((found, total as int)),
    {
        proof {
            assert(all.take(i + 1).drop_last() =~= all.take(i as int));
            assert(all.take(i + 1).last() == ls@[i as int]@);
        }
        if let Some(rest) = strip(chars_trim(ls[i]), "REDUMP.INFO errors:") {
            match read_i64(chars_trim(rest)) {
                Some(v) => {
                    if v < 0 || v > i64::MAX - total {
                        proof {
                            lemma_errors_fail(all, i + 1);
                        }
                        return None;
                    }
                    total = total + v;
                    found = true;
                },
                None => {
                    proof {
                        lemma_errors_fail(all, i + 1);
                    }
                    return None;
                },
            }
        }
    }
    assert(all.take(all.len() as int) =~= all);
    Some((found, total))
}

fn error_count(ls: &Vec<&[char]>) -> (r: Option<i64>)
    ensures
        errors(text::slices(ls@)) == (match r {
            Some(n) => Some(n as int),
            None => None,
        }),
{
    if any_old_errors(ls) {
        return None;
    }
    match sum_errors(ls) {
        Some((true, total)) => Some(total),
        _ => None,
    }
}

/// A separator in a line of numbers.
pub open spec fn is_separator(c: char) -> bool {
    text::is_space(c) || c == '[' || c == ']' || c == '.'
}

/// The first separator at or after `i`, or the end.
pub open spec fn separator_from(s: Seq<char>, i: int) -> int
    decreases s.len() - i,
{
    if i >= s.len() {
        s.len() as int
    } else if is_separator(s[i]) {
        i
    } else {
        separator_from(s, i + 1)
    }
}

/// Digits, perhaps with a sign before them.
pub open spec fn is_signed_number(s: Seq<char>) -> bool {
    let digits = if s.len() > 0 && (s[0] == '+' || s[0] == '-') {
        s.skip(1)
    } else {
        s
    };
    digits.len() > 0 && text::all_digits(digits)
}

/// The first number between separators at or after `i`.
pub open spec fn number_from(s: Seq<char>, i: int) -> Option<Seq<char>>
    decreases s.len() + 1 - i,
{
    if i < 0 || i > s.len() {
        None
    } else {
        let e = separator_from(s, i);
        if i <= e <= s.len() {
            if is_signed_number(s.subrange(i, e)) {
                Some(s.subrange(i, e))
            } else {
                number_from(s, e + 1)
            }
        } else {
            None
        }
    }
}

/// The first number in the value behind a label.
pub open spec fn signed_value(ls: Seq<Seq<char>>, label: Seq<char>) -> Option<Seq<char>> {
    match value(ls, label) {
        Some(v) => number_from(v, 0),
        None => None,
    }
}

fn find_separator(s: &[char], from: usize) -> (r: usize)
    requires
        from <= s@.len(),
    ensures
        r == separator_from(s@, from as int),
        from <= r <= s@.len(),
{
    let mut i: usize = from;
    while i < s.len()
        invariant
            from <= i <= s@.len(),
            separator_from(s@, i as int) == separator_from(s@, from as int),
        decreases s@.len() - i,
    {
        let c = s[i];
        if char_is_space(c) || c == '[' || c == ']' || c == '.' {
            return i;
        }
        i = i + 1;
    }
    i
}

fn signed_number(s: &[char]) -> (r: bool)
    ensures
        r == is_signed_number(s@),
{
    if s.len() > 0 && (s[0] == '+' || s[0] == '-') {
        let d = &s[1..s.len()];
        assert(d@ =~= s@.skip(1));
        d.len() > 0 && chars_all_digits(d)
    } else {
        s.len() > 0 && chars_all_digits(s)
    }
}

fn signed_value_after(ls: &Vec<&[char]>, label: &str) -> (r: Option<String>)
    ensures
        text::opt_text(r) == signed_value(text::slices(ls@), label@),
{
    let v = match scalar_value(ls, label) {
        Some(v) => v,
        None => {
            return None;
        },
    };
    let s = chars_of(v.as_str());
    let n: usize = s.len();
    let mut i: usize = 0;
    loop
        invariant
            s@ == v@,
            n == s@.len(),
            i <= n,
            value(text::slices(ls@), label@) == Some(v@),
            number_from(s@, i as int) == number_from(s@, 0),
        decreases n - i,
    {
        let e = find_separator(&s, i);
        let part = &s[i..e];
        assert(part@ =~= s@.subrange(i as int, e as int));
        if signed_number(part) {
            return Some(string_of(part));
        }
        if e >= n {
            assert(number_from(s@, e + 1) is None);
            return None;
        }
        i = e + 1;
    }
}

// ── Runs of lines ──────────────────────────────────────────────────────────

/// Lines in one text, if there are any.
pub open spec fn joined(v: Seq<Seq<char>>) -> Option<Seq<char>> {
    if v.len() == 0 {
        None
    } else {
        Some(text::join(v, "\n"@))
    }
}

fn nonempty_join(v: &Vec<String>) -> (r: Option<String>)
    ensures
        text::opt_text(r) == joined(text::texts(v@)),
{
    if v.len() == 0 {
        None
    } else {
        Some(join_strings(v, "\n"))
    }
}

/// The first line from `i` on that is a label.
pub open spec fn label_from(ls: Seq<Seq<char>>, label: Seq<char>, i: int) -> Option<int>
    decreases ls.len() - i,
{
    if i < 0 || i >= ls.len() {
        None
    } else if text::trim(ls[i]) == label {
        Some(i)
    } else {
        label_from(ls, label, i + 1)
    }
}

fn find_label(ls: &Vec<&[char]>, label: &str) -> (r: Option<usize>)
    ensures
        match r {
            Some(k) => k < ls@.len() && label_from(text::slices(ls@), label@, 0) == Some(k as int),
            None => label_from(text::slices(ls@), label@, 0) is None,
        },
{
    let ghost all = text::slices(ls@);
    for i in 0..ls.len()
        invariant
            all == text::slices(ls@),
            label_from(all, label@, i as int) == label_from(all, label@, 0),
    {
        assert(all[i as int] == ls@[i as int]@);
        if chars_are(chars_trim(ls[i]), label) {
            return Some(i);
        }
    }
    None
}

/// The kinds of runs of lines.
#[derive(Clone, Copy, PartialEq, Eq, Structural)]
pub enum RunKind {
    /// Ranges of sectors.
    Ranges,
    /// Lines of a hex dump.
    Dump,
    /// Lines of a DAT.
    Roms,
}

/// A line of a hex dump: four hexadecimal digits, a colon, bytes.
pub open spec fn is_dump_line(line: Seq<char>) -> bool {
    match text::find(text::trim(line), " : "@) {
        Some(p) => p == 4 && text::all_hex(text::trim(line).take(p)),
        None => false,
    }
}

/// A line of a DAT.
pub open spec fn is_rom_line(line: Seq<char>) -> bool {
    text::starts_with(text::trim(line), "<rom "@) && text::ends_with(text::trim(line), "/>"@)
}

/// What a line is in a run, if it belongs to it.
pub open spec fn run_line(kind: RunKind, line: Seq<char>) -> Option<Seq<char>> {
    match kind {
        RunKind::Ranges => if text::trim(line).len() > 0 && validation::sector_ranges(text::trim(line)) is Ok {
            Some(text::trim(line))
        } else {
            None
        },
        RunKind::Dump => if is_dump_line(line) {
            Some(text::trim_end(line))
        } else {
            None
        },
        RunKind::Roms => if is_rom_line(line) {
            Some(text::trim(line))
        } else {
            None
        },
    }
}

/// The run of lines from `i` on.
pub open spec fn run_from(kind: RunKind, ls: Seq<Seq<char>>, i: int) -> Seq<Seq<char>>
    decreases ls.len() - i,
{
    if i < 0 || i >= ls.len() {
        Seq::empty()
    } else {
        match run_line(kind, ls[i]) {
            Some(t) => seq![t] + run_from(kind, ls, i + 1),
            None => Seq::empty(),
        }
    }
}

/// The run of lines behind a label.
pub open spec fn run_after(kind: RunKind, ls: Seq<Seq<char>>, label: Seq<char>) -> Option<Seq<char>> {
    match label_from(ls, label, 0) {
        Some(k) => joined(run_from(kind, ls, k + 1)),
        None => None,
    }
}

fn looks_like_hex_dump(line: &[char]) -> (r: bool)
    ensures
        r == is_dump_line(line@),
{
    let l = chars_trim(line);
    match chars_find(l, " : ") {
        Some(p) => {
            let offset = &l[0..p];
            assert(offset@ =~= l@.take(p as int));
            p == 4 && chars_all_hex(offset)
        },
        None => false,
    }
}

fn take_run_line(kind: RunKind, line: &[char]) -> (r: Option<String>)
    ensures
        text::opt_text(r) == run_line(kind, line@),
{
    match kind {
        RunKind::Ranges => {
            let t = string_of(chars_trim(line));
            if !t.as_str().is_empty() && validate_sector_ranges(t.as_str()).is_ok() {
                Some(t)
            } else {
                None
            }
        },
        RunKind::Dump => if looks_like_hex_dump(line) {
            Some(string_of(chars_trim_end(line)))
        } else {
            None
        },
        RunKind::Roms => {
            let l = chars_trim(line);
            if chars_start_with(l, "<rom ") && chars_end_with(l, "/>") {
                Some(string_of(l))
            } else {
                None
            }
        },
    }
}

fn consecutive_matching_after(kind: RunKind, ls: &Vec<&[char]>, label: &str) -> (r: Option<String>)
    ensures
        text::opt_text(r) == run_after(kind, text::slices(ls@), label@),
{
    let ghost all = text::slices(ls@);
    let k = match find_label(ls, label) {
        Some(k) => k,
        None => {
            return None;
        },
    };
    let mut out: Vec<String> = Vec::new();
    let n: usize = ls.len();
    assert(k < n);
    let mut i: usize = k + 1;
    let ghost start = k + 1;
    assert(text::texts(out@) =~= Seq::<Seq<char>>::empty());
    assert(text::texts(out@) + run_from(kind, all, start) =~= run_from(kind, all, start));
    while i < ls.len()
        invariant
            all == text::slices(ls@),
            start <= i <= ls@.len(),
            label_from(all, label@, 0) == Some(start - 1),
            text::texts(out@) + run_from(kind, all, i as int) == run_from(kind, all, start),
        decreases ls@.len() - i,
    {
        assert(all[i as int] == ls@[i as int]@);
        match take_run_line(kind, ls[i]) {
            Some(t) => {
                let ghost before = out@;
                let ghost rest = run_from(kind, all, i + 1);
                out.push(t);
                assert(text::texts(out@) + rest =~= text::texts(before) + (seq![t@] + rest));
            },
            None => {
                assert(text::texts(out@) + Seq::empty() =~= text::texts(out@));
                return nonempty_join(&out);
            },
        }
        i = i + 1;
    }
    assert(text::texts(out@) + Seq::empty() =~= text::texts(out@));
    nonempty_join(&out)
}

/// The first line from `i` on that begins a block, whatever space stands before it.
pub open spec fn block_start(ls: Seq<Seq<char>>, prefix: Seq<char>, i: int) -> Option<int>
    decreases ls.len() - i,
{
    if i < 0 || i >= ls.len() {
        None
    } else if text::starts_with(text::trim_start(ls[i]), prefix) {
        Some(i)
    } else {
        block_start(ls, prefix, i + 1)
    }
}

/// The lines of a block from `i` on: up to a blank line or the next block.
pub open spec fn block_from(ls: Seq<Seq<char>>, prefix: Seq<char>, i: int) -> Seq<Seq<char>>
    decreases ls.len() - i,
{
    if i < 0 || i >= ls.len() || text::is_blank(ls[i]) || text::starts_with(text::trim_start(ls[i]), prefix) {
        Seq::empty()
    } else {
        seq![text::trim_end(ls[i])] + block_from(ls, prefix, i + 1)
    }
}

/// The first block with a prefix.
pub open spec fn block_after(ls: Seq<Seq<char>>, prefix: Seq<char>) -> Option<Seq<char>> {
    match block_start(ls, prefix, 0) {
        Some(k) => joined(block_from(ls, prefix, k + 1)),
        None => None,
    }
}

fn find_block(ls: &Vec<&[char]>, prefix: &str) -> (r: Option<usize>)
    ensures
        match r {
            Some(k) => k < ls@.len() && block_start(text::slices(ls@), prefix@, 0) == Some(k as int),
            None => block_start(text::slices(ls@), prefix@, 0) is None,
        },
{
    let ghost all = text::slices(ls@);
    for i in 0..ls.len()
        invariant
            all == text::slices(ls@),
            block_start(all, prefix@, i as int) == block_start(all, prefix@, 0),
    {
        assert(all[i as int] == ls@[i as int]@);
        if chars_start_with(chars_trim_start(ls[i]), prefix) {
            return Some(i);
        }
    }
    None
}

fn block_after_prefix(ls: &Vec<&[char]>, prefix: &str) -> (r: Option<String>)
    ensures
        text::opt_text(r) == block_after(text::slices(ls@), prefix@),
{
    let ghost all = text::slices(ls@);
    let k = match find_block(ls, prefix) {
        Some(k) => k,
        None => {
            return None;
        },
    };
    let mut out: Vec<String> = Vec::new();
    let n: usize = ls.len();
    assert(k < n);
    let mut i: usize = k + 1;
    let ghost start = k + 1;
    assert(text::texts(out@) =~= Seq::<Seq<char>>::empty());
    assert(text::texts(out@) + block_from(all, prefix@, start) =~= block_from(all, prefix@, start));
    while i < ls.len()
        invariant
            all == text::slices(ls@),
            start <= i <= ls@.len(),
            block_start(all, prefix@, 0) == Some(start - 1),
            text::texts(out@) + block_from(all, prefix@, i as int) == block_from(all, prefix@, start),
        decreases ls@.len() - i,
    {
        assert(all[i as int] == ls@[i as int]@);
        if chars_trim(ls[i]).len() == 0 || chars_start_with(chars_trim_start(ls[i]), prefix) {
            assert(text::texts(out@) + Seq::empty() =~= text::texts(out@));
            return nonempty_join(&out);
        }
        let t = string_of(chars_trim_end(ls[i]));
        let ghost before = out@;
        let ghost rest = block_from(all, prefix@, i + 1);
        out.push(t);
        assert(text::texts(out@) + rest =~= text::texts(before) + (seq![t@] + rest));
        i = i + 1;
    }
    assert(text::texts(out@) + Seq::empty() =~= text::texts(out@));
    nonempty_join(&out)
}

/// The lines that hold subchannel data.
pub open spec fn sbi_of_log(ls: Seq<Seq<char>>) -> Seq<Seq<char>>
    decreases ls.len(),
{
    if ls.len() == 0 {
        Seq::empty()
    } else {
        let before = sbi_of_log(ls.drop_last());
        let l = text::trim(ls.last());
        if text::starts_with(l, "MSF: "@) && validation::sbi(l) is Ok {
            before.push(l)
        } else {
            before
        }
    }
}

fn collect_sbi(ls: &Vec<&[char]>) -> (r: Vec<String>)
    ensures
        text::texts(r@) == sbi_of_log(text::slices(ls@)),
{
    let ghost all = text::slices(ls@);
    let mut out: Vec<String> = Vec::new();
    assert(all.take(0) =~= Seq::<Seq<char>>::empty());
    assert(text::texts(out@) =~= Seq::<Seq<char>>::empty());
    for i in 0..ls.len()
        invariant
            all == text::slices(ls@),
            text::texts(out@) == sbi_of_log(all.take(i as int)),
    {
        proof {
            assert(all.take(i + 1).drop_last() =~= all.take(i as int));
            assert(all.take(i + 1).last() == ls@[i as int]@);
        }
        let l = chars_trim(ls[i]);
        if chars_start_with(l, "MSF: ") {
            let t = string_of(l);
            if validate_sbi(t.as_str()).is_ok() {
                let ghost before = out@;
                out.push(t);
                assert(text::texts(out@) =~= text::texts(before).push(t@));
            }
        }
    }
    assert(all.take(all.len() as int) =~= all);
    out
}

// ── Systems ────────────────────────────────────────────────────────────────

/// A character of a system's code.
pub open spec fn is_code_char(c: char) -> bool {
    text::is_alnum(c) || c == '-' || c == '_'
}

/// The code in the head of a block: `CODE [name]:`.
pub open spec fn header_code(line: Seq<char>) -> Option<Seq<char>> {
    let l = text::trim(line);
    if !text::ends_with(l, "]:"@) {
        None
    } else {
        match text::find(l, " ["@) {
            Some(p) => if p > 0 && (forall|i: int| 0 <= i < p ==> is_code_char(#[trigger] l[i])) {
                Some(l.take(p))
            } else {
                None
            },
            None => None,
        }
    }
}

fn block_header_code<'a>(line: &'a [char]) -> (r: Option<&'a [char]>)
    ensures
        match r {
            Some(c) => header_code(line@) == Some(c@),
            None => header_code(line@) is None,
        },
{
    let l = chars_trim(line);
    if !chars_end_with(l, "]:") {
        return None;
    }
    let p = match chars_find(l, " [") {
        Some(p) => p,
        None => {
            return None;
        },
    };
    if p == 0 {
        return None;
    }
    for i in 0..p
        invariant
            p <= l@.len(),
            l@ == text::trim(line@),
            text::ends_with(l@, "]:"@),
            text::find(l@, " ["@) == Some(p as int),
            forall|k: int| 0 <= k < i ==> is_code_char(#[trigger] l@[k]),
    {
        let c = l[i];
        if !(char_is_alnum(c) || c == '-' || c == '_') {
            return None;
        }
    }
    let code = &l[0..p];
    assert(code@ =~= l@.take(p as int));
    Some(code)
}

fn knows(known: &Vec<String>, code: &str) -> (r: bool)
    ensures
        r == text::texts(known@).contains(code@),
{
    let ghost all = text::texts(known@);
    for i in 0..known.len()
        invariant
            all == text::texts(known@),
            forall|k: int| 0 <= k < i ==> #[trigger] all[k] != code@,
    {
        assert(all[i as int] == known@[i as int]@);
        if str_eq(known[i].as_str(), code) {
            assert(all.contains(all[i as int]));
            return true;
        }
    }
    false
}

/// The system that the head of a block names, if it is known. A disc with SecuROM is one
/// for PCs.
pub open spec fn system_of_line(line: Seq<char>, known: Seq<Seq<char>>) -> Option<Seq<char>> {
    match header_code(line) {
        Some(code) => if code == "SecuROM"@ && known.contains("PC"@) {
            Some("PC"@)
        } else if known.contains(code) {
            Some(code)
        } else {
            None
        },
        None => None,
    }
}

/// The first system that a block names from line `i` on.
pub open spec fn system_from_line(ls: Seq<Seq<char>>, known: Seq<Seq<char>>, i: int) -> Option<
    Seq<char>,
>
    decreases ls.len() - i,
{
    if i < 0 || i >= ls.len() {
        None
    } else if system_of_line(ls[i], known) is Some {
        system_of_line(ls[i], known)
    } else {
        system_from_line(ls, known, i + 1)
    }
}

fn system_code(ls: &Vec<&[char]>, known: &Vec<String>) -> (r: Option<String>)
    ensures
        text::opt_text(r) == system_from_line(text::slices(ls@), text::texts(known@), 0),
{
    let ghost all = text::slices(ls@);
    for i in 0..ls.len()
        invariant
            all == text::slices(ls@),
            system_from_line(all, text::texts(known@), i as int) == system_from_line(
                all,
                text::texts(known@),
                0,
            ),
    {
        assert(all[i as int] == ls@[i as int]@);
        if let Some(code) = block_header_code(ls[i]) {
            if chars_are(code, "SecuROM") && knows(known, "PC") {
                return Some(String::from_str("PC"));
            }
            let text = string_of(code);
            if knows(known, text.as_str()) {
                return Some(text);
            }
        }
    }
    None
}

/// The system that a protection tells of, if it is known.
pub open spec fn system_of_protection(line: Seq<char>, known: Seq<Seq<char>>) -> Option<Seq<char>> {
    let v = match after(text::trim(line), "protection:"@) {
        Some(rest) => text::trim(rest),
        None => text::trim(line),
    };
    if text::starts_with(v, "SafeDisc"@) {
        if known.contains("PC"@) {
            Some("PC"@)
        } else {
            None
        }
    } else if text::starts_with(v, "PS2/Datel"@) {
        if known.contains("PS2"@) {
            Some("PS2"@)
        } else {
            None
        }
    } else {
        None
    }
}

/// The first system that a protection tells of from line `i` on.
pub open spec fn protection_system_from(ls: Seq<Seq<char>>, known: Seq<Seq<char>>, i: int) -> Option<
    Seq<char>,
>
    decreases ls.len() - i,
{
    if i < 0 || i >= ls.len() {
        None
    } else if system_of_protection(ls[i], known) is Some {
        system_of_protection(ls[i], known)
    } else {
        protection_system_from(ls, known, i + 1)
    }
}

fn protection_system_code(ls: &Vec<&[char]>, known: &Vec<String>) -> (r: Option<String>)
    ensures
        text::opt_text(r) == protection_system_from(text::slices(ls@), text::texts(known@), 0),
{
    let ghost all = text::slices(ls@);
    for i in 0..ls.len()
        invariant
            all == text::slices(ls@),
            protection_system_from(all, text::texts(known@), i as int) == protection_system_from(
                all,
                text::texts(known@),
                0,
            ),
    {
        assert(all[i as int] == ls@[i as int]@);
        let trimmed = chars_trim(ls[i]);
        let v = match strip(trimmed, "protection:") {
            Some(rest) => chars_trim(rest),
            None => trimmed,
        };
        if chars_start_with(v, "SafeDisc") {
            if knows(known, "PC") {
                return Some(String::from_str("PC"));
            }
        } else if chars_start_with(v, "PS2/Datel") {
            if knows(known, "PS2") {
                return Some(String::from_str("PS2"));
            }
        }
    }
    None
}

// ── Protection ─────────────────────────────────────────────────────────────

/// The entries of a list of protections from line `i` on: the indented lines.
pub open spec fn entries_from(ls: Seq<Seq<char>>, i: int) -> Seq<Seq<char>>
    decreases ls.len() - i,
{
    if i < 0 || i >= ls.len() || text::is_blank(ls[i]) || text::trim_start(ls[i]) == ls[i] {
        Seq::empty()
    } else {
        seq![text::trim(ls[i])] + entries_from(ls, i + 1)
    }
}

/// What line `i` tells of protections.
pub open spec fn protections_at(ls: Seq<Seq<char>>, i: int) -> Seq<Seq<char>> {
    let l = text::trim(ls[i]);
    if l == "protections:"@ {
        entries_from(ls, i + 1)
    } else {
        match after(l, "protection:"@) {
            Some(rest) => if models::same_ignoring_case(text::trim(rest), "none"@) || text::trim(rest).len() == 0 {
                Seq::empty()
            } else {
                seq![text::trim(rest)]
            },
            None => Seq::empty(),
        }
    }
}

/// What the first `n` lines tell of protections.
pub open spec fn protections_to(ls: Seq<Seq<char>>, n: nat) -> Seq<Seq<char>>
    decreases n,
{
    if n == 0 {
        Seq::empty()
    } else {
        protections_to(ls, (n - 1) as nat) + protections_at(ls, n - 1)
    }
}

/// A line that says that there is no protection.
pub open spec fn says_none(line: Seq<char>) -> bool {
    let l = text::trim(line);
    l != "protections:"@ && match after(l, "protection:"@) {
        Some(rest) => models::same_ignoring_case(text::trim(rest), "none"@),
        None => false,
    }
}

/// Some line says that there is no protection.
pub open spec fn any_says_none(ls: Seq<Seq<char>>) -> bool {
    exists|i: int| 0 <= i < ls.len() && says_none(#[trigger] ls[i])
}

fn eq_none(s: &[char]) -> (r: bool)
    ensures
        r == models::same_ignoring_case(s@, "none"@),
{
    let t = string_of(s);
    eq_ignore_case(t.as_str(), "none")
}

fn push_entries(out: &mut Vec<String>, ls: &Vec<&[char]>, from: usize)
    ensures
        text::texts(final(out)@) == text::texts(old(out)@) + entries_from(text::slices(ls@), from as int),
{
    let ghost all = text::slices(ls@);
    let ghost start = text::texts(out@);
    let mut i: usize = from;
    while i < ls.len()
        invariant
            all == text::slices(ls@),
            from <= i,
            start == text::texts(old(out)@),
            text::texts(out@) + entries_from(all, i as int) == start + entries_from(all, from as int),
        decreases ls@.len() - i,
    {
        assert(all[i as int] == ls@[i as int]@);
        if chars_trim(ls[i]).len() == 0 || chars_eq(chars_trim_start(ls[i]), ls[i]) {
            assert(text::texts(out@) + Seq::empty() =~= text::texts(out@));
            return;
        }
        let t = string_of(chars_trim(ls[i]));
        let ghost before = out@;
        let ghost rest = entries_from(all, i + 1);
        out.push(t);
        assert(text::texts(out@) + rest =~= text::texts(before) + (seq![t@] + rest));
        i = i + 1;
    }
    assert(text::texts(out@) + Seq::empty() =~= text::texts(out@));
}

fn collect_protections(ls: &Vec<&[char]>) -> (r: (Vec<String>, bool))
    ensures
        text::texts(r.0@) == protections_to(text::slices(ls@), ls@.len()),
        r.1 == any_says_none(text::slices(ls@)),
{
    let ghost all = text::slices(ls@);
    let mut out: Vec<String> = Vec::new();
    let mut none = false;
    assert(text::texts(out@) =~= Seq::<Seq<char>>::empty());
    for i in 0..ls.len()
        invariant
            all == text::slices(ls@),
            text::texts(out@) == protections_to(all, i as nat),
            none == (exists|k: int| 0 <= k < i && says_none(#[trigger] all[k])),
    {
        let ghost before = text::texts(out@);
        assert(all[i as int] == ls@[i as int]@);
        let l = chars_trim(ls[i]);
        if chars_are(l, "protections:") {
            push_entries(&mut out, ls, i + 1);
        } else {
            match strip(l, "protection:") {
                Some(rest) => {
                    let v = chars_trim(rest);
                    if eq_none(v) {
                        none = true;
                        assert(before + Seq::empty() =~= before);
                    } else if v.len() > 0 {
                        out.push(string_of(v));
                        assert(text::texts(out@) =~= before + seq![v@]);
                    } else {
                        assert(before + Seq::empty() =~= before);
                    }
                },
                None => {
                    assert(before + Seq::empty() =~= before);
                },
            }
        }
    }
    (out, none)
}

/// The first block head at or after `i`, or the end.
pub open spec fn head_from(ls: Seq<Seq<char>>, i: int) -> int
    decreases ls.len() - i,
{
    if i < 0 || i >= ls.len() {
        ls.len() as int
    } else if header_code(ls[i]) is Some {
        i
    } else {
        head_from(ls, i + 1)
    }
}

/// What a block tells of protection.
pub open spec fn block_protection(code: Seq<char>, block: Seq<Seq<char>>) -> Seq<Seq<char>> {
    if code == "SecuROM"@ {
        match value(block, "scheme:"@) {
            Some(scheme) => seq!["SecuROM scheme: "@ + scheme],
            None => Seq::empty(),
        }
    } else if code == "PSX"@ {
        match value(block, "libcrypt:"@) {
            Some(v) => if models::same_ignoring_case(v, "yes"@) {
                seq!["LibCrypt"@]
            } else {
                Seq::empty()
            },
            None => Seq::empty(),
        }
    } else {
        Seq::empty()
    }
}

/// What the blocks from line `i` on tell of protection.
pub open spec fn blocks_protection(ls: Seq<Seq<char>>, i: int) -> Seq<Seq<char>>
    decreases ls.len() - i,
{
    if i < 0 || i >= ls.len() {
        Seq::empty()
    } else {
        match header_code(ls[i]) {
            None => blocks_protection(ls, i + 1),
            Some(code) => {
                let e = head_from(ls, i + 1);
                if i < e <= ls.len() {
                    block_protection(code, ls.subrange(i + 1, e)) + blocks_protection(ls, e)
                } else {
                    Seq::empty()
                }
            },
        }
    }
}

fn find_head(ls: &Vec<&[char]>, from: usize) -> (r: usize)
    requires
        from <= ls@.len(),
    ensures
        r == head_from(text::slices(ls@), from as int),
        from <= r <= ls@.len(),
{
    let ghost all = text::slices(ls@);
    let mut i: usize = from;
    while i < ls.len()
        invariant
            all == text::slices(ls@),
            from <= i <= ls@.len(),
            head_from(all, i as int) == head_from(all, from as int),
        decreases ls@.len() - i,
    {
        assert(all[i as int] == ls@[i as int]@);
        if block_header_code(ls[i]).is_some() {
            return i;
        }
        i = i + 1;
    }
    i
}

fn push_block(out: &mut Vec<String>, code: &[char], block: &[&[char]])
    ensures
        text::texts(final(out)@) == text::texts(old(out)@) + block_protection(code@, text::slices(block@)),
{
    let ghost before = text::texts(out@);
    if chars_are(code, "SecuROM") {
        if let Some(scheme) = scalar_value(block, "scheme:") {
            out.push(cat2("SecuROM scheme: ", scheme.as_str()));
            assert(text::texts(out@) =~= before + seq!["SecuROM scheme: "@ + scheme@]);
        } else {
            assert(before + Seq::empty() =~= before);
        }
    } else if chars_are(code, "PSX") {
        match scalar_value(block, "libcrypt:") {
            Some(v) => {
                if eq_ignore_case(v.as_str(), "yes") {
                    out.push(String::from_str("LibCrypt"));
                    assert(text::texts(out@) =~= before + seq!["LibCrypt"@]);
                } else {
                    assert(before + Seq::empty() =~= before);
                }
            },
            None => {
                assert(before + Seq::empty() =~= before);
            },
        }
    } else {
        assert(before + Seq::empty() =~= before);
    }
}

fn push_blocks(out: &mut Vec<String>, ls: &Vec<&[char]>)
    ensures
        text::texts(final(out)@) == text::texts(old(out)@) + blocks_protection(text::slices(ls@), 0),
{
    let ghost all = text::slices(ls@);
    let ghost start = text::texts(out@);
    let mut i: usize = 0;
    while i < ls.len()
        invariant
            all == text::slices(ls@),
            i <= ls@.len(),
            text::texts(out@) + blocks_protection(all, i as int) == start + blocks_protection(all, 0),
        decreases ls@.len() - i,
    {
        assert(all[i as int] == ls@[i as int]@);
        match block_header_code(ls[i]) {
            None => {
                i = i + 1;
            },
            Some(code) => {
                let e = find_head(ls, i + 1);
                let block = &ls[i + 1..e];
                assert(text::slices(block@) =~= all.subrange(i + 1, e as int));
                let ghost before = text::texts(out@);
                let ghost rest = blocks_protection(all, e as int);
                push_block(out, code, block);
                assert(text::texts(out@) + rest =~= before + (block_protection(
                    code@,
                    all.subrange(i + 1, e as int),
                ) + rest));
                i = e;
            },
        }
    }
    assert(text::texts(out@) + Seq::empty() =~= text::texts(out@));
}

/// What a log tells of protection: everything that it names; that there is none only
/// where it names nothing.
pub open spec fn protection_of(
    protection: Option<Seq<Seq<char>>>,
    info: Option<Seq<Seq<char>>>,
) -> Option<Seq<char>> {
    let values = (match protection {
        Some(ls) => protections_to(ls, ls.len()),
        None => Seq::empty(),
    }) + (match info {
        Some(ls) => blocks_protection(ls, 0),
        None => Seq::empty(),
    });
    let none = match protection {
        Some(ls) => any_says_none(ls),
        None => false,
    };
    if values.len() > 0 {
        Some(text::join(values, "\n"@))
    } else if none {
        Some(Seq::empty())
    } else {
        None
    }
}

fn protection(protection_lines: &Option<Vec<&[char]>>, info_lines: &Option<Vec<&[char]>>) -> (r:
    Option<String>)
    ensures
        text::opt_text(r) == protection_of(opt_slices(*protection_lines), opt_slices(*info_lines)),
{
    let mut values: Vec<String> = Vec::new();
    let mut none = false;
    assert(text::texts(values@) =~= Seq::<Seq<char>>::empty());
    if let Some(ls) = protection_lines {
        let (v, n) = collect_protections(ls);
        values = v;
        none = n;
    }
    let ghost first = text::texts(values@);
    if let Some(ls) = info_lines {
        push_blocks(&mut values, ls);
    } else {
        assert(first + Seq::empty() =~= first);
    }
    if values.len() > 0 {
        assert(text::texts(values@).len() > 0);
        Some(join_strings(&values, "\n"))
    } else if none {
        Some(String::new())
    } else {
        None
    }
}

// ── The whole log ──────────────────────────────────────────────────────────

/// Yes or no.
pub open spec fn yes_or_no(v: Option<Seq<char>>) -> Option<bool> {
    match v {
        Some(s) => if models::same_ignoring_case(s, "yes"@) {
            Some(true)
        } else if models::same_ignoring_case(s, "no"@) {
            Some(false)
        } else {
            None
        },
        None => None,
    }
}

/// The first of two values that is there.
pub open spec fn either(a: Option<Seq<char>>, b: Option<Seq<char>>) -> Option<Seq<char>> {
    if a is Some {
        a
    } else {
        b
    }
}

/// A universal hash: forty hexadecimal digits.
pub open spec fn hash_or_none(v: Option<Seq<char>>) -> Option<Seq<char>> {
    match v {
        Some(s) => if s.len() == 40 && text::all_hex(s) {
            Some(s)
        } else {
            None
        },
        None => None,
    }
}

/// The system that a cuesheet tells of, if it is known.
pub open spec fn system_of_cue(cue: Option<Seq<char>>, known: Seq<Seq<char>>) -> Option<Seq<char>> {
    match cue {
        Some(c) => if cue_sessions::is_enhanced(c) && known.contains("ENHANCED-CD"@) {
            Some("ENHANCED-CD"@)
        } else if cue_sessions::is_audio_only(c) && known.contains("AUDIO-CD"@) {
            Some("AUDIO-CD"@)
        } else {
            None
        },
        None => None,
    }
}

/// The version: a revision for the systems that count revisions.
pub open spec fn version_of(v: Option<Seq<char>>, system: Option<Seq<char>>) -> Option<Seq<char>> {
    if system == Some("GC"@) || system == Some("WII"@) {
        match v {
            Some(s) => if s == "0"@ {
                Some(Seq::empty())
            } else {
                Some("Rev "@ + s)
            },
            None => None,
        }
    } else {
        v
    }
}

/// What a log tells about the disc. A system that the protection tells of comes before
/// one that a block names, and that before one that the cuesheet tells of.
pub open spec fn log_view(ls: Seq<Seq<char>>, known: Seq<Seq<char>>) -> LogView {
    let info = last_section(ls, "INFO"@);
    let split = last_section(ls, "SPLIT"@);
    let hash = last_section(ls, "HASH"@);
    let prot = last_section(ls, "PROTECTION"@);
    let i = match info {
        Some(v) => v,
        None => Seq::empty(),
    };
    let s = match split {
        Some(v) => v,
        None => Seq::empty(),
    };
    let h = match hash {
        Some(v) => v,
        None => Seq::empty(),
    };
    let p = match prot {
        Some(v) => v,
        None => Seq::empty(),
    };
    let cue = block_after(s, "CUE ["@);
    let system = either(
        either(protection_system_from(p, known, 0), system_from_line(i, known, 0)),
        system_of_cue(cue, known),
    );
    LogView {
        system_code: system,
        version: version_of(value(i, "version:"@), system),
        exe_date: either(value(i, "EXE date:"@), value(i, "build date:"@)),
        edc: yes_or_no(value(i, "mode2 (form 2) EDC:"@)),
        error_count: errors(i),
        universal_hash: hash_or_none(value(s, "Universal Hash (SHA-1):"@)),
        sample_start: signed_value(s, "non-zero data sample range:"@),
        offset_value: signed_value(s, "disc write offset:"@),
        sector_ranges: run_after(RunKind::Ranges, i, "security sector ranges:"@),
        sbi: joined(sbi_of_log(i)),
        pvd: run_after(RunKind::Dump, i, "PVD:"@),
        header: run_after(RunKind::Dump, i, "header:"@),
        cuesheet: cue,
        dat: run_after(RunKind::Roms, h, "dat:"@),
        protection: protection_of(prot, info),
    }
}

fn read_edc(ls: &Vec<&[char]>) -> (r: Option<bool>)
    ensures
        r == yes_or_no(value(text::slices(ls@), "mode2 (form 2) EDC:"@)),
{
    match scalar_value(ls, "mode2 (form 2) EDC:") {
        Some(v) => if eq_ignore_case(v.as_str(), "yes") {
            Some(true)
        } else if eq_ignore_case(v.as_str(), "no") {
            Some(false)
        } else {
            None
        },
        None => None,
    }
}

fn read_hash(ls: &Vec<&[char]>) -> (r: Option<String>)
    ensures
        text::opt_text(r) == hash_or_none(value(text::slices(ls@), "Universal Hash (SHA-1):"@)),
{
    match scalar_value(ls, "Universal Hash (SHA-1):") {
        Some(v) => {
            let c = chars_of(v.as_str());
            if c.len() == 40 && chars_all_hex(&c) {
                Some(v)
            } else {
                None
            }
        },
        None => None,
    }
}

fn read_cue_system(cue: &Option<String>, known: &Vec<String>) -> (r: Option<String>)
    ensures
        text::opt_text(r) == system_of_cue(text::opt_text(*cue), text::texts(known@)),
{
    match cue {
        Some(c) => if cuesheet_is_enhanced_cd(c.as_str()) && knows(known, "ENHANCED-CD") {
            Some(String::from_str("ENHANCED-CD"))
        } else if cuesheet_has_only_audio_tracks(c.as_str()) && knows(known, "AUDIO-CD") {
            Some(String::from_str("AUDIO-CD"))
        } else {
            None
        },
        None => None,
    }
}

fn read_version(v: Option<String>, system: &Option<String>) -> (r: Option<String>)
    ensures
        text::opt_text(r) == version_of(text::opt_text(v), text::opt_text(*system)),
{
    let counts = match system {
        Some(s) => str_eq(s.as_str(), "GC") || str_eq(s.as_str(), "WII"),
        None => false,
    };
    if !counts {
        return v;
    }
    match v {
        Some(s) => if str_eq(s.as_str(), "0") {
            Some(String::new())
        } else {
            Some(cat2("Rev ", s.as_str()))
        },
        None => None,
    }
}

fn first_of(a: Option<String>, b: Option<String>) -> (r: Option<String>)
    ensures
        text::opt_text(r) == either(text::opt_text(a), text::opt_text(b)),
{
    match a {
        Some(s) => Some(s),
        None => b,
    }
}

fn lines_or_none<'a>(v: &Option<Vec<&'a [char]>>) -> (r: Vec<&'a [char]>)
    ensures
        text::slices(r@) == (match opt_slices(*v) {
            Some(l) => l,
            None => Seq::empty(),
        }),
{
    let mut out: Vec<&'a [char]> = Vec::new();
    match v {
        Some(l) => {
            for i in 0..l.len()
                invariant
                    out@ == l@.take(i as int),
            {
                out.push(l[i]);
                assert(out@ =~= l@.take(i + 1));
            }
            assert(l@.take(l@.len() as int) =~= l@);
        },
        None => {
            assert(text::slices(out@) =~= Seq::<Seq<char>>::empty());
        },
    }
    out
}

/// What a log tells about the disc, of the systems that are known.
pub fn parse(log: &str, known_system_codes: &Vec<String>) -> (r: ParsedRedumperLog)
    ensures
        r@ == log_view(text::lines(text::unix_newlines(log@)), text::texts(known_system_codes@)),
{
    let normalized = str_unix_newlines(log);
    let chars = chars_of(normalized.as_str());
    let ls = chars_lines(&chars);
    let info = latest_section(&ls, "INFO");
    let split = latest_section(&ls, "SPLIT");
    let hash = latest_section(&ls, "HASH");
    let prot = latest_section(&ls, "PROTECTION");
    let i = lines_or_none(&info);
    let s = lines_or_none(&split);
    let h = lines_or_none(&hash);
    let p = lines_or_none(&prot);
    let cuesheet = block_after_prefix(&s, "CUE [");
    let system_code = first_of(
        first_of(
            protection_system_code(&p, known_system_codes),
            system_code(&i, known_system_codes),
        ),
        read_cue_system(&cuesheet, known_system_codes),
    );
    let version = read_version(scalar_value(&i, "version:"), &system_code);
    ParsedRedumperLog {
        system_code,
        version,
        exe_date: first_of(scalar_value(&i, "EXE date:"), scalar_value(&i, "build date:")),
        edc: read_edc(&i),
        error_count: error_count(&i),
        universal_hash: read_hash(&s),
        sample_start: signed_value_after(&s, "non-zero data sample range:"),
        offset_value: signed_value_after(&s, "disc write offset:"),
        sector_ranges: consecutive_matching_after(RunKind::Ranges, &i, "security sector ranges:"),
        sbi: nonempty_join(&collect_sbi(&i)),
        pvd: consecutive_matching_after(RunKind::Dump, &i, "PVD:"),
        header: consecutive_matching_after(RunKind::Dump, &i, "header:"),
        cuesheet,
        dat: consecutive_matching_after(RunKind::Roms, &h, "dat:"),
        protection: protection(&prot, &info),
    }
}

// ── Laws ───────────────────────────────────────────────────────────────────

/// The last section with a name replaces the earlier ones: whatever stands before its
/// head, its lines are those up to the next head or the end.
pub proof fn law_last_section_wins(
    before: Seq<Seq<char>>,
    head: Seq<char>,
    section: Seq<Seq<char>>,
    wanted: Seq<char>,
)
    requires
        section_of(head) == Some(wanted),
        forall|i: int| 0 <= i < section.len() ==> section_of(#[trigger] section[i]) is None,
    ensures
        section_so_far(before.push(head) + section, wanted) == (Some(section), true),
        last_section(before.push(head) + section, wanted) == Some(section),
    decreases section.len(),
{
    let all = before.push(head) + section;
    if section.len() == 0 {
        assert(all =~= before.push(head));
        assert(all.last() == head);
        assert(section =~= Seq::<Seq<char>>::empty());
    } else {
        let front = section.drop_last();
        assert forall|i: int| 0 <= i < front.len() implies section_of(
            #[trigger] front[i],
        ) is None by {
            assert(front[i] == section[i]);
        }
        law_last_section_wins(before, head, front, wanted);
        assert(all.drop_last() =~= before.push(head) + front);
        assert(all.last() == section.last());
        assert(section_of(section[section.len() - 1]) is None);
        assert(front.push(section.last()) =~= section);
    }
}

/// A log without any section tells nothing.
pub proof fn law_no_sections_no_values(ls: Seq<Seq<char>>, known: Seq<Seq<char>>)
    requires
        forall|i: int| 0 <= i < ls.len() ==> section_of(#[trigger] ls[i]) is None,
    ensures
        ({
            let v = log_view(ls, known);
            v.version is None && v.system_code is None && v.cuesheet is None && v.dat is None
                && v.protection is None
        }),
{
    lemma_no_section(ls, "INFO"@);
    lemma_no_section(ls, "SPLIT"@);
    lemma_no_section(ls, "HASH"@);
    lemma_no_section(ls, "PROTECTION"@);
    assert(Seq::<Seq<char>>::empty() + Seq::<Seq<char>>::empty() =~= Seq::<Seq<char>>::empty());
}

proof fn lemma_no_section(ls: Seq<Seq<char>>, wanted: Seq<char>)
    requires
        forall|i: int| 0 <= i < ls.len() ==> section_of(#[trigger] ls[i]) is None,
    ensures
        section_so_far(ls, wanted) == (None::<Seq<Seq<char>>>, false),
    decreases ls.len(),
{
    if ls.len() > 0 {
        let front = ls.drop_last();
        assert forall|i: int| 0 <= i < front.len() implies section_of(
            #[trigger] front[i],
        ) is None by {
            assert(front[i] == ls[i]);
        }
        lemma_no_section(front, wanted);
        assert(section_of(ls[ls.len() - 1]) is None);
    }
}

} // verus!
