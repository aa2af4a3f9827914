//! What a log that says something of a disc is read as.

use vstd::prelude::*;

use crate::numbers;
use crate::services::redumper_log::{self, RunKind};
use crate::services::validation;
use crate::text;

verus! {

// ── Sections ───────────────────────────────────────────────────────────────

/// A line of three stars and a word begins the section of that name, whatever follows the
/// word.
pub proof fn law_stars_begin_a_section(name: Seq<char>, rest: Seq<char>)
    requires
        name.len() > 0,
        forall|i: int| 0 <= i < name.len() ==> !text::is_space(#[trigger] name[i]),
        rest.len() > 0 ==> text::is_space(rest[0]),
    ensures
        redumper_log::section_of("*** "@ + name + rest) == Some(name),
{
    reveal_strlit("*** ");
    let line = "*** "@ + name + rest;
    let tail = name + rest;
    assert(line.take(4) =~= "*** "@);
    assert(line.skip(4) =~= tail);
    assert(tail[0] == name[0]);
    text::lemma_space_from(tail, 0);
    let e = text::space_from(tail, 0);
    if e < name.len() {
        assert(tail[e] == name[e]);
    }
    if e > name.len() {
        assert(tail[name.len() as int] == rest[0]);
    }
    assert(tail.take(e) =~= name);
    assert((seq![tail.take(e)] + text::words(tail.skip(e)))[0] == tail.take(e));
}

/// A line that does not begin with three stars and a space belongs to its section.
pub proof fn law_other_lines_begin_none(line: Seq<char>)
    requires
        !text::starts_with(line, "*** "@),
    ensures
        redumper_log::section_of(line) is None,
{
}

/// The last section with a name stands between the lines `h` and `e`.
pub open spec fn section_at(ls: Seq<Seq<char>>, name: Seq<char>, h: int, e: int) -> bool {
    &&& 0 <= h < e <= ls.len()
    &&& redumper_log::section_of(ls[h]) == Some(name)
    &&& forall|j: int| h < j < e ==> redumper_log::section_of(#[trigger] ls[j]) is None
    &&& e < ls.len() ==> redumper_log::section_of(ls[e]) is Some
    &&& forall|j: int| e <= j < ls.len() ==> redumper_log::section_of(#[trigger] ls[j]) != Some(name)
}

/// A section is what stands between its head and the next one.
pub proof fn law_section_is_between_heads(ls: Seq<Seq<char>>, name: Seq<char>, h: int, e: int)
    requires
        section_at(ls, name, h, e),
    ensures
        redumper_log::last_section(ls, name) == Some(ls.subrange(h + 1, e)),
{
    let before = ls.take(h);
    let sec = ls.subrange(h + 1, e);
    redumper_log::law_last_section_wins(before, ls[h], sec, name);
    assert(ls.take(e) =~= before.push(ls[h]) + sec);
    lemma_section_stays(ls, name, e, ls.len() as int, sec);
    assert(ls.take(ls.len() as int) =~= ls);
}

proof fn lemma_section_stays(
    ls: Seq<Seq<char>>,
    name: Seq<char>,
    e: int,
    n: int,
    sec: Seq<Seq<char>>,
)
    requires
        0 <= e <= n <= ls.len(),
        redumper_log::section_so_far(ls.take(e), name) == (Some(sec), true),
        e < ls.len() ==> redumper_log::section_of(ls[e]) is Some,
        forall|j: int| e <= j < ls.len() ==> redumper_log::section_of(#[trigger] ls[j]) != Some(name),
    ensures
        redumper_log::section_so_far(ls.take(n), name).0 == Some(sec),
        n > e ==> !redumper_log::section_so_far(ls.take(n), name).1,
    decreases n - e,
{
    if n > e {
        lemma_section_stays(ls, name, e, n - 1, sec);
        assert(ls.take(n).drop_last() =~= ls.take(n - 1));
        assert(ls.take(n).last() == ls[n - 1]);
        assert(redumper_log::section_of(ls[n - 1]) != Some(name));
    }
}

// ── Values ─────────────────────────────────────────────────────────────────

/// A line gives a value behind a label.
pub open spec fn gives(line: Seq<char>, label: Seq<char>, v: Seq<char>) -> bool {
    &&& text::starts_with(text::trim(line), label)
    &&& text::trim(text::trim(line).skip(label.len() as int)) == v
    &&& v.len() > 0
}

/// The first line of a section that begins with a label gives a value.
pub open spec fn says(sec: Seq<Seq<char>>, label: Seq<char>, v: Seq<char>) -> bool {
    exists|k: int|
        0 <= k < sec.len() && gives(#[trigger] sec[k], label, v) && forall|j: int|
            0 <= j < k ==> !text::starts_with(text::trim(#[trigger] sec[j]), label)
}

/// No line of a section begins with a label.
pub open spec fn silent(sec: Seq<Seq<char>>, label: Seq<char>) -> bool {
    forall|j: int| 0 <= j < sec.len() ==> !text::starts_with(text::trim(#[trigger] sec[j]), label)
}

proof fn lemma_value_from(sec: Seq<Seq<char>>, label: Seq<char>, v: Seq<char>, i: int, k: int)
    requires
        0 <= i <= k < sec.len(),
        gives(sec[k], label, v),
        forall|j: int| 0 <= j < k ==> !text::starts_with(text::trim(#[trigger] sec[j]), label),
    ensures
        redumper_log::value_from(sec, label, i) == Some(v),
    decreases k - i,
{
    if i < k {
        assert(!text::starts_with(text::trim(sec[i]), label));
        lemma_value_from(sec, label, v, i + 1, k);
    }
}

proof fn lemma_said(sec: Seq<Seq<char>>, label: Seq<char>, v: Seq<char>)
    requires
        says(sec, label, v),
    ensures
        redumper_log::value(sec, label) == Some(v),
{
    let k = choose|k: int|
        0 <= k < sec.len() && gives(#[trigger] sec[k], label, v) && forall|j: int|
            0 <= j < k ==> !text::starts_with(text::trim(#[trigger] sec[j]), label);
    lemma_value_from(sec, label, v, 0, k);
}

proof fn lemma_silent(sec: Seq<Seq<char>>, label: Seq<char>, i: int)
    requires
        silent(sec, label),
        0 <= i,
    ensures
        redumper_log::value_from(sec, label, i) is None,
    decreases sec.len() - i,
{
    if i < sec.len() {
        assert(!text::starts_with(text::trim(sec[i]), label));
        lemma_silent(sec, label, i + 1);
    }
}

/// A log whose information says yes of the error detection of its sectors is read as yes,
/// one that says no as no, in any case of the letters; one that says neither, or nothing,
/// is not read as either.
pub proof fn law_edc_is_what_the_log_says(
    ls: Seq<Seq<char>>,
    known: Seq<Seq<char>>,
    h: int,
    e: int,
    v: Seq<char>,
)
    requires
        section_at(ls, "INFO"@, h, e),
    ensures
        says(ls.subrange(h + 1, e), "mode2 (form 2) EDC:"@, v) ==> redumper_log::log_view(ls, known).edc == (
        if text::lower_text(v) == "yes"@ {
            Some(true)
        } else if text::lower_text(v) == "no"@ {
            Some(false)
        } else {
            None
        }),
        silent(ls.subrange(h + 1, e), "mode2 (form 2) EDC:"@) ==> redumper_log::log_view(ls, known).edc is None,
{
    law_section_is_between_heads(ls, "INFO"@, h, e);
    let sec = ls.subrange(h + 1, e);
    reveal_strlit("yes");
    reveal_strlit("no");
    assert(text::lower_text("yes"@) =~= "yes"@);
    assert(text::lower_text("no"@) =~= "no"@);
    if says(sec, "mode2 (form 2) EDC:"@, v) {
        lemma_said(sec, "mode2 (form 2) EDC:"@, v);
    }
    if silent(sec, "mode2 (form 2) EDC:"@) {
        lemma_silent(sec, "mode2 (form 2) EDC:"@, 0);
    }
}

/// The date is that of the program where the information gives it, else that of the build.
pub proof fn law_dates_are_what_the_log_says(
    ls: Seq<Seq<char>>,
    known: Seq<Seq<char>>,
    h: int,
    e: int,
    v: Seq<char>,
)
    requires
        section_at(ls, "INFO"@, h, e),
    ensures
        says(ls.subrange(h + 1, e), "EXE date:"@, v) ==> redumper_log::log_view(ls, known).exe_date == Some(v),
        silent(ls.subrange(h + 1, e), "EXE date:"@) && says(
            ls.subrange(h + 1, e),
            "build date:"@,
            v,
        ) ==> redumper_log::log_view(ls, known).exe_date == Some(v),
        silent(ls.subrange(h + 1, e), "EXE date:"@) && silent(
            ls.subrange(h + 1, e),
            "build date:"@,
        ) ==> redumper_log::log_view(ls, known).exe_date is None,
{
    law_section_is_between_heads(ls, "INFO"@, h, e);
    let sec = ls.subrange(h + 1, e);
    if says(sec, "EXE date:"@, v) {
        lemma_said(sec, "EXE date:"@, v);
    }
    if silent(sec, "EXE date:"@) {
        lemma_silent(sec, "EXE date:"@, 0);
    }
    if says(sec, "build date:"@, v) {
        lemma_said(sec, "build date:"@, v);
    }
    if silent(sec, "build date:"@) {
        lemma_silent(sec, "build date:"@, 0);
    }
}

/// The version is what the information says, but for the two systems that count revisions:
/// there it is the revision, and nothing for the first.
pub proof fn law_version_is_what_the_log_says(
    ls: Seq<Seq<char>>,
    known: Seq<Seq<char>>,
    h: int,
    e: int,
    v: Seq<char>,
)
    requires
        section_at(ls, "INFO"@, h, e),
        says(ls.subrange(h + 1, e), "version:"@, v),
    ensures
        ({
            let log = redumper_log::log_view(ls, known);
            let counted = log.system_code == Some("GC"@) || log.system_code == Some("WII"@);
            &&& !counted ==> log.version == Some(v)
            &&& counted && v == "0"@ ==> log.version == Some(Seq::<char>::empty())
            &&& counted && v != "0"@ ==> log.version == Some("Rev "@ + v)
        }),
{
    law_section_is_between_heads(ls, "INFO"@, h, e);
    lemma_said(ls.subrange(h + 1, e), "version:"@, v);
}

/// The universal hash is what the split says, if that is forty hexadecimal digits.
pub proof fn law_hash_is_what_the_log_says(
    ls: Seq<Seq<char>>,
    known: Seq<Seq<char>>,
    h: int,
    e: int,
    v: Seq<char>,
)
    requires
        section_at(ls, "SPLIT"@, h, e),
        says(ls.subrange(h + 1, e), "Universal Hash (SHA-1):"@, v),
    ensures
        v.len() == 40 && text::all_hex(v) ==> redumper_log::log_view(ls, known).universal_hash == Some(v),
        !(v.len() == 40 && text::all_hex(v)) ==> redumper_log::log_view(ls, known).universal_hash is None,
{
    law_section_is_between_heads(ls, "SPLIT"@, h, e);
    lemma_said(ls.subrange(h + 1, e), "Universal Hash (SHA-1):"@, v);
}

/// Digits, perhaps behind a sign.
pub open spec fn reads_as_number(s: Seq<char>) -> bool {
    let digits = if s.len() > 0 && (s[0] == '+' || s[0] == '-') {
        s.skip(1)
    } else {
        s
    };
    digits.len() > 0 && text::all_digits(digits)
}

proof fn lemma_number_ends(s: Seq<char>, i: int, n: Seq<char>, rest: Seq<char>)
    requires
        0 <= i <= s.len(),
        s.skip(i) == n + rest,
        reads_as_number(n),
        rest.len() > 0 ==> redumper_log::is_separator(rest[0]),
    ensures
        redumper_log::number_from(s, i) == Some(n),
{
    let w = n + rest;
    assert forall|k: int| 0 <= k < n.len() implies !redumper_log::is_separator(#[trigger] n[k]) by {
        if k > 0 {
            if n[0] == '+' || n[0] == '-' {
                assert(n.skip(1)[k - 1] == n[k]);
            }
        } else if !(n[0] == '+' || n[0] == '-') {
            assert(text::is_digit(n[0]));
        }
    }
    assert(s.len() == i + w.len());
    assert forall|k: int| 0 <= k < w.len() implies #[trigger] s[i + k] == w[k] by {
        assert(s.skip(i)[k] == s[i + k]);
    }
    assert forall|k: int| i <= k < i + n.len() implies !redumper_log::is_separator(#[trigger] s[k]) by {
        assert(s[i + (k - i)] == w[k - i]);
        assert(w[k - i] == n[k - i]);
    }
    if rest.len() > 0 {
        assert(s[i + n.len()] == w[n.len() as int]);
    }
    lemma_separator_at(s, i, i + n.len());
    assert(s.subrange(i, i + n.len()) =~= n) by {
        assert forall|k: int| 0 <= k < n.len() implies #[trigger] s.subrange(i, i + n.len())[k]
            == n[k] by {
            assert(s[i + k] == w[k]);
        }
    }
}

proof fn lemma_separator_at(s: Seq<char>, i: int, e: int)
    requires
        0 <= i <= e <= s.len(),
        forall|k: int| i <= k < e ==> !redumper_log::is_separator(#[trigger] s[k]),
        e < s.len() ==> redumper_log::is_separator(s[e]),
    ensures
        redumper_log::separator_from(s, i) == e,
    decreases e - i,
{
    if i < e {
        lemma_separator_at(s, i + 1, e);
    }
}

/// The write offset of the disc is the number that the split gives, with its sign; the
/// start of the samples is the first number of the range that it gives.
pub proof fn law_offsets_are_what_the_log_says(
    ls: Seq<Seq<char>>,
    known: Seq<Seq<char>>,
    h: int,
    e: int,
    n: Seq<char>,
    rest: Seq<char>,
)
    requires
        section_at(ls, "SPLIT"@, h, e),
        reads_as_number(n),
        rest.len() > 0 ==> text::is_space(rest[0]),
    ensures
        says(ls.subrange(h + 1, e), "disc write offset:"@, n + rest) ==> redumper_log::log_view(
            ls,
            known,
        ).offset_value == Some(n),
        says(ls.subrange(h + 1, e), "non-zero data sample range:"@, "["@ + n + rest)
            ==> redumper_log::log_view(ls, known).sample_start == Some(n),
{
    law_section_is_between_heads(ls, "SPLIT"@, h, e);
    let sec = ls.subrange(h + 1, e);
    if says(sec, "disc write offset:"@, n + rest) {
        lemma_said(sec, "disc write offset:"@, n + rest);
        assert((n + rest).skip(0) =~= n + rest);
        lemma_number_ends(n + rest, 0, n, rest);
    }
    let v = "["@ + n + rest;
    if says(sec, "non-zero data sample range:"@, v) {
        lemma_said(sec, "non-zero data sample range:"@, v);
        reveal_strlit("[");
        assert(v[0] == '[');
        assert(v.skip(1) =~= n + rest);
        assert(v.subrange(0, 0).len() == 0);
        assert(redumper_log::separator_from(v, 0) == 0);
        assert(!redumper_log::is_signed_number(v.subrange(0, 0)));
        lemma_number_ends(v, 1, n, rest);
    }
}

// ── Errors ─────────────────────────────────────────────────────────────────

/// The errors add up: a line that gives a count adds it to those before it, one that does
/// not leaves them, and a count that is no number, or of the older kind, leaves the whole
/// unknown.
pub proof fn law_errors_add_up(sec: Seq<Seq<char>>, line: Seq<char>)
    requires
        !text::starts_with(text::trim(line), "REDUMP.ORG errors:"@),
        redumper_log::errors_so_far(sec) is Some,
        !redumper_log::has_old_errors(sec),
    ensures
        ({
            let so_far = match redumper_log::errors(sec) {
                Some(n) => n,
                None => 0,
            };
            let count = numbers::i64_value(
                text::trim(text::trim(line).skip("REDUMP.INFO errors:"@.len() as int)),
            );
            &&& !text::starts_with(text::trim(line), "REDUMP.INFO errors:"@) ==> redumper_log::errors(sec.push(line))
                == redumper_log::errors(sec)
            &&& text::starts_with(text::trim(line), "REDUMP.INFO errors:"@) ==> redumper_log::errors(sec.push(line)) == (
            match count {
                Some(n) => if n >= 0 && so_far + n <= i64::MAX {
                    Some(so_far + n)
                } else {
                    None
                },
                None => None,
            })
        }),
{
    let all = sec.push(line);
    assert(all.drop_last() =~= sec);
    assert(all.last() == line);
    if redumper_log::has_old_errors(all) {
        let i = choose|i: int|
            0 <= i < all.len() && text::starts_with(text::trim(#[trigger] all[i]), "REDUMP.ORG errors:"@);
        if i < sec.len() {
            assert(text::starts_with(text::trim(sec[i]), "REDUMP.ORG errors:"@));
        }
    }
    lemma_errors_start(sec);
}

proof fn lemma_errors_start(sec: Seq<Seq<char>>)
    ensures
        redumper_log::errors_so_far(sec) matches Some((found, total)) ==> total >= 0 && (!found ==> total == 0),
    decreases sec.len(),
{
    if sec.len() > 0 {
        lemma_errors_start(sec.drop_last());
    }
}

/// A section without lines gives no count, and one line of the older kind hides every
/// count.
pub proof fn law_errors_unknown(sec: Seq<Seq<char>>, i: int)
    ensures
        redumper_log::errors(Seq::empty()) is None,
        0 <= i < sec.len() && text::starts_with(text::trim(sec[i]), "REDUMP.ORG errors:"@) ==> redumper_log::errors(sec)
            is None,
{
}

/// The number of errors of a log is that of its information.
pub proof fn law_errors_of_the_information(
    ls: Seq<Seq<char>>,
    known: Seq<Seq<char>>,
    h: int,
    e: int,
)
    requires
        section_at(ls, "INFO"@, h, e),
    ensures
        redumper_log::log_view(ls, known).error_count == redumper_log::errors(ls.subrange(h + 1, e)),
{
    law_section_is_between_heads(ls, "INFO"@, h, e);
}

// ── Runs of lines ──────────────────────────────────────────────────────────

/// A line of a hex dump: four hexadecimal digits, a colon between spaces, and more.
pub open spec fn reads_as_dump(line: Seq<char>) -> bool {
    exists|d: Seq<char>, rest: Seq<char>|
        d.len() == 4 && text::all_hex(d) && #[trigger] (d + " : "@ + rest) == text::trim(line)
}

proof fn lemma_dump_line(line: Seq<char>)
    ensures
        redumper_log::is_dump_line(line) == reads_as_dump(line),
{
    reveal_strlit(" : ");
    let l = text::trim(line);
    text::lemma_find_from(l, " : "@, 0);
    if reads_as_dump(line) {
        let (d, rest) = choose|d: Seq<char>, rest: Seq<char>|
            d.len() == 4 && text::all_hex(d) && #[trigger] (d + " : "@ + rest) == l;
        assert(l.subrange(4, 7) =~= " : "@);
        assert(text::stands_at(l, " : "@, 4));
        assert(l.take(4) =~= d);
        let p = text::find(l, " : "@)->0;
        if p < 4 {
            assert(l.subrange(p, p + 3)[0] == ' ');
            assert(l[p] == ' ');
            assert(text::is_hex(d[p]));
        }
    }
    if redumper_log::is_dump_line(line) {
        let d = l.take(4);
        let rest = l.skip(7);
        assert(l.subrange(4, 7) == " : "@);
        assert(d + " : "@ + rest =~= l) by {
            assert(l =~= l.take(4) + l.subrange(4, 7) + l.skip(7));
        }
    }
}

/// Lines that are read as a block of a log: a label, the lines of the block, and then the
/// end or a line that does not belong to it.
pub open spec fn run_at(
    sec: Seq<Seq<char>>,
    label: Seq<char>,
    k: int,
    e: int,
    belongs: spec_fn(Seq<char>) -> bool,
) -> bool {
    &&& 0 <= k < e <= sec.len()
    &&& text::trim(sec[k]) == label
    &&& forall|j: int| 0 <= j < k ==> text::trim(#[trigger] sec[j]) != label
    &&& forall|j: int| k < j < e ==> belongs(#[trigger] sec[j])
    &&& e < sec.len() ==> !belongs(sec[e])
}

proof fn lemma_label(sec: Seq<Seq<char>>, label: Seq<char>, i: int, k: int)
    requires
        0 <= i <= k < sec.len(),
        text::trim(sec[k]) == label,
        forall|j: int| 0 <= j < k ==> text::trim(#[trigger] sec[j]) != label,
    ensures
        redumper_log::label_from(sec, label, i) == Some(k),
    decreases k - i,
{
    if i < k {
        assert(text::trim(sec[i]) != label);
        lemma_label(sec, label, i + 1, k);
    }
}

proof fn lemma_run(
    kind: RunKind,
    sec: Seq<Seq<char>>,
    i: int,
    e: int,
    given: spec_fn(Seq<char>) -> Seq<char>,
)
    requires
        0 <= i <= e <= sec.len(),
        forall|j: int|
            i <= j < e ==> redumper_log::run_line(kind, #[trigger] sec[j]) == Some(given(sec[j])),
        e < sec.len() ==> redumper_log::run_line(kind, sec[e]) is None,
    ensures
        redumper_log::run_from(kind, sec, i) == sec.subrange(i, e).map_values(given),
    decreases e - i,
{
    if i < e {
        assert(redumper_log::run_line(kind, sec[i]) == Some(given(sec[i])));
        lemma_run(kind, sec, i + 1, e, given);
        assert(redumper_log::run_from(kind, sec, i) =~= sec.subrange(i, e).map_values(given)) by {
            assert(redumper_log::run_from(kind, sec, i) =~= seq![given(sec[i])] + sec.subrange(
                i + 1,
                e,
            ).map_values(given));
        }
    } else {
        assert(redumper_log::run_from(kind, sec, i) =~= sec.subrange(i, e).map_values(given));
    }
}

/// The volume descriptor and the header are the lines of the hex dumps behind their labels,
/// without what trails them.
pub proof fn law_dumps_are_what_the_log_says(
    ls: Seq<Seq<char>>,
    known: Seq<Seq<char>>,
    h: int,
    e: int,
    k: int,
    f: int,
)
    requires
        section_at(ls, "INFO"@, h, e),
    ensures
        ({
            let sec = ls.subrange(h + 1, e);
            let belongs = |line: Seq<char>| reads_as_dump(line);
            let text = text::join(
                sec.subrange(k + 1, f).map_values(|line: Seq<char>| text::trim_end(line)),
                "\n"@,
            );
            &&& run_at(sec, "PVD:"@, k, f, belongs) ==> redumper_log::log_view(ls, known).pvd == (if f == k + 1 {
                None
            } else {
                Some(text)
            })
            &&& run_at(sec, "header:"@, k, f, belongs) ==> redumper_log::log_view(ls, known).header == (if f == k
                + 1 {
                None
            } else {
                Some(text)
            })
        }),
{
    law_section_is_between_heads(ls, "INFO"@, h, e);
    let sec = ls.subrange(h + 1, e);
    let belongs = |line: Seq<char>| reads_as_dump(line);
    let given = |line: Seq<char>| text::trim_end(line);
    if run_at(sec, "PVD:"@, k, f, belongs) || run_at(sec, "header:"@, k, f, belongs) {
        assert forall|j: int| k + 1 <= j < f implies redumper_log::run_line(RunKind::Dump, #[trigger] sec[j])
            == Some(given(sec[j])) by {
            assert(belongs(sec[j]));
            lemma_dump_line(sec[j]);
        }
        if f < sec.len() {
            assert(!belongs(sec[f]));
            lemma_dump_line(sec[f]);
        }
        lemma_run(RunKind::Dump, sec, k + 1, f, given);
    }
    if run_at(sec, "PVD:"@, k, f, belongs) {
        lemma_label(sec, "PVD:"@, 0, k);
    }
    if run_at(sec, "header:"@, k, f, belongs) {
        lemma_label(sec, "header:"@, 0, k);
    }
}

/// The DAT is what stands behind its label among the hashes: the lines that are elements of
/// files, without the space around them.
pub proof fn law_dat_is_what_the_log_says(
    ls: Seq<Seq<char>>,
    known: Seq<Seq<char>>,
    h: int,
    e: int,
    k: int,
    f: int,
)
    requires
        section_at(ls, "HASH"@, h, e),
        run_at(
            ls.subrange(h + 1, e),
            "dat:"@,
            k,
            f,
            |line: Seq<char>|
                text::starts_with(text::trim(line), "<rom "@) && text::ends_with(text::trim(line), "/>"@),
        ),
    ensures
        redumper_log::log_view(ls, known).dat == (if f == k + 1 {
            None
        } else {
            Some(
                text::join(
                    ls.subrange(h + 1, e).subrange(k + 1, f).map_values(
                        |line: Seq<char>| text::trim(line),
                    ),
                    "\n"@,
                ),
            )
        }),
{
    law_section_is_between_heads(ls, "HASH"@, h, e);
    let sec = ls.subrange(h + 1, e);
    let given = |line: Seq<char>| text::trim(line);
    lemma_label(sec, "dat:"@, 0, k);
    lemma_run(RunKind::Roms, sec, k + 1, f, given);
}

/// The ranges of the security sectors are what stands behind their label: the lines that
/// are ranges, without the space around them.
pub proof fn law_ranges_are_what_the_log_says(
    ls: Seq<Seq<char>>,
    known: Seq<Seq<char>>,
    h: int,
    e: int,
    k: int,
    f: int,
)
    requires
        section_at(ls, "INFO"@, h, e),
        run_at(
            ls.subrange(h + 1, e),
            "security sector ranges:"@,
            k,
            f,
            |line: Seq<char>| text::trim(line).len() > 0 && validation::sector_ranges(text::trim(line)) is Ok,
        ),
    ensures
        redumper_log::log_view(ls, known).sector_ranges == (if f == k + 1 {
            None
        } else {
            Some(
                text::join(
                    ls.subrange(h + 1, e).subrange(k + 1, f).map_values(
                        |line: Seq<char>| text::trim(line),
                    ),
                    "\n"@,
                ),
            )
        }),
{
    law_section_is_between_heads(ls, "INFO"@, h, e);
    let sec = ls.subrange(h + 1, e);
    let given = |line: Seq<char>| text::trim(line);
    lemma_label(sec, "security sector ranges:"@, 0, k);
    lemma_run(RunKind::Ranges, sec, k + 1, f, given);
}

// ── Cuesheet ───────────────────────────────────────────────────────────────

proof fn lemma_block(sec: Seq<Seq<char>>, prefix: Seq<char>, i: int, f: int)
    requires
        0 <= i <= f <= sec.len(),
        forall|j: int|
            i <= j < f ==> !text::is_blank(#[trigger] sec[j]) && !text::starts_with(
                text::trim_start(sec[j]),
                prefix,
            ),
        f < sec.len() ==> text::is_blank(sec[f]) || text::starts_with(text::trim_start(sec[f]), prefix),
    ensures
        redumper_log::block_from(sec, prefix, i) == sec.subrange(i, f).map_values(
            |line: Seq<char>| text::trim_end(line),
        ),
    decreases f - i,
{
    let given = |line: Seq<char>| text::trim_end(line);
    if i < f {
        assert(!text::is_blank(sec[i]));
        lemma_block(sec, prefix, i + 1, f);
        assert(redumper_log::block_from(sec, prefix, i) =~= seq![given(sec[i])] + sec.subrange(
            i + 1,
            f,
        ).map_values(given));
        assert(redumper_log::block_from(sec, prefix, i) =~= sec.subrange(i, f).map_values(given));
    } else {
        assert(redumper_log::block_from(sec, prefix, i) =~= sec.subrange(i, f).map_values(given));
    }
}

proof fn lemma_block_start(sec: Seq<Seq<char>>, prefix: Seq<char>, i: int, k: int)
    requires
        0 <= i <= k < sec.len(),
        text::starts_with(text::trim_start(sec[k]), prefix),
        forall|j: int| 0 <= j < k ==> !text::starts_with(text::trim_start(#[trigger] sec[j]), prefix),
    ensures
        redumper_log::block_start(sec, prefix, i) == Some(k),
    decreases k - i,
{
    if i < k {
        assert(!text::starts_with(text::trim_start(sec[i]), prefix));
        lemma_block_start(sec, prefix, i + 1, k);
    }
}

/// The cuesheet is what stands in the split behind the first line that announces one, up to
/// a blank line or the next announcement, without what trails its lines.
pub proof fn law_cuesheet_is_what_the_log_says(
    ls: Seq<Seq<char>>,
    known: Seq<Seq<char>>,
    h: int,
    e: int,
    k: int,
    f: int,
)
    requires
        section_at(ls, "SPLIT"@, h, e),
        ({
            let sec = ls.subrange(h + 1, e);
            &&& 0 <= k < f <= sec.len()
            &&& text::starts_with(text::trim_start(sec[k]), "CUE ["@)
            &&& forall|j: int|
                0 <= j < k ==> !text::starts_with(text::trim_start(#[trigger] sec[j]), "CUE ["@)
            &&& forall|j: int|
                k < j < f ==> !text::is_blank(#[trigger] sec[j]) && !text::starts_with(
                    text::trim_start(sec[j]),
                    "CUE ["@,
                )
            &&& f < sec.len() ==> text::is_blank(sec[f]) || text::starts_with(text::trim_start(sec[f]), "CUE ["@)
        }),
    ensures
        redumper_log::log_view(ls, known).cuesheet == (if f == k + 1 {
            None
        } else {
            Some(
                text::join(
                    ls.subrange(h + 1, e).subrange(k + 1, f).map_values(
                        |line: Seq<char>| text::trim_end(line),
                    ),
                    "\n"@,
                ),
            )
        }),
{
    law_section_is_between_heads(ls, "SPLIT"@, h, e);
    let sec = ls.subrange(h + 1, e);
    lemma_block_start(sec, "CUE ["@, 0, k);
    lemma_block(sec, "CUE ["@, k + 1, f);
}

// ── Builds ─────────────────────────────────────────────────────────────────

/// A build is supported exactly if its number is large enough.
pub proof fn law_builds_from_a_number_on(n: nat)
    requires
        n <= u64::MAX,
    ensures
        redumper_log::is_supported_build(" b"@ + numbers::nat_text(n) + ")"@) == (n >= 737),
{
    reveal_strlit(" b");
    reveal_strlit(")");
    numbers::law_nat_text_reads_back(n);
    let t = numbers::nat_text(n);
    let rest = " b"@ + t + ")"@;
    let inner = rest.drop_last();
    assert(inner =~= " b"@ + t);
    let k = text::lemma_trim_start_skip(inner);
    assert(inner[0] == ' ');
    assert(inner[1] == 'b');
    assert(k == 1);
    let a = inner.skip(1);
    assert(a =~= seq!['b'] + t);
    let m = text::lemma_trim_end_take(a);
    assert(text::is_digit(t[t.len() - 1]));
    assert(a[a.len() - 1] == t[t.len() - 1]);
    if m < a.len() {
        assert(text::is_space(a[a.len() - 1]));
    }
    assert(a.take(m) =~= a);
    assert(text::trim(inner) == a);
    assert(a.skip(1) =~= t);
    assert(rest.last() == ')');
}

// ── Systems and protection ─────────────────────────────────────────────────

/// The head of a block names its system by the code before the name in brackets.
pub proof fn law_head_names_its_code(code: Seq<char>, name: Seq<char>)
    requires
        code.len() > 0,
        forall|i: int| 0 <= i < code.len() ==> text::is_alnum(#[trigger] code[i]) || code[i] == '-'
            || code[i] == '_',
    ensures
        redumper_log::header_code(code + " ["@ + name + "]:"@) == Some(code),
{
    reveal_strlit(" [");
    reveal_strlit("]:");
    let l = code + " ["@ + name + "]:"@;
    let k = text::lemma_trim_start_skip(l);
    assert(l[0] == code[0]);
    assert(k == 0);
    assert(l.skip(0) =~= l);
    let m = text::lemma_trim_end_take(l);
    assert(l[l.len() - 1] == ':');
    if m < l.len() {
        assert(text::is_space(l[l.len() - 1]));
    }
    assert(l.take(m) =~= l);
    assert(text::trim(l) == l);
    assert(l.skip(l.len() - 2) =~= "]:"@);
    text::lemma_find_from(l, " ["@, 0);
    let p = code.len() as int;
    assert(l.subrange(p, p + 2) =~= " ["@);
    assert(text::stands_at(l, " ["@, p));
    let q = text::find(l, " ["@)->0;
    if q < p {
        assert(l.subrange(q, q + 2)[0] == ' ');
        assert(l[q] == code[q]);
    }
    assert(l.take(p) =~= code);
    assert forall|i: int| 0 <= i < p implies redumper_log::is_code_char(#[trigger] l[i]) by {
        assert(l[i] == code[i]);
    }
}

/// A log that names a known system in a block, and no protection that tells of one, is of
/// that system; and a block of SecuROM tells of a disc for PCs.
pub proof fn law_named_system(
    ls: Seq<Seq<char>>,
    known: Seq<Seq<char>>,
    h: int,
    e: int,
    k: int,
    code: Seq<char>,
)
    requires
        section_at(ls, "INFO"@, h, e),
        0 <= k < ls.subrange(h + 1, e).len(),
        redumper_log::header_code(ls.subrange(h + 1, e)[k]) == Some(code),
        forall|j: int|
            0 <= j < k ==> redumper_log::header_code(#[trigger] ls.subrange(h + 1, e)[j]) is None,
        forall|j: int| 0 <= j < ls.len() ==> redumper_log::section_of(#[trigger] ls[j]) != Some("PROTECTION"@),
    ensures
        code != "SecuROM"@ && known.contains(code) ==> redumper_log::log_view(ls, known).system_code == Some(
            code,
        ),
        code == "SecuROM"@ && known.contains("PC"@) ==> redumper_log::log_view(ls, known).system_code == Some(
            "PC"@,
        ),
{
    law_section_is_between_heads(ls, "INFO"@, h, e);
    lemma_never_begun(ls, "PROTECTION"@);
    if redumper_log::system_of_line(ls.subrange(h + 1, e)[k], known) is Some {
        lemma_first_system(ls.subrange(h + 1, e), known, 0, k);
    }
}

proof fn lemma_never_begun(ls: Seq<Seq<char>>, name: Seq<char>)
    requires
        forall|j: int| 0 <= j < ls.len() ==> redumper_log::section_of(#[trigger] ls[j]) != Some(name),
    ensures
        redumper_log::section_so_far(ls, name) == (None::<Seq<Seq<char>>>, false),
    decreases ls.len(),
{
    if ls.len() > 0 {
        assert forall|j: int| 0 <= j < ls.drop_last().len() implies redumper_log::section_of(
            #[trigger] ls.drop_last()[j],
        ) != Some(name) by {
            assert(ls.drop_last()[j] == ls[j]);
        }
        lemma_never_begun(ls.drop_last(), name);
        assert(ls.last() == ls[ls.len() - 1]);
    }
}

proof fn lemma_first_system(sec: Seq<Seq<char>>, known: Seq<Seq<char>>, i: int, k: int)
    requires
        0 <= i <= k < sec.len(),
        forall|j: int| 0 <= j < k ==> redumper_log::header_code(#[trigger] sec[j]) is None,
        redumper_log::system_of_line(sec[k], known) is Some,
    ensures
        redumper_log::system_from_line(sec, known, i) == redumper_log::system_of_line(sec[k], known),
    decreases k - i,
{
    if i < k {
        assert(redumper_log::header_code(sec[i]) is None);
        lemma_first_system(sec, known, i + 1, k);
    }
}

/// A protection tells of the system that it is made for, before any block is read: SafeDisc
/// of PCs, that of Datel of the console.
pub proof fn law_protection_tells_the_system(
    ls: Seq<Seq<char>>,
    known: Seq<Seq<char>>,
    h: int,
    v: Seq<char>,
)
    requires
        section_at(ls, "PROTECTION"@, h, h + 2),
        gives(ls[h + 1], "protection:"@, v),
    ensures
        text::starts_with(v, "SafeDisc"@) && known.contains("PC"@) ==> redumper_log::log_view(ls, known).system_code
            == Some("PC"@),
        text::starts_with(v, "PS2/Datel"@) && known.contains("PS2"@) ==> redumper_log::log_view(ls, known).system_code
            == Some("PS2"@),
{
    law_section_is_between_heads(ls, "PROTECTION"@, h, h + 2);
    let sec = ls.subrange(h + 1, h + 2);
    assert(sec[0] == ls[h + 1]);
    if text::starts_with(v, "PS2/Datel"@) {
        reveal_strlit("SafeDisc");
        reveal_strlit("PS2/Datel");
        assert(v[0] == v.take(9)[0]);
        if text::starts_with(v, "SafeDisc"@) {
            assert(v[0] == v.take(8)[0]);
            assert("SafeDisc"@[0] == 'S' && "PS2/Datel"@[0] == 'P');
        }
    }
}

/// What a log of one line of protection, and no information, says of it: nothing where the
/// line says that there is none, else what it names.
pub proof fn law_protection_is_what_the_log_says(
    ls: Seq<Seq<char>>,
    known: Seq<Seq<char>>,
    h: int,
    v: Seq<char>,
)
    requires
        section_at(ls, "PROTECTION"@, h, h + 2),
        gives(ls[h + 1], "protection:"@, v),
        forall|j: int| 0 <= j < ls.len() ==> redumper_log::section_of(#[trigger] ls[j]) != Some("INFO"@),
    ensures
        text::lower_text(v) == "none"@ ==> redumper_log::log_view(ls, known).protection == Some(Seq::<char>::empty()),
        text::lower_text(v) != "none"@ ==> redumper_log::log_view(ls, known).protection == Some(v),
{
    law_section_is_between_heads(ls, "PROTECTION"@, h, h + 2);
    lemma_never_begun(ls, "INFO"@);
    let sec = ls.subrange(h + 1, h + 2);
    assert(sec[0] == ls[h + 1]);
    reveal_strlit("none");
    assert(text::lower_text("none"@) =~= "none"@);
    reveal_strlit("protections:");
    reveal_strlit("protection:");
    let l = text::trim(sec[0]);
    assert(l.take(11)[10] == l[10]);
    assert("protection:"@[10] == ':' && "protections:"@[10] == 's');
    assert(l != "protections:"@);
    assert(redumper_log::protections_to(sec, 0) =~= Seq::<Seq<char>>::empty());
    assert(redumper_log::protections_to(sec, 1) =~= redumper_log::protections_at(sec, 0));
    assert(redumper_log::says_none(sec[0]) == (text::lower_text(v) == "none"@));
    assert(redumper_log::any_says_none(sec) == redumper_log::says_none(sec[0])) by {
        assert forall|i: int| 0 <= i < sec.len() implies redumper_log::says_none(#[trigger] sec[i])
            == redumper_log::says_none(sec[0]) by {}
    }
    if text::lower_text(v) != "none"@ {
        assert(redumper_log::protections_at(sec, 0) =~= seq![v]);
        assert(seq![v] + Seq::<Seq<char>>::empty() =~= seq![v]);
    } else {
        assert(Seq::<Seq<char>>::empty() + Seq::<Seq<char>>::empty() =~= Seq::<
            Seq<char>,
        >::empty());
    }
}

/// A block about SecuROM tells its scheme, one about a PlayStation disc whether it has
/// LibCrypt, and no other block tells of protection.
pub proof fn law_blocks_tell_of_protection(code: Seq<char>, block: Seq<Seq<char>>, v: Seq<char>)
    ensures
        says(block, "scheme:"@, v) ==> redumper_log::block_protection("SecuROM"@, block) == seq![
            "SecuROM scheme: "@ + v,
        ],
        says(block, "libcrypt:"@, v) && text::lower_text(v) == "yes"@ ==> redumper_log::block_protection("PSX"@, block)
            == seq!["LibCrypt"@],
        says(block, "libcrypt:"@, v) && text::lower_text(v) != "yes"@ ==> redumper_log::block_protection(
            "PSX"@,
            block,
        ).len() == 0,
        code != "SecuROM"@ && code != "PSX"@ ==> redumper_log::block_protection(code, block).len() == 0,
{
    reveal_strlit("SecuROM");
    reveal_strlit("PSX");
    reveal_strlit("yes");
    assert("SecuROM"@.len() == 7 && "PSX"@.len() == 3);
    assert(text::lower_text("yes"@) =~= "yes"@);
    if says(block, "scheme:"@, v) {
        let k = choose|k: int|
            0 <= k < block.len() && gives(#[trigger] block[k], "scheme:"@, v) && forall|j: int|
                0 <= j < k ==> !text::starts_with(text::trim(#[trigger] block[j]), "scheme:"@);
        lemma_value_from(block, "scheme:"@, v, 0, k);
    }
    if says(block, "libcrypt:"@, v) {
        let k = choose|k: int|
            0 <= k < block.len() && gives(#[trigger] block[k], "libcrypt:"@, v) && forall|j: int|
                0 <= j < k ==> !text::starts_with(text::trim(#[trigger] block[j]), "libcrypt:"@);
        lemma_value_from(block, "libcrypt:"@, v, 0, k);
    }
}

/// A line that begins with white space and says something.
pub open spec fn is_indented(line: Seq<char>) -> bool {
    line.len() > 0 && text::is_space(line[0]) && text::trim(line).len() > 0
}

/// The entries of a list of protections are the indented lines that follow one another, up to
/// the first that is none.
pub proof fn law_protections_are_the_indented_lines(ls: Seq<Seq<char>>, i: int, j: int)
    requires
        0 <= i <= ls.len(),
    ensures
        redumper_log::entries_from(ls, i).len() <= ls.len() - i,
        0 <= j < redumper_log::entries_from(ls, i).len() ==> is_indented(ls[i + j]) && redumper_log::entries_from(ls, i)[j]
            == text::trim(ls[i + j]),
        i + redumper_log::entries_from(ls, i).len() < ls.len() ==> !is_indented(
            ls[i + redumper_log::entries_from(ls, i).len()],
        ),
    decreases ls.len() - i,
{
    if i < ls.len() {
        let l = ls[i];
        let k = text::lemma_trim_start_skip(l);
        if k == 0 {
            assert(l.skip(0) =~= l);
        } else {
            assert(text::is_space(l[0]));
            assert(text::trim_start(l).len() < l.len());
        }
        if is_indented(l) {
            assert(k > 0);
            law_protections_are_the_indented_lines(ls, i + 1, j - 1);
            let rest = redumper_log::entries_from(ls, i + 1);
            let all = redumper_log::entries_from(ls, i);
            assert(all =~= seq![text::trim(l)] + rest);
            if 0 < j < all.len() {
                assert(all[j] == rest[j - 1]);
            }
        }
    }
}

} // verus!
