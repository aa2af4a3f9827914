//! What an accepted cuesheet looks like.

use vstd::prelude::*;

use crate::numbers;
use crate::services::validation::{self, CueState};
use crate::text;
use crate::unicode;

verus! {

// ── What the lines so far say ──────────────────────────────────────────────

/// A line that opens a file.
pub open spec fn opens_file(u: Seq<char>) -> bool {
    text::starts_with(u, "FILE "@)
}

/// A line that opens a track.
pub open spec fn opens_track(u: Seq<char>) -> bool {
    text::starts_with(u, "TRACK "@)
}

/// A line that opens a file or a track.
pub open spec fn opens(u: Seq<char>) -> bool {
    opens_file(u) || opens_track(u)
}

/// The lines as they are read: without the space around them, and in capitals.
pub open spec fn read_lines(ls: Seq<Seq<char>>) -> Seq<Seq<char>> {
    ls.map_values(|l: Seq<char>| unicode::capitals(text::trim(l)))
}

/// Some line opens a file.
pub open spec fn in_file(us: Seq<Seq<char>>) -> bool
    decreases us.len(),
{
    us.len() > 0 && (opens_file(us.last()) || in_file(us.drop_last()))
}

/// The last line that opens a file or a track opens a track.
pub open spec fn in_track(us: Seq<Seq<char>>) -> bool
    decreases us.len(),
{
    us.len() > 0 && !opens_file(us.last()) && (opens_track(us.last()) || in_track(us.drop_last()))
}

/// A line that begins with `w` stands behind the last one that opens a file or a track.
pub open spec fn since(us: Seq<Seq<char>>, w: Seq<char>) -> bool
    decreases us.len(),
{
    us.len() > 0 && !opens(us.last()) && (text::starts_with(us.last(), w) || since(us.drop_last(), w))
}

/// How many lines open a track.
pub open spec fn tracks(us: Seq<Seq<char>>) -> nat
    decreases us.len(),
{
    if us.len() == 0 {
        0
    } else {
        tracks(us.drop_last()) + if opens_track(us.last()) {
            1nat
        } else {
            0nat
        }
    }
}

/// The number of the last index behind the last line that opens a file or a track.
pub open spec fn latest_index(us: Seq<Seq<char>>) -> nat
    decreases us.len(),
{
    if us.len() == 0 || opens(us.last()) {
        0
    } else if text::starts_with(us.last(), "INDEX "@) {
        validation::number(us.last().skip(6))
    } else {
        latest_index(us.drop_last())
    }
}

/// The reader knows what the lines so far say.
pub open spec fn knows(s: CueState, us: Seq<Seq<char>>) -> bool {
    &&& s.file_opened == in_file(us)
    &&& s.track_opened == in_track(us)
    &&& s.index01_seen == since(us, "INDEX 01 "@)
    &&& s.gap_opened == (since(us, "INDEX 00 "@) && !since(us, "INDEX 01 "@))
    &&& s.last_index == (if since(us, "INDEX 01 "@) {
        latest_index(us)
    } else {
        0
    })
    &&& s.track_count == tracks(us)
    &&& s.wf()
}

proof fn lemma_prefix(u: Seq<char>, p: Seq<char>, i: int)
    requires
        text::starts_with(u, p),
        0 <= i < p.len(),
    ensures
        u[i] == p[i],
{
    assert(u.take(p.len() as int)[i] == u[i]);
}

/// The words that lines begin with tell the lines apart.
proof fn lemma_words(u: Seq<char>)
    ensures
        opens_file(u) ==> !opens_track(u) && !text::starts_with(u, "INDEX "@) && !text::starts_with(
            u,
            "CATALOG "@,
        ) && !text::starts_with(u, "FLAGS "@) && !text::starts_with(u, "ISRC "@) && !validation::is_remark(u) && u.len()
            > 0,
        opens_track(u) ==> !text::starts_with(u, "INDEX "@) && !text::starts_with(u, "CATALOG "@)
            && !text::starts_with(u, "FLAGS "@) && !text::starts_with(u, "ISRC "@) && !validation::is_remark(u) && u.len()
            > 0,
        text::starts_with(u, "INDEX "@) ==> !text::starts_with(u, "CATALOG "@) && !text::starts_with(u, "FLAGS "@)
            && !text::starts_with(u, "ISRC "@) && !validation::is_remark(u) && u.len() > 0,
        text::starts_with(u, "CATALOG "@) ==> !text::starts_with(u, "FLAGS "@) && !text::starts_with(u, "ISRC "@)
            && u.len() > 0,
        text::starts_with(u, "FLAGS "@) ==> !text::starts_with(u, "ISRC "@) && u.len() > 0,
        text::starts_with(u, "ISRC "@) ==> u.len() > 0,
        validation::is_file_line(u) ==> opens_file(u),
        validation::track_line(u) is Some ==> opens_track(u),
        validation::index_line(u) is Some ==> text::starts_with(u, "INDEX "@),
{
    reveal_strlit("FILE ");
    reveal_strlit("FILE \"");
    reveal_strlit("TRACK ");
    reveal_strlit("INDEX ");
    reveal_strlit("CATALOG ");
    reveal_strlit("FLAGS ");
    reveal_strlit("ISRC ");
    reveal_strlit("REM");
    reveal_strlit("PERFORMER");
    reveal_strlit("TITLE");
    reveal_strlit("SONGWRITER");
    assert forall|p: Seq<char>| #[trigger] text::starts_with(u, p) && p.len() > 1 implies u[0] == p[0]
        && u[1] == p[1] by {
        lemma_prefix(u, p, 0);
        lemma_prefix(u, p, 1);
    }
    if validation::is_file_line(u) {
        assert(u.take(5) =~= u.take(6).take(5));
        assert("FILE \""@.take(5) =~= "FILE "@);
    }
}

/// An index line begins with the two digits of its number.
proof fn lemma_marks(u: Seq<char>)
    requires
        validation::index_line(u) is Some,
    ensures
        text::starts_with(u, "INDEX 00 "@) == ((validation::index_line(u)->0).0 == 0),
        text::starts_with(u, "INDEX 01 "@) == ((validation::index_line(u)->0).0 == 1),
        (validation::index_line(u)->0).0 == validation::number(u.skip(6)),
        (validation::index_line(u)->0).0 <= 99,
{
    reveal_strlit("INDEX ");
    reveal_strlit("INDEX 00 ");
    reveal_strlit("INDEX 01 ");
    let rest = u.skip(6);
    let w = u.take(9);
    assert(u.take(6) =~= "INDEX "@);
    assert(w =~= "INDEX "@ + seq![rest[0], rest[1], rest[2]]);
    if (validation::index_line(u)->0).0 == 0 {
        assert(w =~= "INDEX 00 "@);
    }
    if (validation::index_line(u)->0).0 == 1 {
        assert(w =~= "INDEX 01 "@);
    }
    if text::starts_with(u, "INDEX 00 "@) {
        lemma_prefix(u, "INDEX 00 "@, 6);
        lemma_prefix(u, "INDEX 00 "@, 7);
    }
    if text::starts_with(u, "INDEX 01 "@) {
        lemma_prefix(u, "INDEX 01 "@, 6);
        lemma_prefix(u, "INDEX 01 "@, 7);
    }
}

proof fn lemma_mark_is_index(u: Seq<char>)
    ensures
        text::starts_with(u, "INDEX 00 "@) || text::starts_with(u, "INDEX 01 "@) ==> text::starts_with(
            u,
            "INDEX "@,
        ),
{
    reveal_strlit("INDEX ");
    reveal_strlit("INDEX 00 ");
    reveal_strlit("INDEX 01 ");
    assert("INDEX 00 "@.take(6) =~= "INDEX "@);
    assert("INDEX 01 "@.take(6) =~= "INDEX "@);
    if u.len() >= 9 {
        assert(u.take(9).take(6) =~= u.take(6));
    }
}

proof fn lemma_step(s: CueState, us: Seq<Seq<char>>, u: Seq<char>, row: nat)
    requires
        knows(s, us),
        validation::cue_line(s, u, row) is Ok,
    ensures
        knows(validation::cue_line(s, u, row)->Ok_0, us.push(u)),
{
    let all = us.push(u);
    assert(all.drop_last() =~= us);
    assert(all.last() == u);
    lemma_words(u);
    lemma_mark_is_index(u);
    if validation::index_line(u) is Some {
        lemma_marks(u);
    }
    if validation::track_line(u) is Some {
        assert(validation::number(u.skip(6)) <= 99);
    }
}

proof fn lemma_history(ls: Seq<Seq<char>>, row: nat)
    ensures
        validation::cue_lines(validation::cue_start(), ls, row) matches Ok(s) ==> knows(s, read_lines(ls)),
    decreases ls.len(),
{
    if ls.len() == 0 {
        assert(read_lines(ls).len() == 0);
    } else {
        let front = ls.drop_last();
        let one = seq![ls.last()];
        assert(front + one =~= ls);
        lemma_history(front, row);
        validation::law_cuesheet_reads_in_order(validation::cue_start(), front, one, row);
        if let Ok(s) = validation::cue_lines(validation::cue_start(), front, row) {
            assert(one.drop_first() =~= Seq::<Seq<char>>::empty());
            reveal_with_fuel(validation::cue_lines, 2);
            let u = unicode::capitals(text::trim(ls.last()));
            assert(read_lines(ls) =~= read_lines(front).push(u));
            if validation::cue_line(s, u, (row + front.len()) as nat) is Ok {
                lemma_step(s, read_lines(front), u, (row + front.len()) as nat);
            }
        }
    }
}

// ── Which line may follow ──────────────────────────────────────────────────

/// Seconds and frames that there are.
pub open spec fn is_time(ss: nat, ff: nat) -> bool {
    ss < 60 && ff < 75
}

/// Every word is a flag.
pub open spec fn only_flags(ws: Seq<Seq<char>>) -> bool {
    forall|i: int| 0 <= i < ws.len() ==> (#[trigger] ws[i] == "PRE"@ || ws[i] == "DCP"@)
}

/// Whether a line may follow the lines that have been read: a file once the one before has
/// a track that is complete; the next track in a file, once the one before is complete; the
/// catalogue number before every file; flags and codes in a track before its indexes; the
/// gap at the start of a track and at no other place; index 01 at the start of a track or
/// past its gap; and each further index behind the one before it.
pub open spec fn may_follow(us: Seq<Seq<char>>, u: Seq<char>) -> bool {
    let gap = since(us, "INDEX 00 "@);
    let begun = since(us, "INDEX 01 "@);
    if opens_file(u) {
        validation::is_file_line(u) && (in_file(us) ==> begun)
    } else if opens_track(u) {
        &&& validation::track_line(u) is Some
        &&& (validation::track_line(u)->0).0 == tracks(us) + 1
        &&& in_file(us)
        &&& in_track(us) ==> begun
    } else if text::starts_with(u, "CATALOG "@) {
        !in_file(us) && u.len() == 21 && text::all_digits(u.skip(8))
    } else if text::starts_with(u, "FLAGS "@) {
        in_file(us) && in_track(us) && !gap && !begun && only_flags(text::words(u.skip(6)))
    } else if text::starts_with(u, "ISRC "@) {
        in_file(us) && in_track(us) && !gap && !begun && u.len() == 17 && text::all_alnum(u.skip(5))
    } else if text::starts_with(u, "INDEX "@) {
        &&& in_file(us)
        &&& in_track(us)
        &&& validation::index_line(u) matches Some((n, mm, ss, ff)) && if n == 0 {
            mm == 0 && ss == 0 && ff == 0 && !gap && !begun
        } else if n == 1 && mm == 0 && ss == 0 && ff == 0 {
            gap ==> begun
        } else if n == 1 {
            gap && !begun && is_time(ss, ff)
        } else {
            begun && n == latest_index(us) + 1 && is_time(ss, ff)
        }
    } else {
        u.len() == 0 || text::starts_with(u, "REM"@) || text::starts_with(u, "PERFORMER"@) || text::starts_with(
            u,
            "TITLE"@,
        ) || text::starts_with(u, "SONGWRITER"@)
    }
}

proof fn lemma_bad_flag(ws: Seq<Seq<char>>)
    ensures
        validation::bad_flag(ws) is None == only_flags(ws),
    decreases ws.len(),
{
    if ws.len() > 0 {
        lemma_bad_flag(ws.drop_first());
        if only_flags(ws) {
            assert forall|i: int| 0 <= i < ws.drop_first().len() implies (#[trigger] ws.drop_first()[i]
                == "PRE"@ || ws.drop_first()[i] == "DCP"@) by {
                assert(ws[i + 1] == ws.drop_first()[i]);
            }
            assert(ws[0] == "PRE"@ || ws[0] == "DCP"@);
        }
        if validation::bad_flag(ws) is None {
            assert forall|i: int| 0 <= i < ws.len() implies (#[trigger] ws[i] == "PRE"@ || ws[i]
                == "DCP"@) by {
                if i > 0 {
                    assert(ws.drop_first()[i - 1] == ws[i]);
                }
            }
        }
    }
}

/// A cuesheet is accepted with one more line exactly if the line may follow those before
/// it.
pub proof fn law_accepted_line_by_line(ls: Seq<Seq<char>>, l: Seq<char>, row: nat)
    requires
        validation::cue_lines(validation::cue_start(), ls, row) is Ok,
    ensures
        validation::cue_lines(validation::cue_start(), ls.push(l), row) is Ok == may_follow(
            read_lines(ls),
            unicode::capitals(text::trim(l)),
        ),
{
    let u = unicode::capitals(text::trim(l));
    let us = read_lines(ls);
    let one = seq![l];
    assert(ls + one =~= ls.push(l));
    lemma_history(ls, row);
    validation::law_cuesheet_reads_in_order(validation::cue_start(), ls, one, row);
    assert(one.drop_first() =~= Seq::<Seq<char>>::empty());
    reveal_with_fuel(validation::cue_lines, 2);
    let s = validation::cue_lines(validation::cue_start(), ls, row)->Ok_0;
    let at = (row + ls.len()) as nat;
    assert(validation::cue_lines(validation::cue_start(), ls.push(l), row) is Ok == validation::cue_line(s, u, at) is Ok);
    lemma_words(u);
    lemma_bad_flag(text::words(u.skip(6)));
    reveal_strlit("CATALOG ");
    reveal_strlit("ISRC ");
    if validation::index_line(u) is Some {
        lemma_marks(u);
    }
}

/// A cuesheet is refused with every line behind a beginning that is refused.
pub proof fn law_refused_beginning(ls: Seq<Seq<char>>, k: int, row: nat)
    requires
        0 <= k <= ls.len(),
        validation::cue_lines(validation::cue_start(), ls, row) is Ok,
    ensures
        validation::cue_lines(validation::cue_start(), ls.take(k), row) is Ok,
{
    assert(ls =~= ls.take(k) + ls.skip(k));
    validation::law_cuesheet_reads_in_order(validation::cue_start(), ls.take(k), ls.skip(k), row);
}

// ── What stands between lines ──────────────────────────────────────────────

/// Every line of an accepted cuesheet may follow those before it.
pub proof fn law_accepted_lines_follow(ls: Seq<Seq<char>>, k: int, row: nat)
    requires
        0 <= k < ls.len(),
        validation::cue_lines(validation::cue_start(), ls, row) is Ok,
    ensures
        may_follow(read_lines(ls.take(k)), unicode::capitals(text::trim(ls[k]))),
{
    law_refused_beginning(ls, k, row);
    law_refused_beginning(ls, k + 1, row);
    assert(ls.take(k + 1) =~= ls.take(k).push(ls[k]));
    law_accepted_line_by_line(ls.take(k), ls[k], row);
}

proof fn lemma_since(us: Seq<Seq<char>>, w: Seq<char>, i: int)
    requires
        0 <= i < us.len(),
        opens(us[i]),
        since(us, w),
    ensures
        exists|k: int| i < k < us.len() && text::starts_with(#[trigger] us[k], w),
    decreases us.len(),
{
    if text::starts_with(us.last(), w) {
        assert(us[us.len() - 1] == us.last());
        if i == us.len() - 1 {
            assert(false);
        }
    } else {
        let front = us.drop_last();
        if i == us.len() - 1 {
            assert(false);
        }
        assert(front[i] == us[i]);
        lemma_since(front, w, i);
        let k = choose|k: int| i < k < front.len() && text::starts_with(#[trigger] front[k], w);
        assert(us[k] == front[k]);
    }
}

proof fn lemma_in_file(us: Seq<Seq<char>>)
    ensures
        in_file(us) == (exists|i: int| 0 <= i < us.len() && opens_file(#[trigger] us[i])),
    decreases us.len(),
{
    if us.len() > 0 {
        let front = us.drop_last();
        lemma_in_file(front);
        if in_file(front) {
            let i = choose|i: int| 0 <= i < front.len() && opens_file(#[trigger] front[i]);
            assert(us[i] == front[i]);
        }
        if opens_file(us.last()) {
            assert(us[us.len() - 1] == us.last());
        }
        if exists|i: int| 0 <= i < us.len() && opens_file(#[trigger] us[i]) {
            let i = choose|i: int| 0 <= i < us.len() && opens_file(#[trigger] us[i]);
            if i < front.len() {
                assert(front[i] == us[i]);
            }
        }
    }
}

proof fn lemma_in_track(us: Seq<Seq<char>>)
    ensures
        in_track(us) == (exists|i: int|
            0 <= i < us.len() && opens_track(#[trigger] us[i]) && forall|j: int|
                i < j < us.len() ==> !opens_file(#[trigger] us[j])),
    decreases us.len(),
{
    if us.len() > 0 {
        let front = us.drop_last();
        let n = us.len() - 1;
        lemma_in_track(front);
        lemma_words(us.last());
        assert(us[n] == us.last());
        if in_track(us) && !opens_track(us.last()) {
            let i = choose|i: int|
                0 <= i < front.len() && opens_track(#[trigger] front[i]) && forall|j: int|
                    i < j < front.len() ==> !opens_file(#[trigger] front[j]);
            assert(us[i] == front[i]);
            assert forall|j: int| i < j < us.len() implies !opens_file(#[trigger] us[j]) by {
                if j < n {
                    assert(front[j] == us[j]);
                }
            }
        }
        if exists|i: int|
            0 <= i < us.len() && opens_track(#[trigger] us[i]) && forall|j: int|
                i < j < us.len() ==> !opens_file(#[trigger] us[j]) {
            let i = choose|i: int|
                0 <= i < us.len() && opens_track(#[trigger] us[i]) && forall|j: int|
                    i < j < us.len() ==> !opens_file(#[trigger] us[j]);
            if i < n {
                assert(!opens_file(us[n]));
                assert(front[i] == us[i]);
                assert forall|j: int| i < j < front.len() implies !opens_file(
                    #[trigger] front[j],
                ) by {
                    assert(front[j] == us[j]);
                }
            }
        }
    }
}

proof fn lemma_track_after(us: Seq<Seq<char>>, i: int)
    requires
        0 <= i < us.len(),
        opens_track(us[i]),
        forall|j: int| i < j < us.len() ==> !opens_file(#[trigger] us[j]),
    ensures
        in_track(us),
{
    lemma_in_track(us);
}

/// In an accepted cuesheet an index 01 stands between a line that opens a track and the
/// next one that opens a track or a file.
pub proof fn law_tracks_are_complete(text: Seq<char>, i: int, j: int)
    requires
        validation::cuesheet(text) is Ok,
        0 <= i < j < text::lines(text::trim(text)).len(),
        opens_track(unicode::capitals(text::trim(text::lines(text::trim(text))[i]))),
        opens(unicode::capitals(text::trim(text::lines(text::trim(text))[j]))),
    ensures
        exists|k: int|
            i < k < j && text::starts_with(
                unicode::capitals(text::trim(#[trigger] text::lines(text::trim(text))[k])),
                "INDEX 01 "@,
            ),
{
    let ls = text::lines(text::trim(text));
    lemma_complete(ls, i, j);
}

proof fn lemma_complete(ls: Seq<Seq<char>>, i: int, j: int)
    requires
        validation::cue_lines(validation::cue_start(), ls, 1) is Ok,
        0 <= i < j < ls.len(),
        opens_track(unicode::capitals(text::trim(ls[i]))),
        opens(unicode::capitals(text::trim(ls[j]))),
    ensures
        exists|k: int| i < k < j && text::starts_with(unicode::capitals(text::trim(#[trigger] ls[k])), "INDEX 01 "@),
    decreases j,
{
    if exists|m: int| i < m < j && opens(unicode::capitals(text::trim(#[trigger] ls[m]))) {
        let m = choose|m: int| i < m < j && opens(unicode::capitals(text::trim(#[trigger] ls[m])));
        lemma_complete(ls, i, m);
    } else {
        law_accepted_lines_follow(ls, j, 1);
        let us = read_lines(ls.take(j));
        let u = unicode::capitals(text::trim(ls[j]));
        assert(us[i] == unicode::capitals(text::trim(ls[i])));
        assert forall|m: int| i < m < us.len() implies !opens_file(#[trigger] us[m]) by {
            assert(us[m] == unicode::capitals(text::trim(ls[m])));
        }
        lemma_track_after(us, i);
        lemma_words(u);
        if opens_file(u) {
            law_refused_beginning(ls, i, 1);
            law_accepted_lines_follow(ls, i, 1);
            let before = read_lines(ls.take(i));
            lemma_words(us[i]);
            lemma_in_file(before);
            let f = choose|f: int| 0 <= f < before.len() && opens_file(#[trigger] before[f]);
            assert(us[f] == before[f]);
            lemma_in_file(us);
        }
        lemma_since(us, "INDEX 01 "@, i);
        let k = choose|k: int| i < k < us.len() && text::starts_with(#[trigger] us[k], "INDEX 01 "@);
        assert(us[k] == unicode::capitals(text::trim(ls[k])));
    }
}

/// In an accepted cuesheet a line that opens a track stands in a file, and its number is
/// one more than that of the tracks before it.
pub proof fn law_tracks_are_numbered(text: Seq<char>, j: int)
    requires
        validation::cuesheet(text) is Ok,
        0 <= j < text::lines(text::trim(text)).len(),
        opens_track(unicode::capitals(text::trim(text::lines(text::trim(text))[j]))),
    ensures
        exists|f: int|
            0 <= f < j && opens_file(unicode::capitals(text::trim(#[trigger] text::lines(text::trim(text))[f]))),
        validation::number(unicode::capitals(text::trim(text::lines(text::trim(text))[j])).skip(6)) == tracks(
            read_lines(text::lines(text::trim(text)).take(j)),
        ) + 1,
{
    let ls = text::lines(text::trim(text));
    law_accepted_lines_follow(ls, j, 1);
    let us = read_lines(ls.take(j));
    lemma_words(unicode::capitals(text::trim(ls[j])));
    lemma_in_file(us);
    let f = choose|f: int| 0 <= f < us.len() && opens_file(#[trigger] us[f]);
    assert(us[f] == unicode::capitals(text::trim(ls[f])));
}

/// In an accepted cuesheet an index, a flag or a code stands in a track: behind a line that
/// opens one, with none between them that opens a file.
pub proof fn law_indexes_stand_in_tracks(text: Seq<char>, j: int)
    requires
        validation::cuesheet(text) is Ok,
        0 <= j < text::lines(text::trim(text)).len(),
        ({
            let u = unicode::capitals(text::trim(text::lines(text::trim(text))[j]));
            text::starts_with(u, "INDEX "@) || text::starts_with(u, "FLAGS "@) || text::starts_with(u, "ISRC "@)
        }),
    ensures
        exists|t: int|
            0 <= t < j && opens_track(unicode::capitals(text::trim(#[trigger] text::lines(text::trim(text))[t]))) && forall|
                f: int,
            |
                t < f < j ==> !opens_file(unicode::capitals(text::trim(#[trigger] text::lines(text::trim(text))[f]))),
{
    let ls = text::lines(text::trim(text));
    law_accepted_lines_follow(ls, j, 1);
    let us = read_lines(ls.take(j));
    lemma_words(unicode::capitals(text::trim(ls[j])));
    lemma_in_track(us);
    let t = choose|t: int|
        0 <= t < us.len() && opens_track(#[trigger] us[t]) && forall|f: int|
            t < f < us.len() ==> !opens_file(#[trigger] us[f]);
    assert(us[t] == unicode::capitals(text::trim(ls[t])));
    assert forall|f: int| t < f < j implies !opens_file(unicode::capitals(text::trim(#[trigger] ls[f]))) by {
        assert(us[f] == unicode::capitals(text::trim(ls[f])));
    }
}

// ── What the lines say ─────────────────────────────────────────────────────

/// The line of a track is read as its number and its mode.
pub proof fn law_track_lines_read_back(n: nat, mode: Seq<char>)
    requires
        n <= 99,
    ensures
        mode == "MODE1/2352"@ || mode == "MODE2/2352"@ || mode == "AUDIO"@ ==> validation::track_line(
            "TRACK "@ + numbers::two_digits(n) + " "@ + mode,
        ) == Some((n, mode)),
        !(mode == "MODE1/2352"@ || mode == "MODE2/2352"@ || mode == "AUDIO"@) ==> validation::track_line(
            "TRACK "@ + numbers::two_digits(n) + " "@ + mode,
        ) is None,
{
    lemma_two_digits(n);
    reveal_strlit("TRACK ");
    reveal_strlit(" ");
    let u = "TRACK "@ + numbers::two_digits(n) + " "@ + mode;
    assert(u.take(6) =~= "TRACK "@);
    assert(u.skip(6)[0] == numbers::two_digits(n)[0]);
    assert(u.skip(6)[1] == numbers::two_digits(n)[1]);
    assert(u.skip(6)[2] == ' ');
    assert(u.skip(6).skip(3) =~= mode);
}

proof fn lemma_two_digits(n: nat)
    requires
        n <= 99,
    ensures
        numbers::two_digits(n).len() == 2,
        text::is_digit(numbers::two_digits(n)[0]),
        text::is_digit(numbers::two_digits(n)[1]),
        validation::number(numbers::two_digits(n)) == n,
{
    reveal_with_fuel(numbers::nat_text, 3);
    reveal_strlit("0");
    if n < 10 {
        assert(numbers::nat_text(n).len() == 1);
    } else {
        assert(numbers::nat_text(n).len() == 2);
    }
}

/// The line of an index is read as its number, minutes, seconds and frames, in that order.
pub proof fn law_index_lines_read_back(n: nat, mm: nat, ss: nat, ff: nat)
    requires
        n <= 99,
        mm <= 99,
        ss <= 99,
        ff <= 99,
    ensures
        validation::index_line(
            "INDEX "@ + numbers::two_digits(n) + " "@ + numbers::two_digits(mm) + ":"@ + numbers::two_digits(ss) + ":"@
                + numbers::two_digits(ff),
        ) == Some((n, mm, ss, ff)),
{
    lemma_two_digits(n);
    lemma_two_digits(mm);
    lemma_two_digits(ss);
    lemma_two_digits(ff);
    reveal_strlit("INDEX ");
    reveal_strlit(" ");
    reveal_strlit(":");
    let time = numbers::two_digits(mm) + ":"@ + numbers::two_digits(ss) + ":"@ + numbers::two_digits(ff);
    let u = "INDEX "@ + numbers::two_digits(n) + " "@ + numbers::two_digits(mm) + ":"@ + numbers::two_digits(ss) + ":"@
        + numbers::two_digits(ff);
    assert(u.take(6) =~= "INDEX "@);
    let rest = u.skip(6);
    assert(rest[0] == numbers::two_digits(n)[0]);
    assert(rest[1] == numbers::two_digits(n)[1]);
    assert(rest[2] == ' ');
    assert(rest.skip(3) =~= time);
    let tail = numbers::two_digits(ss) + ":"@ + numbers::two_digits(ff);
    text::lemma_index_from(time, ':', 0);
    assert(time[0] == numbers::two_digits(mm)[0]);
    assert(time[1] == numbers::two_digits(mm)[1]);
    assert(time[2] == ':');
    assert(text::index_from(time, ':', 0) == 2);
    assert(time.take(2) =~= numbers::two_digits(mm));
    assert(time.skip(3) =~= tail);
    text::lemma_index_from(tail, ':', 0);
    assert(tail[0] == numbers::two_digits(ss)[0]);
    assert(tail[1] == numbers::two_digits(ss)[1]);
    assert(tail[2] == ':');
    assert(text::index_from(tail, ':', 0) == 2);
    assert(tail.take(2) =~= numbers::two_digits(ss));
    assert(tail.skip(3) =~= numbers::two_digits(ff));
    text::lemma_index_from(numbers::two_digits(ff), ':', 0);
    assert(text::index_from(numbers::two_digits(ff), ':', 0) == 2);
    assert(text::split(numbers::two_digits(ff), ':') =~= seq![numbers::two_digits(ff)]);
    assert(text::split(tail, ':') =~= seq![numbers::two_digits(ss)] + seq![numbers::two_digits(ff)]);
    assert(text::split(time, ':') =~= seq![numbers::two_digits(mm)] + (seq![numbers::two_digits(ss)] + seq![
        numbers::two_digits(ff),
    ]));
    let parts = text::split(time, ':');
    assert(parts[0] == numbers::two_digits(mm));
    assert(parts[1] == numbers::two_digits(ss));
    assert(parts[2] == numbers::two_digits(ff));
    assert(validation::number(rest) == validation::number(numbers::two_digits(n)));
}

/// The line of a file holds a name in quotes and one of two kinds.
pub proof fn law_file_lines_read_back(name: Seq<char>, kind: Seq<char>)
    requires
        forall|i: int| 0 <= i < name.len() ==> #[trigger] name[i] != '"',
    ensures
        validation::is_file_line("FILE \""@ + name + "\""@ + kind) == (kind == " BINARY"@ || kind
            == " WAVE"@),
{
    reveal_strlit("FILE \"");
    reveal_strlit("\"");
    let u = "FILE \""@ + name + "\""@ + kind;
    assert(u.take(6) =~= "FILE \""@);
    let rest = u.skip(6);
    assert(rest =~= name + "\""@ + kind);
    text::lemma_index_from(rest, '"', 0);
    let q = text::index_from(rest, '"', 0);
    let n = name.len() as int;
    assert(rest[n] == '"');
    if q < n {
        assert(rest[q] == name[q]);
    }
    assert(q == n);
    assert(rest.skip(q + 1) =~= kind);
}

} // verus!
