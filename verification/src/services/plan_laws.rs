//! What complaints, sessions and rebuilds come to.

use vstd::prelude::*;

use crate::json::{self, JsonView};
use crate::models;
use crate::numbers;
use crate::services::cue_rebuild::{self, CueRebuildDisc, FinishedCue, WriteView};
use crate::services::cue_sessions;
use crate::services::ring_offsets;
use crate::services::validation;
use crate::text;

verus! {

// ── Complaints about pressings ─────────────────────────────────────────────

/// A number that can be stored: none, or one that can be read.
pub open spec fn can_be_read(entry: JsonView, key: Seq<char>) -> bool {
    match json::field(entry, key) {
        JsonView::Str(s) => text::trim(s).len() == 0 || numbers::i32_value(text::trim(s)) is Some,
        _ => true,
    }
}

/// The three numbers of a pressing can be stored.
pub open spec fn numbers_can_be_read(entry: JsonView) -> bool {
    can_be_read(entry, "offset_value"@) && can_be_read(entry, "offset_extra_value"@) && can_be_read(
        entry,
        "sample_start"@,
    )
}

proof fn lemma_number_complaint(entry: JsonView, key: Seq<char>, label: Seq<char>)
    ensures
        ring_offsets::number_complaint(entry, key, label).len() == 0 <==> can_be_read(entry, key),
{
    if let JsonView::Str(s) = json::field(entry, key) {
        text::lemma_trim_idempotent(s);
    }
}

/// Pressings are complained of exactly if one of their numbers cannot be stored.
pub proof fn law_complaints_are_about_numbers(entries: Seq<JsonView>)
    ensures
        ring_offsets::ring_complaints(entries).len() == 0 <==> forall|i: int|
            0 <= i < entries.len() ==> numbers_can_be_read(#[trigger] entries[i]),
    decreases entries.len(),
{
    if entries.len() > 0 {
        let front = entries.drop_last();
        let e = entries.last();
        law_complaints_are_about_numbers(front);
        lemma_number_complaint(e, "offset_value"@, ring_offsets::ring_label(entries.len(), "Offset"@));
        lemma_number_complaint(
            e,
            "offset_extra_value"@,
            ring_offsets::ring_label(entries.len(), "Extra Offset"@),
        );
        lemma_number_complaint(e, "sample_start"@, ring_offsets::ring_label(entries.len(), "Sample Start"@));
        assert forall|i: int| 0 <= i < front.len() implies #[trigger] front[i] == entries[i] by {}
        assert(entries[entries.len() - 1] == e);
        if forall|i: int| 0 <= i < entries.len() ==> numbers_can_be_read(#[trigger] entries[i]) {
            assert forall|i: int| 0 <= i < front.len() implies numbers_can_be_read(
                #[trigger] front[i],
            ) by {
                assert(numbers_can_be_read(entries[i]));
            }
        }
        if ring_offsets::ring_complaints(entries).len() == 0 {
            assert forall|i: int| 0 <= i < entries.len() implies numbers_can_be_read(
                #[trigger] entries[i],
            ) by {
                if i < front.len() {
                    assert(numbers_can_be_read(front[i]));
                }
            }
        }
    }
}

// ── Sessions ───────────────────────────────────────────────────────────────

/// The last line that begins a session begins another one than the first.
pub open spec fn in_later_session(ls: Seq<Seq<char>>) -> bool
    decreases ls.len(),
{
    if ls.len() == 0 {
        false
    } else {
        let u = text::upper_text(text::trim(ls.last()));
        if text::starts_with(u, "REM SESSION "@) {
            text::trim(u.skip(12)) != "01"@
        } else {
            in_later_session(ls.drop_last())
        }
    }
}

/// A line of a track of audio.
pub open spec fn opens_audio(line: Seq<char>) -> bool {
    validation::track_line(text::upper_text(text::trim(line))) matches Some(t) && t.1 == "AUDIO"@
}

/// A line of a track of data.
pub open spec fn opens_data(line: Seq<char>) -> bool {
    validation::track_line(text::upper_text(text::trim(line))) matches Some(t) && t.1 != "AUDIO"@
}

/// Some line is of a track of a kind, in the first session or in a later one.
pub open spec fn has_track(ls: Seq<Seq<char>>, audio: bool, later: bool) -> bool {
    exists|i: int|
        {
            &&& 0 <= i < ls.len()
            &&& if audio {
                opens_audio(#[trigger] ls[i])
            } else {
                opens_data(ls[i])
            }
            &&& in_later_session(ls.take(i)) == later
        }
}

proof fn lemma_has_track(ls: Seq<Seq<char>>, audio: bool, later: bool)
    requires
        ls.len() > 0,
    ensures
        has_track(ls, audio, later) <==> has_track(ls.drop_last(), audio, later) || ((if audio {
            opens_audio(ls.last())
        } else {
            opens_data(ls.last())
        }) && in_later_session(ls.drop_last()) == later),
{
    let front = ls.drop_last();
    let n = ls.len() - 1;
    assert(ls.take(n) =~= front);
    assert(ls[n] == ls.last());
    if has_track(front, audio, later) {
        let i = choose|i: int|
            {
                &&& 0 <= i < front.len()
                &&& if audio {
                    opens_audio(#[trigger] front[i])
                } else {
                    opens_data(front[i])
                }
                &&& in_later_session(front.take(i)) == later
            };
        assert(front.take(i) =~= ls.take(i));
        assert(ls[i] == front[i]);
    }
    if has_track(ls, audio, later) {
        let i = choose|i: int|
            {
                &&& 0 <= i < ls.len()
                &&& if audio {
                    opens_audio(#[trigger] ls[i])
                } else {
                    opens_data(ls[i])
                }
                &&& in_later_session(ls.take(i)) == later
            };
        if i < n {
            assert(front.take(i) =~= ls.take(i));
            assert(front[i] == ls[i]);
        }
    }
}

proof fn lemma_sessions(ls: Seq<Seq<char>>)
    ensures
        cue_sessions::sessions(ls).later == in_later_session(ls),
        cue_sessions::sessions(ls).first_audio == has_track(ls, true, false),
        cue_sessions::sessions(ls).first_data == has_track(ls, false, false),
        cue_sessions::sessions(ls).later_audio == has_track(ls, true, true),
        cue_sessions::sessions(ls).later_data == has_track(ls, false, true),
    decreases ls.len(),
{
    if ls.len() > 0 {
        lemma_sessions(ls.drop_last());
        lemma_has_track(ls, true, false);
        lemma_has_track(ls, false, false);
        lemma_has_track(ls, true, true);
        lemma_has_track(ls, false, true);
        reveal_strlit("REM SESSION ");
        reveal_strlit("TRACK ");
        let u = text::upper_text(text::trim(ls.last()));
        if text::starts_with(u, "REM SESSION "@) && text::starts_with(u, "TRACK "@) {
            assert(u.take(12)[0] == u[0]);
            assert(u.take(6)[0] == u[0]);
        }
    }
}

/// A disc is an enhanced one exactly if its first session has tracks of audio and none of
/// data, and a later session has one of data.
pub proof fn law_enhanced_discs(text: Seq<char>)
    ensures
        cue_sessions::is_enhanced(text) <==> has_track(text::lines(text), true, false) && !has_track(
            text::lines(text),
            false,
            false,
        ) && has_track(text::lines(text), false, true),
{
    lemma_sessions(text::lines(text));
}

/// A disc is one of audio exactly if it has a track and every track is of audio.
pub proof fn law_audio_discs(text: Seq<char>)
    ensures
        cue_sessions::is_audio_only(text) <==> (exists|i: int|
            0 <= i < text::lines(text).len() && opens_audio(#[trigger] text::lines(text)[i])) && (forall|i: int|
            0 <= i < text::lines(text).len() ==> !opens_data(#[trigger] text::lines(text)[i])),
{
    let ls = text::lines(text);
    lemma_sessions(ls);
    if exists|i: int| 0 <= i < ls.len() && opens_audio(#[trigger] ls[i]) {
        let i = choose|i: int| 0 <= i < ls.len() && opens_audio(#[trigger] ls[i]);
        assert(has_track(ls, true, in_later_session(ls.take(i))));
    }
    assert forall|i: int| 0 <= i < ls.len() && opens_data(#[trigger] ls[i]) implies has_track(
        ls,
        false,
        false,
    ) || has_track(ls, false, true) by {
        assert(has_track(ls, false, in_later_session(ls.take(i))));
    }
}

// ── Rebuilding cuesheets ───────────────────────────────────────────────────

/// What a rebuild writes: the cuesheet of a disc that uses one and whose text is not as it
/// should be, the entry of one whose size and hashes are not, and it deletes the entry of a
/// disc that does not use one.
pub proof fn law_rebuild_writes_what_differs(
    discs: Seq<CueRebuildDisc>,
    cues: Seq<FinishedCue>,
    i: int,
)
    requires
        discs.len() == cues.len(),
        0 <= i < discs.len(),
    ensures
        ({
            let d = discs[i];
            let c = cues[i];
            let r = cue_rebuild::rebuild(discs, cues);
            let active = models::cue_is_active(
                d.system_media_types@,
                d.media_type_code@,
                d.rom_extension@,
            );
            &&& active && c.text@ != d.cue@ ==> r.updates.contains((d.id, c.text@))
            &&& active && (d.cue_file_size != Some(c.size) || text::opt_text(d.cue_file_crc32) != Some(
                c.crc32@,
            ) || text::opt_text(d.cue_file_md5) != Some(c.md5@) || text::opt_text(d.cue_file_sha1) != Some(
                c.sha1@,
            )) ==> r.upserts.contains(
                (WriteView {
                    disc_id: d.id,
                    size: c.size as int,
                    crc32: c.crc32@,
                    md5: c.md5@,
                    sha1: c.sha1@,
                }),
            )
            &&& !active && d.cue_file_size is Some ==> r.deletes.contains(d.id)
        }),
    decreases discs.len(),
{
    let r = cue_rebuild::rebuild(discs, cues);
    let df = discs.drop_last();
    let cf = cues.drop_last();
    let before = cue_rebuild::rebuild(df, cf);
    assert(r.updates.len() >= before.updates.len() && forall|k: int|
        0 <= k < before.updates.len() ==> #[trigger] r.updates[k] == before.updates[k]);
    assert(r.upserts.len() >= before.upserts.len() && forall|k: int|
        0 <= k < before.upserts.len() ==> #[trigger] r.upserts[k] == before.upserts[k]);
    assert(r.deletes.len() >= before.deletes.len() && forall|k: int|
        0 <= k < before.deletes.len() ==> #[trigger] r.deletes[k] == before.deletes[k]);
    if i < df.len() {
        law_rebuild_writes_what_differs(df, cf, i);
        let d = discs[i];
        let c = cues[i];
        let w = WriteView {
            disc_id: d.id,
            size: c.size as int,
            crc32: c.crc32@,
            md5: c.md5@,
            sha1: c.sha1@,
        };
        if before.updates.contains((d.id, c.text@)) {
            let k = choose|k: int|
                0 <= k < before.updates.len() && before.updates[k] == (d.id, c.text@);
            assert(r.updates[k] == (d.id, c.text@));
        }
        if before.upserts.contains(w) {
            let k = choose|k: int| 0 <= k < before.upserts.len() && before.upserts[k] == w;
            assert(r.upserts[k] == w);
        }
        if before.deletes.contains(d.id) {
            let k = choose|k: int| 0 <= k < before.deletes.len() && before.deletes[k] == d.id;
            assert(r.deletes[k] == d.id);
        }
    } else {
        let d = discs.last();
        let c = cues.last();
        if d.is_active() {
            if c.text@ != d.cue@ {
                assert(r.updates.last() == (d.id, c.text@));
            }
            if !d.entry_is(c.size as int, c.crc32@, c.md5@, c.sha1@) {
                assert(r.upserts.last().disc_id == d.id);
            }
        } else if d.cue_file_size is Some {
            assert(r.deletes.last() == d.id);
        }
    }
}

} // verus!
