//! How discs, systems and files are called.

use vstd::prelude::*;

use crate::clock::{self, Moment};
use crate::json::{self, JsonView};
use crate::models::{File, System};
use crate::naming;
use crate::order;
use crate::services::approval::{self, NameCandidate};
use crate::services::archive_service::{self, ArchiveDisc, DatfileEntry};
use crate::services::cue_rebuild::CueRebuildDisc;
use crate::services::database_export_service;
use crate::services::disc_match;
use crate::services::disc_service;
use crate::services::disc_snapshot;
use crate::services::dump_text;
use crate::services::hex_dump;
use crate::text;

verus! {

// ── Discs ──────────────────────────────────────────────────────────────────

/// A disc is called the same wherever it is named: in the DAT, in the archives, in its
/// cuesheet, among the discs that a submission is held against, and as a submission.
pub proof fn law_one_disc_has_one_name(
    e: DatfileEntry,
    d: ArchiveDisc,
    r: CueRebuildDisc,
    c: NameCandidate,
    effective: JsonView,
    ext: Seq<char>,
    number: Seq<char>,
    disc_title: Seq<char>,
    suffix: Seq<char>,
)
    requires
        d.title@ == e.disc.title@ && r.title@ == e.disc.title@ && c.title@ == e.disc.title@,
        json::field(effective, "title"@) == JsonView::Str(e.disc.title@),
        text::trim(e.disc.title@) == e.disc.title@,
        text::texts(d.region_names@) == text::texts(e.region_names@),
        text::texts(r.region_names@) == text::texts(e.region_names@),
        text::texts(c.region_names@) == text::texts(e.region_names@),
        text::texts(d.language_codes@) == text::texts(e.language_codes@),
        text::texts(r.language_codes@) == text::texts(e.language_codes@),
        text::texts(c.language_codes@) == text::texts(e.language_codes@),
        number.len() > 0 && text::trim(number) == number,
        disc_title.len() > 0 && text::trim(disc_title) == disc_title,
        suffix.len() > 0 && text::trim(suffix) == suffix,
        text::opt_text(e.disc.disc_number) == Some(number),
        text::opt_text(d.disc_number) == Some(number),
        text::opt_text(r.disc_number) == Some(number),
        text::opt_text(c.disc_number) == Some(number),
        json::field(effective, "disc_number"@) == JsonView::Str(number),
        text::opt_text(e.disc.disc_title) == Some(disc_title),
        text::opt_text(d.disc_title) == Some(disc_title),
        text::opt_text(r.disc_title) == Some(disc_title),
        text::opt_text(c.disc_title) == Some(disc_title),
        json::field(effective, "disc_title"@) == JsonView::Str(disc_title),
        text::opt_text(e.disc.filename_suffix) == Some(suffix),
        text::opt_text(d.filename_suffix) == Some(suffix),
        text::opt_text(r.filename_suffix) == Some(suffix),
        text::opt_text(c.filename_suffix) == Some(suffix),
        json::field(effective, "filename_suffix"@) == JsonView::Str(suffix),
    ensures
        archive_service::disc_file(d, ext).0 == archive_service::game_name(e) + ext,
        approval::candidate_name(c) == archive_service::game_name(e),
        approval::proposed_name(effective, text::texts(e.region_names@), text::texts(e.language_codes@)) == archive_service::game_name(e),
        r.finished() == hex_dump::expand_newlines(
            text::unix_newlines(naming::renamed_cue(r.cue@, Some(archive_service::game_name(e)), r.rom_extension@)),
        ),
{
}

/// A disc of a title, a region and two languages is called by them, in this order, and then by
/// its number, its own title and its suffix.
pub proof fn law_name_of_a_disc(
    e: DatfileEntry,
    region: Seq<char>,
    first: Seq<char>,
    second: Seq<char>,
    number: Seq<char>,
    disc_title: Seq<char>,
    suffix: Seq<char>,
)
    requires
        text::texts(e.region_names@) == seq![region],
        text::texts(e.language_codes@) == seq![first, second],
        text::opt_text(e.disc.disc_number) == Some(number),
        text::opt_text(e.disc.disc_title) == Some(disc_title),
        text::opt_text(e.disc.filename_suffix) == Some(suffix),
    ensures
        archive_service::game_name(e) == e.disc.title@ + naming::bracketed(region) + naming::bracketed(
            naming::language_tag(first) + ","@ + naming::language_tag(second),
        ) + naming::bracketed("Disc "@ + number) + naming::bracketed(disc_title) + naming::bracketed(suffix),
{
    let tags = seq![first, second].map_values(|l: Seq<char>| naming::language_tag(l));
    reveal_with_fuel(text::join, 3);
    assert(tags.drop_last() =~= seq![naming::language_tag(first)]);
    assert(tags.last() == naming::language_tag(second));
    assert(seq![region].last() == region);
    assert(text::join(seq![region], ", "@) =~= region);
    assert(text::join(tags, ","@) =~= naming::language_tag(first) + ","@ + naming::language_tag(second));
    assert(Seq::<char>::empty() + disc_title =~= disc_title);
    assert(Seq::<char>::empty() + suffix =~= suffix);
}

/// The tracks of a disc are counted the same way for its DAT and for its track list, and a
/// disc of which every file is a track has as many tracks as files.
pub proof fn law_tracks_are_counted(files: Seq<File>)
    ensures
        archive_service::tracks_among(files) == disc_snapshot::track_count(files),
        archive_service::tracks_among(files) <= files.len(),
        (forall|i: int| 0 <= i < files.len() ==> (#[trigger] files[i]).track_number is Some)
            ==> archive_service::tracks_among(files) == files.len(),
        (forall|i: int| 0 <= i < files.len() ==> (#[trigger] files[i]).track_number is None)
            ==> archive_service::tracks_among(files) == 0,
    decreases files.len(),
{
    if files.len() > 0 {
        let front = files.drop_last();
        law_tracks_are_counted(front);
        assert(files[files.len() - 1] == files.last());
        assert forall|i: int| 0 <= i < front.len() implies #[trigger] front[i] == files[i] by {}
    }
}

/// Of files that are matched in order, those without a number come first, and the others in
/// the order of their numbers.
pub proof fn law_order_of_tracks(
    a: crate::services::disc_update::FileView,
    b: crate::services::disc_update::FileView,
)
    ensures
        disc_match::track_value(a.track_number) is None && disc_match::track_value(b.track_number) is Some ==> order::key_less(
            disc_match::track_key(a),
            disc_match::track_key(b),
        ),
        disc_match::track_value(a.track_number) matches Some(m) && (disc_match::track_value(b.track_number) matches Some(n)
            && m < n) ==> order::key_less(disc_match::track_key(a), disc_match::track_key(b)),
{
}

/// A universal hash is read back from its digits exactly if it has twenty bytes.
pub proof fn law_universal_hashes_read_back(data: Seq<u8>)
    ensures
        data.len() == 20 ==> disc_match::matching_hash(Some(dump_text::hex_text(data))) == Some(data),
        data.len() != 20 ==> disc_match::matching_hash(Some(dump_text::hex_text(data))) is None,
        disc_match::matching_hash(None) is None,
{
    dump_text::law_hex_text_reads_back(data);
    let t = dump_text::hex_text(data);
    if data.len() > 0 {
        assert(text::is_hex(t[0]) && text::is_hex(t[t.len() - 1]));
        assert(text::trim(t) == t);
    } else {
        assert(t.len() == 0);
        assert(text::trim(t).len() == 0);
    }
}

// ── Systems ────────────────────────────────────────────────────────────────

/// The archives of a system are called by its manufacturer and its name.
pub proof fn law_systems_in_archives(s: System)
    ensures
        text::ends_with(archive_service::archive_system_name(s), s.name@),
        text::starts_with(archive_service::archive_system_name(s), s.manufacturer@),
        s.manufacturer@.len() == 0 ==> archive_service::archive_system_name(s) == s.name@,
        s.manufacturer@.len() > 0 ==> archive_service::archive_system_name(s).len() == s.manufacturer@.len() + 3
            + s.name@.len(),
{
    reveal_strlit(" - ");
    let f = archive_service::archive_system_name(s);
    let n = s.name@;
    let m = s.manufacturer@;
    assert(f.skip(f.len() - n.len()) =~= n);
    assert(f.take(m.len() as int) =~= m);
}

// ── Files ──────────────────────────────────────────────────────────────────

/// A name with the extension of an archive is that of an archive; the extension alone is not.
pub proof fn law_names_of_archives(name: Seq<char>)
    ensures
        name.len() > 0 ==> archive_service::is_zip_name(name + ".zip"@),
        !archive_service::is_zip_name(".zip"@),
{
    reveal_strlit(".zip");
    let s = name + ".zip"@;
    assert(s.skip(s.len() - 4) =~= ".zip"@);
}

/// What is left of an export that was not finished is told by its name, which is not that of
/// an export.
pub proof fn law_unfinished_exports(seconds: int, name: Seq<char>)
    ensures
        database_export_service::is_partial("."@ + database_export_service::export_name(seconds) + ".partial"@),
        database_export_service::is_partial(name) ==> database_export_service::export_moment(name) is None,
{
    let p = crate::services::database_export_service::EXPORT_PREFIX@;
    reveal_strlit(".");
    reveal_strlit(".partial");
    reveal_strlit("redump-discs-");
    let n = "."@ + database_export_service::export_name(seconds) + ".partial"@;
    let front = "."@ + p;
    assert(n.take(front.len() as int) =~= front);
    assert(n.skip(n.len() - ".partial"@.len()) =~= ".partial"@);
    if database_export_service::is_partial(name) {
        assert(name.take(front.len() as int)[0] == '.');
        assert(name[0] == '.');
        if text::starts_with(name, p) {
            assert(name.take(p.len() as int)[0] == 'r');
        }
    }
}

/// An export says when it was made, where it comes from, and which discs it holds.
pub proof fn law_exports_say_what_they_are(now: Moment, source_url: Seq<char>)
    ensures
        database_export_service::metadata(now, source_url).contains(("source_url"@, source_url)),
        database_export_service::metadata(now, source_url).contains(("generated_at_utc"@, clock::moment_text(now))),
        database_export_service::metadata(now, source_url).contains(
            ("included_statuses"@, "Questionable,Unverified,Verified"@),
        ),
{
    let m = database_export_service::metadata(now, source_url);
    assert(m[1] == ("generated_at_utc"@, clock::moment_text(now)));
    assert(m[2] == ("source_url"@, source_url));
    assert(m[3] == ("included_statuses"@, "Questionable,Unverified,Verified"@));
}

/// Texts of which the blank ones are left out are the items of a list.
pub proof fn law_texts_without_blanks(v: Seq<Seq<char>>)
    ensures
        approval::trimmed_nonblank(v) == disc_service::filled_parts(v),
    decreases v.len(),
{
    if v.len() > 0 {
        law_texts_without_blanks(v.drop_last());
    }
}

} // verus!
