//! Bringing the stored cuesheets and their file entries up to date.

use vstd::prelude::*;

use crate::models::{self, Disc, System, is_cd_rom_extension, is_listed};
use crate::naming::{self, build_rom_base_name, finalize_cue};
use crate::services::hex_dump::{self, to_crlf_newlines};
use crate::text::{self, str_eq};

verus! {

/// As many rows as are written at once.
pub const CUE_REBUILD_WRITE_CHUNK_SIZE: usize = 500;

/// What a rebuild did.
#[derive(Clone, Copy, Debug, PartialEq, Eq, Structural)]
pub struct CueRebuildSummary {
    pub total: usize,
    pub active: usize,
    pub updated_cues: usize,
    pub upserted_file_entries: usize,
    pub deleted_file_entries: usize,
    pub skipped: usize,
}

/// A disc with a cuesheet, and the file entry of the cuesheet.
#[derive(Debug)]
pub struct CueRebuildDisc {
    pub id: i32,
    pub title: String,
    pub disc_number: Option<String>,
    pub disc_title: Option<String>,
    pub filename_suffix: Option<String>,
    pub cue: String,
    pub media_type_code: String,
    pub rom_extension: String,
    pub system_media_types: Vec<String>,
    pub region_names: Vec<String>,
    pub language_codes: Vec<String>,
    pub cue_file_size: Option<i64>,
    pub cue_file_crc32: Option<String>,
    pub cue_file_md5: Option<String>,
    pub cue_file_sha1: Option<String>,
}

/// A cuesheet as it should be, with its size and its hashes.
#[derive(Debug)]
pub struct FinishedCue {
    pub text: String,
    pub size: i64,
    pub crc32: String,
    pub md5: String,
    pub sha1: String,
}

/// A file entry that is written.
#[derive(Debug)]
pub struct CueFileWrite {
    pub disc_id: i32,
    pub size: i64,
    pub crc32: String,
    pub md5: String,
    pub sha1: String,
}

/// A file entry that is written.
pub struct WriteView {
    pub disc_id: i32,
    pub size: int,
    pub crc32: Seq<char>,
    pub md5: Seq<char>,
    pub sha1: Seq<char>,
}

/// The file entries that are written.
pub open spec fn write_views(v: Seq<CueFileWrite>) -> Seq<WriteView> {
    v.map_values(
        |w: CueFileWrite|
            WriteView {
                disc_id: w.disc_id,
                size: w.size as int,
                crc32: w.crc32@,
                md5: w.md5@,
                sha1: w.sha1@,
            },
    )
}

/// The cuesheets that are written.
pub open spec fn update_views(v: Seq<(i32, String)>) -> Seq<(i32, Seq<char>)> {
    v.map_values(|u: (i32, String)| (u.0, (u.1)@))
}

impl CueRebuildDisc {
    /// The medium is one for which the system has cuesheets.
    pub open spec fn is_active(self) -> bool {
        models::cue_is_active(self.system_media_types@, self.media_type_code@, self.rom_extension@)
    }

    /// Whether the medium is one for which the system has cuesheets.
    pub fn has_active_cue(&self) -> (r: bool)
        ensures
            r == self.is_active(),
    {
        is_cd_rom_extension(self.rom_extension.as_str()) && is_listed(
            &self.system_media_types,
            self.media_type_code.as_str(),
        )
    }

    /// The file entry has this size and these hashes.
    pub open spec fn entry_is(self, size: int, crc32: Seq<char>, md5: Seq<char>, sha1: Seq<char>) -> bool {
        self.cue_file_size is Some && self.cue_file_size->0 == size && text::opt_text(self.cue_file_crc32)
            == Some(crc32) && text::opt_text(self.cue_file_md5) == Some(md5) && text::opt_text(
            self.cue_file_sha1,
        ) == Some(sha1)
    }

    /// Whether the file entry has this size and these hashes.
    pub fn cue_file_matches(&self, size: i64, crc32: &str, md5: &str, sha1: &str) -> (r: bool)
        ensures
            r == self.entry_is(size as int, crc32@, md5@, sha1@),
    {
        let same_size = match self.cue_file_size {
            Some(n) => n == size,
            None => false,
        };
        same_size && text_is(&self.cue_file_crc32, crc32) && text_is(&self.cue_file_md5, md5)
            && text_is(&self.cue_file_sha1, sha1)
    }

    /// The cuesheet as it should be: its file names follow the name of the disc, its lines
    /// end with carriage return and line feed.
    pub open spec fn finished(self) -> Seq<char> {
        hex_dump::expand_newlines(
            text::unix_newlines(
                naming::renamed_cue(
                    self.cue@,
                    Some(
                        naming::rom_base_name(
                            self.title@,
                            text::texts(self.region_names@),
                            text::texts(self.language_codes@),
                            text::opt_text(self.disc_number),
                            text::opt_text(self.disc_title),
                            text::opt_text(self.filename_suffix),
                        ),
                    ),
                    self.rom_extension@,
                ),
            ),
        )
    }

    /// The cuesheet as it should be.
    pub fn finish_cue(&self) -> (r: String)
        ensures
            r@ == self.finished(),
    {
        let base = build_rom_base_name(
            self.title.as_str(),
            &self.region_names,
            &self.language_codes,
            opt_ref(&self.disc_number),
            opt_ref(&self.disc_title),
            opt_ref(&self.filename_suffix),
        );
        let finalized = finalize_cue(
            self.cue.as_str(),
            base.as_str(),
            self.rom_extension.as_str(),
        );
        to_crlf_newlines(finalized.as_str())
    }
}

fn text_is(s: &Option<String>, t: &str) -> (r: bool)
    ensures
        r == (text::opt_text(*s) == Some(t@)),
{
    match s {
        Some(x) => str_eq(x.as_str(), t),
        None => false,
    }
}

fn opt_ref(s: &Option<String>) -> (r: Option<&str>)
    ensures
        text::opt_str(r) == text::opt_text(*s),
{
    match s {
        Some(t) => Some(t.as_str()),
        None => None,
    }
}

/// What a rebuild has planned.
pub struct RebuildState {
    pub updates: Seq<(i32, Seq<char>)>,
    pub upserts: Seq<WriteView>,
    pub deletes: Seq<i32>,
    pub active: nat,
    pub skipped: nat,
}

/// The last cuesheet or the last file entry that was planned is that of the disc.
pub open spec fn was_written(s: RebuildState, id: i32) -> bool {
    (s.updates.len() > 0 && s.updates.last().0 == id) || (s.upserts.len() > 0
        && s.upserts.last().disc_id == id)
}

/// What a rebuild plans for one more disc. Where cuesheets are not used, a file entry is
/// deleted; else what is not as it should be is written.
pub open spec fn rebuild_step(s: RebuildState, disc: CueRebuildDisc, cue: FinishedCue) -> RebuildState {
    if !disc.is_active() {
        RebuildState {
            deletes: if disc.cue_file_size is Some {
                s.deletes.push(disc.id)
            } else {
                s.deletes
            },
            ..s
        }
    } else {
        let t = RebuildState {
            active: s.active + 1,
            updates: if cue.text@ != disc.cue@ {
                s.updates.push((disc.id, cue.text@))
            } else {
                s.updates
            },
            upserts: if !disc.entry_is(cue.size as int, cue.crc32@, cue.md5@, cue.sha1@) {
                s.upserts.push(
                    WriteView {
                        disc_id: disc.id,
                        size: cue.size as int,
                        crc32: cue.crc32@,
                        md5: cue.md5@,
                        sha1: cue.sha1@,
                    },
                )
            } else {
                s.upserts
            },
            ..s
        };
        RebuildState {
            skipped: if was_written(t, disc.id) {
                t.skipped
            } else {
                t.skipped + 1
            },
            ..t
        }
    }
}

/// What a rebuild plans for discs.
pub open spec fn rebuild(discs: Seq<CueRebuildDisc>, cues: Seq<FinishedCue>) -> RebuildState
    decreases discs.len(),
{
    if discs.len() == 0 || cues.len() == 0 {
        RebuildState {
            updates: Seq::empty(),
            upserts: Seq::empty(),
            deletes: Seq::empty(),
            active: 0,
            skipped: 0,
        }
    } else {
        rebuild_step(rebuild(discs.drop_last(), cues.drop_last()), discs.last(), cues.last())
    }
}

/// What a rebuild writes.
#[derive(Debug)]
pub struct CueRebuildPlan {
    pub cue_updates: Vec<(i32, String)>,
    pub file_upserts: Vec<CueFileWrite>,
    pub cue_file_deletes: Vec<i32>,
    pub active: usize,
    pub skipped: usize,
}

impl View for CueRebuildPlan {
    type V = RebuildState;

    open spec fn view(&self) -> RebuildState {
        RebuildState {
            updates: update_views(self.cue_updates@),
            upserts: write_views(self.file_upserts@),
            deletes: self.cue_file_deletes@,
            active: self.active as nat,
            skipped: self.skipped as nat,
        }
    }
}

fn plan_disc(plan: &mut CueRebuildPlan, disc: &CueRebuildDisc, cue: &FinishedCue)
    requires
        old(plan).active < usize::MAX,
        old(plan).skipped < usize::MAX,
    ensures
        final(plan)@ == rebuild_step(old(plan)@, *disc, *cue),
{
    let ghost start = plan@;
    if !disc.has_active_cue() {
        if disc.cue_file_size.is_some() {
            plan.cue_file_deletes.push(disc.id);
        }
        return;
    }
    plan.active = plan.active + 1;
    if !str_eq(cue.text.as_str(), disc.cue.as_str()) {
        let ghost before = plan.cue_updates@;
        plan.cue_updates.push((disc.id, cue.text.clone()));
        assert(update_views(plan.cue_updates@) =~= update_views(before).push(
            (disc.id, cue.text@),
        ));
    }
    if !disc.cue_file_matches(
        cue.size,
        cue.crc32.as_str(),
        cue.md5.as_str(),
        cue.sha1.as_str(),
    ) {
        let ghost before = plan.file_upserts@;
        let w = CueFileWrite {
            disc_id: disc.id,
            size: cue.size,
            crc32: cue.crc32.clone(),
            md5: cue.md5.clone(),
            sha1: cue.sha1.clone(),
        };
        plan.file_upserts.push(w);
        assert(write_views(plan.file_upserts@) =~= write_views(before).push(
            WriteView {
                disc_id: disc.id,
                size: cue.size as int,
                crc32: cue.crc32@,
                md5: cue.md5@,
                sha1: cue.sha1@,
            },
        ));
    }
    let n: usize = plan.cue_updates.len();
    let m: usize = plan.file_upserts.len();
    let updated = n > 0 && plan.cue_updates[n - 1].0 == disc.id;
    let upserted = m > 0 && plan.file_upserts[m - 1].disc_id == disc.id;
    proof {
        if n > 0 {
            assert(update_views(plan.cue_updates@).last() == update_views(plan.cue_updates@)[n - 1]);
        }
        if m > 0 {
            assert(write_views(plan.file_upserts@).last() == write_views(plan.file_upserts@)[m - 1]);
        }
    }
    if !updated && !upserted {
        plan.skipped = plan.skipped + 1;
    }
}

/// What a rebuild writes. The cuesheets are those that `finish_cue` gives for the discs,
/// one for each.
pub fn plan_cue_rebuild(discs: &Vec<CueRebuildDisc>, cues: &Vec<FinishedCue>) -> (r:
    CueRebuildPlan)
    requires
        cues@.len() == discs@.len(),
    ensures
        r@ == rebuild(discs@, cues@),
{
    let mut plan = CueRebuildPlan {
        cue_updates: Vec::new(),
        file_upserts: Vec::new(),
        cue_file_deletes: Vec::new(),
        active: 0,
        skipped: 0,
    };
    proof {
        assert(update_views(plan.cue_updates@) =~= Seq::<(i32, Seq<char>)>::empty());
        assert(write_views(plan.file_upserts@) =~= Seq::<WriteView>::empty());
        assert(discs@.take(0) =~= Seq::<CueRebuildDisc>::empty());
    }
    for i in 0..discs.len()
        invariant
            cues@.len() == discs@.len(),
            plan@ == rebuild(discs@.take(i as int), cues@.take(i as int)),
            plan.active <= i,
            plan.skipped <= i,
    {
        proof {
            assert(discs@.take(i + 1).drop_last() =~= discs@.take(i as int));
            assert(cues@.take(i + 1).drop_last() =~= cues@.take(i as int));
            assert(discs@.take(i + 1).last() == discs@[i as int]);
            assert(cues@.take(i + 1).last() == cues@[i as int]);
        }
        plan_disc(&mut plan, &discs[i], &cues[i]);
    }
    assert(discs@.take(discs@.len() as int) =~= discs@);
    assert(cues@.take(cues@.len() as int) =~= cues@);
    plan
}

/// The summary of a rebuild, once the rows are written.
pub fn summarize_rebuild(
    total: usize,
    plan: &CueRebuildPlan,
    updated_cues: usize,
    upserted_file_entries: usize,
    deleted_file_entries: usize,
) -> (r: CueRebuildSummary)
    ensures
        r == (CueRebuildSummary {
            total,
            active: plan.active,
            updated_cues,
            upserted_file_entries,
            deleted_file_entries,
            skipped: plan.skipped,
        }),
{
    CueRebuildSummary {
        total,
        active: plan.active,
        updated_cues,
        upserted_file_entries,
        deleted_file_entries,
        skipped: plan.skipped,
    }
}

/// What is made of the cuesheet of one disc: it is written as it should be, or its file
/// entry is deleted where there is no cuesheet or the system has none for the medium.
pub fn plan_cue_entry(
    disc: &Disc,
    system: &System,
    region_names: &Vec<String>,
    language_codes: &Vec<String>,
) -> (r: Option<String>)
    ensures
        text::opt_text(r) == (match text::opt_text(disc.cue) {
            Some(cue) => if cue.len() > 0 && models::cue_is_active(
                system.media_types@,
                disc.media_type.code@,
                disc.media_type.rom_extension@,
            ) {
                Some(
                    hex_dump::expand_newlines(
                        text::unix_newlines(
                            naming::renamed_cue(
                                cue,
                                Some(
                                    naming::rom_base_name(
                                        disc.title@,
                                        text::texts(region_names@),
                                        text::texts(language_codes@),
                                        text::opt_text(disc.disc_number),
                                        text::opt_text(disc.disc_title),
                                        text::opt_text(disc.filename_suffix),
                                    ),
                                ),
                                disc.media_type.rom_extension@,
                            ),
                        ),
                    ),
                )
            } else {
                None
            },
            None => None,
        }),
{
    let raw = match &disc.cue {
        Some(c) => c,
        None => {
            return None;
        },
    };
    if raw.as_str().is_empty() || !system.has_cue_for_media_type(&disc.media_type) {
        return None;
    }
    let base = build_rom_base_name(
        disc.title.as_str(),
        region_names,
        language_codes,
        opt_ref(&disc.disc_number),
        opt_ref(&disc.disc_title),
        opt_ref(&disc.filename_suffix),
    );
    let finalized = finalize_cue(
        raw.as_str(),
        base.as_str(),
        disc.media_type.rom_extension.as_str(),
    );
    Some(to_crlf_newlines(finalized.as_str()))
}

// ── Laws ───────────────────────────────────────────────────────────────────

/// A disc whose cuesheet and file entry are as they should be is left alone.
pub proof fn law_up_to_date_discs_are_skipped(
    s: RebuildState,
    disc: CueRebuildDisc,
    cue: FinishedCue,
)
    requires
        disc.is_active(),
        cue.text@ == disc.cue@,
        disc.entry_is(cue.size as int, cue.crc32@, cue.md5@, cue.sha1@),
        !was_written(s, disc.id),
    ensures
        rebuild_step(s, disc, cue) == (RebuildState {
            active: s.active + 1,
            skipped: s.skipped + 1,
            ..s
        }),
{
}

/// Every disc is counted at most once: no more are active than there are, and no more are
/// skipped than are active.
pub proof fn law_rebuild_counts(discs: Seq<CueRebuildDisc>, cues: Seq<FinishedCue>)
    ensures
        rebuild(discs, cues).active <= discs.len(),
        rebuild(discs, cues).skipped <= rebuild(discs, cues).active,
        rebuild(discs, cues).updates.len() <= rebuild(discs, cues).active,
        rebuild(discs, cues).upserts.len() <= rebuild(discs, cues).active,
        rebuild(discs, cues).deletes.len() + rebuild(discs, cues).active <= discs.len(),
    decreases discs.len(),
{
    if discs.len() > 0 && cues.len() > 0 {
        law_rebuild_counts(discs.drop_last(), cues.drop_last());
    }
}

} // verus!
