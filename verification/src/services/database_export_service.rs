//! Exports of the database as a file that anyone can download.

use vstd::prelude::*;

use crate::clock::{
    self, LAST_SECOND, Moment, STAMP, is_before, read_day, read_hour, read_stamp, write_moment,
    write_time,
};
use crate::text::{
    self, cat2, cat3, cat4, chars_end_with, chars_of, chars_start_with, str_eq, string_of,
};

verus! {

/// The directory of the exports among the archives.
pub const EXPORT_CACHE_VERSION: &'static str = "database-v1";

/// What the name of an export begins with.
pub const EXPORT_PREFIX: &'static str = "redump-discs-";

/// What the name of an export ends with.
pub const EXPORT_SUFFIX: &'static str = ".sqlite.zst";

/// The file that asks for an export at once.
pub const FORCE_MARKER: &'static str = ".force";

/// The hour of the day from which the daily export is made.
pub const EXPORT_HOUR_UTC: i64 = 7;

/// How far exports are compressed.
pub const ZSTD_LEVEL: i32 = 19;

/// The tables of an export.
pub const SQLITE_SCHEMA: &'static str = "
PRAGMA user_version = 1;

CREATE TABLE export_metadata (
    key TEXT PRIMARY KEY,
    value TEXT NOT NULL
);

CREATE TABLE media_types (
    code TEXT PRIMARY KEY,
    name TEXT NOT NULL UNIQUE,
    layer_count INTEGER NOT NULL,
    pic INTEGER NOT NULL,
    rom_extension TEXT NOT NULL
);

CREATE TABLE categories (
    id INTEGER PRIMARY KEY,
    name TEXT NOT NULL UNIQUE
);

CREATE TABLE regions (
    code TEXT PRIMARY KEY,
    name TEXT NOT NULL UNIQUE,
    flag_code TEXT NOT NULL,
    sort_order INTEGER NOT NULL
);

CREATE TABLE languages (
    code TEXT PRIMARY KEY,
    name TEXT NOT NULL,
    flag_code TEXT NOT NULL,
    sort_order INTEGER NOT NULL
);

CREATE TABLE systems (
    code TEXT PRIMARY KEY,
    type TEXT NOT NULL,
    manufacturer TEXT NOT NULL,
    name TEXT NOT NULL,
    short_name TEXT NOT NULL,
    media_types TEXT NOT NULL CHECK (json_valid(media_types)),
    has_title_foreign INTEGER NOT NULL,
    has_disc_number INTEGER NOT NULL,
    has_disc_title INTEGER NOT NULL,
    has_serial INTEGER NOT NULL,
    has_edition INTEGER NOT NULL,
    has_barcode INTEGER NOT NULL,
    has_version INTEGER NOT NULL,
    has_exe_date INTEGER NOT NULL,
    has_edc INTEGER NOT NULL,
    has_disc_id INTEGER NOT NULL,
    has_key INTEGER NOT NULL,
    has_universal_hash INTEGER NOT NULL,
    has_protection INTEGER NOT NULL,
    has_sector_ranges INTEGER NOT NULL,
    has_sbi INTEGER NOT NULL,
    has_pvd INTEGER NOT NULL,
    has_header INTEGER NOT NULL,
    has_bca INTEGER NOT NULL,
    has_sample_start INTEGER NOT NULL,
    has_offset_extra INTEGER NOT NULL
);

CREATE TABLE discs (
    id INTEGER PRIMARY KEY,
    system_code TEXT NOT NULL REFERENCES systems(code),
    media_type_code TEXT NOT NULL REFERENCES media_types(code),
    category_id INTEGER NOT NULL REFERENCES categories(id),
    title TEXT NOT NULL,
    title_foreign TEXT,
    disc_number TEXT,
    disc_title TEXT,
    filename_suffix TEXT,
    serial TEXT NOT NULL CHECK (json_valid(serial)),
    edition TEXT NOT NULL CHECK (json_valid(edition)),
    barcode TEXT NOT NULL CHECK (json_valid(barcode)),
    version TEXT,
    error_count INTEGER,
    exe_date TEXT,
    edc INTEGER NOT NULL,
    layerbreaks TEXT CHECK (layerbreaks IS NULL OR json_valid(layerbreaks)),
    disc_id TEXT,
    disc_key BLOB,
    universal_hash BLOB,
    comments TEXT,
    contents TEXT,
    protection TEXT,
    sector_ranges TEXT CHECK (sector_ranges IS NULL OR json_valid(sector_ranges)),
    sbi TEXT,
    pvd BLOB,
    header BLOB,
    bca BLOB,
    pic BLOB,
    cue TEXT,
    status TEXT NOT NULL CHECK (status IN ('Questionable', 'Unverified', 'Verified'))
);

CREATE TABLE disc_regions (
    disc_id INTEGER NOT NULL REFERENCES discs(id) ON DELETE CASCADE,
    region_code TEXT NOT NULL REFERENCES regions(code),
    PRIMARY KEY (disc_id, region_code)
);

CREATE TABLE disc_languages (
    disc_id INTEGER NOT NULL REFERENCES discs(id) ON DELETE CASCADE,
    language_code TEXT NOT NULL REFERENCES languages(code),
    PRIMARY KEY (disc_id, language_code)
);

CREATE TABLE disc_ring_code_entries (
    id INTEGER PRIMARY KEY,
    disc_id INTEGER NOT NULL REFERENCES discs(id) ON DELETE CASCADE,
    offset_value INTEGER,
    offset_extra_value INTEGER,
    sample_data_start INTEGER,
    comment TEXT
);

CREATE TABLE disc_ring_code_layers (
    id INTEGER PRIMARY KEY,
    entry_id INTEGER NOT NULL REFERENCES disc_ring_code_entries(id) ON DELETE CASCADE,
    layer INTEGER NOT NULL,
    mastering_code TEXT,
    mastering_sid TEXT,
    toolstamps TEXT NOT NULL,
    mould_sids TEXT NOT NULL,
    additional_moulds TEXT NOT NULL,
    UNIQUE (entry_id, layer)
);

CREATE TABLE files (
    id INTEGER PRIMARY KEY,
    disc_id INTEGER NOT NULL REFERENCES discs(id) ON DELETE CASCADE,
    track_number TEXT,
    size INTEGER NOT NULL,
    crc32 TEXT NOT NULL,
    md5 TEXT NOT NULL,
    sha1 TEXT NOT NULL,
    UNIQUE (disc_id, track_number)
);

CREATE UNIQUE INDEX files_disc_cue_unique ON files (disc_id) WHERE track_number IS NULL;
";

/// A finished export.
#[derive(Debug)]
pub struct DatabaseExportInfo {
    pub filename: String,
    pub created_at: Moment,
    pub size: u64,
}

// ── Names ──────────────────────────────────────────────────────────────────

/// The name of the export made at some time.
pub open spec fn export_name(seconds: int) -> Seq<char> {
    EXPORT_PREFIX@ + clock::time_text(seconds, STAMP@) + EXPORT_SUFFIX@
}

/// When the export of a name was made; none for the name of another file.
pub open spec fn export_moment(name: Seq<char>) -> Option<Moment> {
    if text::starts_with(name, EXPORT_PREFIX@) && text::ends_with(
        name.skip(EXPORT_PREFIX@.len() as int),
        EXPORT_SUFFIX@,
    ) {
        clock::moment_of(
            clock::stamp_moment(
                name.subrange(
                    EXPORT_PREFIX@.len() as int,
                    name.len() - EXPORT_SUFFIX@.len(),
                ),
            ),
        )
    } else {
        None
    }
}

/// When the export of a name was made.
pub fn parse_export_filename(filename: &str) -> (r: Option<Moment>)
    ensures
        r == export_moment(filename@),
{
    proof {
        reveal_strlit("redump-discs-");
        reveal_strlit(".sqlite.zst");
    }
    let chars = chars_of(filename);
    if !chars_start_with(&chars, EXPORT_PREFIX) {
        return None;
    }
    let rest = &chars[13..chars.len()];
    assert(rest@ =~= filename@.skip(13));
    if !chars_end_with(rest, EXPORT_SUFFIX) {
        return None;
    }
    let n: usize = rest.len();
    let stamp = &rest[0..n - 11];
    assert(stamp@ =~= filename@.subrange(13, filename@.len() - 11));
    read_stamp(string_of(stamp).as_str())
}

/// The name of the export made at some time; the time is read back from it.
pub fn export_filename(seconds: i64) -> (r: String)
    ensures
        r@ == export_name(seconds as int),
        0 <= seconds < LAST_SECOND ==> export_moment(r@) == Some(Moment { seconds, nanos: 0 }),
{
    proof {
        reveal_strlit("redump-discs-");
        reveal_strlit(".sqlite.zst");
    }
    let stamp = write_time(seconds, STAMP);
    let r = cat3(EXPORT_PREFIX, stamp.as_str(), EXPORT_SUFFIX);
    assert(r@.take(13) =~= EXPORT_PREFIX@);
    assert(r@.skip(13).skip(r@.len() - 24) =~= EXPORT_SUFFIX@);
    assert(r@.subrange(13, r@.len() - 11) =~= stamp@);
    r
}

/// The name of the database that an export is made from, while it is made.
pub fn database_partial(seconds: i64) -> (r: String)
    ensures
        r@ == "."@ + EXPORT_PREFIX@ + clock::time_text(seconds as int, STAMP@) + ".sqlite.partial"@,
{
    cat4(".", EXPORT_PREFIX, write_time(seconds, STAMP).as_str(), ".sqlite.partial")
}

/// The name of an export while it is made.
pub fn export_partial(seconds: i64) -> (r: String)
    ensures
        r@ == "."@ + export_name(seconds as int) + ".partial"@,
{
    cat3(".", export_filename(seconds).as_str(), ".partial")
}

/// The name of a file that was left from an export that was not finished.
pub open spec fn is_partial(name: Seq<char>) -> bool {
    text::starts_with(name, "."@ + EXPORT_PREFIX@) && text::ends_with(name, ".partial"@)
}

/// Whether a file was left from an export that was not finished.
pub fn is_stale_partial(name: &str) -> (r: bool)
    ensures
        r == is_partial(name@),
{
    let chars = chars_of(name);
    let prefix = cat2(".", EXPORT_PREFIX);
    chars_start_with(&chars, prefix.as_str()) && chars_end_with(&chars, ".partial")
}

/// Whether a file is an export other than the current one.
pub fn is_old_export(name: &str, current: &str) -> (r: bool)
    ensures
        r == (name@ != current@ && export_moment(name@) is Some),
{
    !str_eq(name, current) && parse_export_filename(name).is_some()
}

// ── The latest export ──────────────────────────────────────────────────────

/// A file in the directory of the exports.
#[derive(Debug)]
pub struct ExportFile {
    pub filename: String,
    pub size: u64,
}

/// The position of the latest export, the last of those of the same time.
pub open spec fn latest(files: Seq<ExportFile>) -> Option<int>
    decreases files.len(),
{
    if files.len() == 0 {
        None
    } else {
        match (latest(files.drop_last()), export_moment(files.last().filename@)) {
            (before, None) => before,
            (None, Some(_)) => Some(files.len() - 1),
            (Some(k), Some(t)) => if clock::moment_less(t, export_moment(files[k].filename@)->0) {
                Some(k)
            } else {
                Some(files.len() - 1)
            },
        }
    }
}

proof fn lemma_latest(files: Seq<ExportFile>)
    ensures
        latest(files) matches Some(k) ==> 0 <= k < files.len() && export_moment(
            files[k].filename@,
        ) is Some,
    decreases files.len(),
{
    if files.len() > 0 {
        lemma_latest(files.drop_last());
    }
}

/// The latest export among the files of a directory.
pub fn latest_export(files: &Vec<ExportFile>) -> (r: Option<DatabaseExportInfo>)
    ensures
        match latest(files@) {
            None => r is None,
            Some(k) => r matches Some(e) && e.filename@ == files@[k].filename@ && e.size
                == files@[k].size && Some(e.created_at) == export_moment(files@[k].filename@),
        },
{
    let mut best: Option<(usize, Moment)> = None;
    assert(files@.take(0) =~= Seq::<ExportFile>::empty());
    for i in 0..files.len()
        invariant
            match latest(files@.take(i as int)) {
                None => best is None,
                Some(k) => best matches Some(b) && b.0 == k && k < i && Some(b.1) == export_moment(
                    files@[k].filename@,
                ),
            },
    {
        let ghost now = files@.take(i + 1);
        proof {
            assert(now.drop_last() =~= files@.take(i as int));
            lemma_latest(files@.take(i as int));
            lemma_latest(now);
        }
        if let Some(t) = parse_export_filename(files[i].filename.as_str()) {
            match best {
                Some(b) => {
                    if !is_before(t, b.1) {
                        best = Some((i, t));
                    }
                },
                None => {
                    best = Some((i, t));
                },
            }
        }
    }
    assert(files@.take(files@.len() as int) =~= files@);
    match best {
        Some(b) => Some(
            DatabaseExportInfo {
                filename: files[b.0].filename.clone(),
                created_at: b.1,
                size: files[b.0].size,
            },
        ),
        None => None,
    }
}

/// No export is later than the latest, and there is one unless there is none.
pub proof fn law_latest_is_last(files: Seq<ExportFile>, i: int)
    requires
        0 <= i < files.len(),
        export_moment(files[i].filename@) is Some,
    ensures
        latest(files) matches Some(k) && 0 <= k < files.len() && !clock::moment_less(
            export_moment(files[k].filename@)->0,
            export_moment(files[i].filename@)->0,
        ),
    decreases files.len(),
{
    lemma_latest(files);
    lemma_latest(files.drop_last());
    if i < files.len() - 1 {
        law_latest_is_last(files.drop_last(), i);
    }
}

// ── When an export is made ─────────────────────────────────────────────────

/// An export is due.
pub open spec fn is_due(now: Moment, latest: Option<Moment>, forced: bool) -> bool {
    ||| forced
    ||| match latest {
        None => true,
        Some(t) => clock::hour_of(now) >= EXPORT_HOUR_UTC && clock::day_of(t) < clock::day_of(now),
    }
}

/// Whether an export is due: at once where there is none or where it is asked for, else
/// once a day from the hour of exports on.
pub fn export_is_due(now: Moment, latest: Option<&DatabaseExportInfo>, forced: bool) -> (r: bool)
    ensures
        r == is_due(
            now,
            match latest {
                Some(e) => Some(e.created_at),
                None => None,
            },
            forced,
        ),
{
    if forced {
        return true;
    }
    match latest {
        None => true,
        Some(e) => read_hour(now) >= EXPORT_HOUR_UTC && read_day(e.created_at) < read_day(now),
    }
}

/// After an export no other is due on the same day unless it is asked for.
pub proof fn law_one_export_a_day(made: Moment, now: Moment)
    requires
        clock::day_of(now) == clock::day_of(made),
    ensures
        !is_due(now, Some(made), false),
{
}

// ── What an export says of itself ──────────────────────────────────────────

/// What an export says of itself, by key.
pub open spec fn metadata(now: Moment, source_url: Seq<char>) -> Seq<(Seq<char>, Seq<char>)> {
    seq![
        ("schema_version"@, "1"@),
        ("generated_at_utc"@, clock::moment_text(now)),
        ("source_url"@, source_url),
        ("included_statuses"@, "Questionable,Unverified,Verified"@),
        ("array_encoding"@, "JSON text"@),
        ("binary_encoding"@, "SQLite BLOB"@),
        ("compression"@, "Zstandard level 19"@),
    ]
}

/// Keys with values.
pub open spec fn rows(v: Seq<(&'static str, String)>) -> Seq<(Seq<char>, Seq<char>)> {
    v.map_values(|p: (&'static str, String)| (p.0@, p.1@))
}

/// What an export says of itself, by key.
pub fn export_metadata(now: Moment, source_url: &str) -> (r: Vec<(&'static str, String)>)
    ensures
        rows(r@) == metadata(now, source_url@),
{
    let mut out: Vec<(&'static str, String)> = Vec::new();
    out.push(("schema_version", String::from_str("1")));
    out.push(("generated_at_utc", write_moment(now)));
    out.push(("source_url", String::from_str(source_url)));
    out.push(("included_statuses", String::from_str("Questionable,Unverified,Verified")));
    out.push(("array_encoding", String::from_str("JSON text")));
    out.push(("binary_encoding", String::from_str("SQLite BLOB")));
    out.push(("compression", String::from_str("Zstandard level 19")));
    assert(rows(out@) =~= metadata(now, source_url@));
    out
}

/// Whether an export is kept, by what the checks of the database found: the integrity
/// check says `ok`, and no row refers to one that is missing.
pub fn check_export(integrity: &str, dangling: bool) -> (r: Result<(), String>)
    ensures
        match r {
            Ok(_) => integrity@ == "ok"@ && !dangling,
            Err(e) => if integrity@ != "ok"@ {
                e@ == "SQLite integrity check failed: "@ + integrity@
            } else {
                dangling && e@ == "SQLite foreign key check failed"@
            },
        },
{
    if !str_eq(integrity, "ok") {
        return Err(cat2("SQLite integrity check failed: ", integrity));
    }
    if dangling {
        return Err(String::from_str("SQLite foreign key check failed"));
    }
    Ok(())
}

} // verus!
