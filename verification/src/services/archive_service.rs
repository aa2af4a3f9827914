//! The archives that are published for a system.

use vstd::prelude::*;
use vstd::utf8::encode_utf8;

use crate::clock::{self, ARCHIVE_STAMP, write_time};
use crate::error::{AppError, ErrorView};
use crate::models::{self, File, System, is_cd_rom_extension, is_listed};
use crate::naming::{self, build_rom_base_name, build_rom_name};
use crate::numbers::{self, write_i64, write_u64};
use crate::order::{self, KeyView, SortKey, arrange, sort_positions};
use crate::text::{
    self, cat2, cat3, cat5, chars_end_with, chars_find, chars_index_from, chars_of,
    chars_start_with, chars_trim, push_str, str_eq, string_of,
};
use crate::unicode::{self, to_lowercase};
use crate::zip_file::{self, ARCHIVE_LIMIT, ArchiveFile, FILE_OVERHEAD, NAME_LIMIT, pack_files};

verus! {

/// The version of the way in which archives are stored.
pub const ARCHIVE_CACHE_VERSION: &'static str = "v2";

/// An archive and its file name.
#[derive(Debug)]
pub struct ArchiveResult {
    pub data: Vec<u8>,
    pub filename: String,
}

/// What an archive says of the site.
#[derive(Debug, PartialEq, Eq)]
pub struct ArchiveMetadata {
    pub author: String,
    pub homepage: String,
    pub url: String,
}

// ── The site ───────────────────────────────────────────────────────────────

/// A text without slashes at its end.
pub open spec fn without_slashes(s: Seq<char>) -> Seq<char>
    decreases s.len(),
{
    if s.len() > 0 && s.last() == '/' {
        without_slashes(s.drop_last())
    } else {
        s
    }
}

/// The host of an address, without `www.` before it.
pub open spec fn host_of(url: Seq<char>) -> Seq<char> {
    let rest = match text::find(url, "://"@) {
        Some(p) => url.skip(p + 3),
        None => url,
    };
    let host = rest.take(text::index_from(rest, '/', 0));
    if text::starts_with(host, "www."@) {
        host.skip(4)
    } else {
        host
    }
}

/// The host of an address, or the local one.
pub open spec fn site_host(url: Seq<char>) -> Seq<char> {
    if host_of(url).len() == 0 {
        "localhost"@
    } else {
        host_of(url)
    }
}

fn chars_without_slashes(s: &[char]) -> (r: &[char])
    ensures
        r@ == without_slashes(s@),
{
    let mut n: usize = s.len();
    assert(s@.take(s@.len() as int) =~= s@);
    while n > 0 && s[n - 1] == '/'
        invariant
            n <= s@.len(),
            without_slashes(s@.take(n as int)) == without_slashes(s@),
        decreases n,
    {
        assert(s@.take(n as int).drop_last() =~= s@.take(n - 1));
        n = n - 1;
    }
    let r = &s[0..n];
    assert(r@ =~= s@.take(n as int));
    r
}

/// The host of an address, without `www.` before it.
pub fn host_from_url(url: &[char]) -> (r: String)
    ensures
        r@ == host_of(url@),
{
    proof {
        reveal_strlit("://");
        reveal_strlit("www.");
    }
    let n: usize = url.len();
    let rest = match chars_find(url, "://") {
        Some(p) => &url[p + 3..n],
        None => url,
    };
    assert(rest@ =~= (match text::find(url@, "://"@) {
        Some(p) => url@.skip(p + 3),
        None => url@,
    }));
    let e = chars_index_from(rest, '/', 0);
    let host = &rest[0..e];
    assert(host@ =~= rest@.take(e as int));
    if chars_start_with(host, "www.") {
        let bare = &host[4..host.len()];
        assert(bare@ =~= host@.skip(4));
        string_of(bare)
    } else {
        string_of(host)
    }
}

impl ArchiveMetadata {
    /// What archives say of the site at an address.
    pub fn from_site_url(site_url: &str) -> (r: ArchiveMetadata)
        ensures
            ({
                let t = without_slashes(text::trim(site_url@));
                &&& r.url@ == (if t.len() == 0 {
                    "http://localhost/"@
                } else {
                    t + "/"@
                })
                &&& r.author@ == site_host(t)
                &&& r.homepage@ == site_host(t)
            }),
    {
        let chars = chars_of(site_url);
        let trimmed = chars_without_slashes(chars_trim(&chars));
        let url = if trimmed.len() == 0 {
            String::from_str("http://localhost/")
        } else {
            cat2(string_of(trimmed).as_str(), "/")
        };
        let host = host_from_url(trimmed);
        let site_host = if host.as_str().is_empty() {
            String::from_str("localhost")
        } else {
            host
        };
        ArchiveMetadata { author: site_host.clone(), homepage: site_host, url }
    }
}

// ── Which archives there are ───────────────────────────────────────────────

/// Where the archives of a system are stored.
pub fn archive_subdir(data_dir: &str, system: &str, archive_type: &str) -> (r: String)
    ensures
        r@ == data_dir@ + "/archives/"@ + system@ + "-"@ + archive_type@ + "-"@
            + ARCHIVE_CACHE_VERSION@,
{
    let mut s = cat5(data_dir, "/archives/", system, "-", archive_type);
    s.append("-");
    s.append(ARCHIVE_CACHE_VERSION);
    s
}

/// A file name with the extension of an archive.
pub open spec fn is_zip_name(name: Seq<char>) -> bool {
    name.len() > 4 && text::ends_with(name, ".zip"@)
}

/// Whether a file is removed once an archive is stored: it is another archive.
pub fn is_replaced(name: &str, stored: &str) -> (r: bool)
    ensures
        r == (is_zip_name(name@) && name@ != stored@),
{
    let chars = chars_of(name);
    chars.len() > 4 && chars_end_with(&chars, ".zip") && !str_eq(name, stored)
}

/// Whether a file is a stored archive.
pub fn has_zip_extension(name: &str) -> (r: bool)
    ensures
        r == is_zip_name(name@),
{
    let chars = chars_of(name);
    chars.len() > 4 && chars_end_with(&chars, ".zip")
}

/// The position of the newest file, the last of those that are equally new.
pub fn newest_position(times: &Vec<u64>) -> (r: Option<usize>)
    ensures
        match r {
            None => times@.len() == 0,
            Some(k) => {
                &&& k < times@.len()
                &&& forall|i: int| 0 <= i < times@.len() ==> #[trigger] times@[i] <= times@[k as int]
                &&& forall|i: int|
                    k < i < times@.len() ==> #[trigger] times@[i] < times@[k as int]
            },
        },
{
    if times.len() == 0 {
        return None;
    }
    let mut best: usize = 0;
    for i in 1..times.len()
        invariant
            best < i <= times@.len(),
            forall|k: int| 0 <= k < i ==> #[trigger] times@[k] <= times@[best as int],
            forall|k: int| best < k < i ==> #[trigger] times@[k] < times@[best as int],
    {
        if times[i] >= times[best] {
            best = i;
        }
    }
    Some(best)
}

/// Whether a system has archives of a type.
pub fn archive_type_supported_by_system(sys: &System, archive_type: &str, has_cue_media: bool) -> (r:
    Result<bool, AppError>)
    ensures
        if archive_type@ == "dat"@ {
            r == Ok::<bool, AppError>(true)
        } else if archive_type@ == "cue"@ {
            r == Ok::<bool, AppError>(has_cue_media)
        } else if archive_type@ == "key"@ {
            r == Ok::<bool, AppError>(sys.has_key)
        } else if archive_type@ == "sbi"@ {
            r == Ok::<bool, AppError>(sys.has_sbi)
        } else {
            r matches Err(e) && e@ == ErrorView::NotFound
        },
{
    if str_eq(archive_type, "dat") {
        Ok(true)
    } else if str_eq(archive_type, "cue") {
        Ok(has_cue_media)
    } else if str_eq(archive_type, "key") {
        Ok(sys.has_key)
    } else if str_eq(archive_type, "sbi") {
        Ok(sys.has_sbi)
    } else {
        Err(AppError::NotFound)
    }
}

/// Whether a text is a type of archive.
pub fn is_archive_type(archive_type: &str) -> (r: bool)
    ensures
        r == (archive_type@ == "dat"@ || archive_type@ == "cue"@ || archive_type@ == "key"@
            || archive_type@ == "sbi"@),
{
    str_eq(archive_type, "dat") || str_eq(archive_type, "cue") || str_eq(archive_type, "key")
        || str_eq(archive_type, "sbi")
}

/// The types of archives that a system has.
pub open spec fn archive_types(sys: System, has_cue_media: bool) -> Seq<Seq<char>> {
    seq!["dat"@] + (if has_cue_media {
        seq!["cue"@]
    } else {
        Seq::empty()
    }) + (if sys.has_key {
        seq!["key"@]
    } else {
        Seq::empty()
    }) + (if sys.has_sbi {
        seq!["sbi"@]
    } else {
        Seq::empty()
    })
}

/// The archives that are generated for a system, in order.
pub fn plan_archives(sys: &System, has_cue_media: bool) -> (r: Vec<String>)
    ensures
        text::texts(r@) == archive_types(*sys, has_cue_media),
{
    let mut out: Vec<String> = Vec::new();
    out.push(String::from_str("dat"));
    if has_cue_media {
        out.push(String::from_str("cue"));
    }
    if sys.has_key {
        out.push(String::from_str("key"));
    }
    if sys.has_sbi {
        out.push(String::from_str("sbi"));
    }
    assert(text::texts(out@) =~= archive_types(*sys, has_cue_media));
    out
}

/// Some medium's dumps are those of a CD.
pub open spec fn any_cd(exts: Seq<Seq<char>>) -> bool {
    exists|i: int| 0 <= i < exts.len() && models::cd_extension(#[trigger] exts[i])
}

/// Whether some medium's dumps are those of a CD.
pub fn has_bin_media(extensions: &Vec<String>) -> (r: bool)
    ensures
        r == any_cd(text::texts(extensions@)),
{
    let ghost all = text::texts(extensions@);
    for i in 0..extensions.len()
        invariant
            all == text::texts(extensions@),
            forall|k: int| 0 <= k < i ==> !models::cd_extension(#[trigger] all[k]),
    {
        assert(all[i as int] == extensions@[i as int]@);
        if is_cd_rom_extension(extensions[i].as_str()) {
            return true;
        }
    }
    false
}

/// The name of a system in its archives.
pub open spec fn archive_system_name(sys: System) -> Seq<char> {
    if sys.manufacturer@.len() == 0 {
        sys.name@
    } else {
        sys.manufacturer@ + " - "@ + sys.name@
    }
}

/// The name of a system in its archives.
pub fn dat_system_name(sys: &System) -> (r: String)
    ensures
        r@ == archive_system_name(*sys),
{
    if sys.manufacturer.as_str().is_empty() {
        sys.name.clone()
    } else {
        cat3(sys.manufacturer.as_str(), " - ", sys.name.as_str())
    }
}

/// How an archive is called: the system, what it holds, how many, and when it was made.
pub open spec fn archive_title(sys: System, what: Seq<char>, count: nat, now: int) -> Seq<char> {
    archive_system_name(sys) + " - "@ + what + " ("@ + numbers::nat_text(count) + ") ("@ + clock::time_text(
        now,
        ARCHIVE_STAMP@,
    ) + ")"@
}

fn write_archive_title(sys: &System, what: &str, count: usize, now: i64) -> (r: String)
    ensures
        r@ == archive_title(*sys, what@, count as nat, now as int),
{
    let mut s = dat_system_name(sys);
    s.append(" - ");
    s.append(what);
    s.append(" (");
    s.append(write_u64(count as u64).as_str());
    s.append(") (");
    s.append(write_time(now, ARCHIVE_STAMP).as_str());
    s.append(")");
    s
}

// ── Text in XML ────────────────────────────────────────────────────────────

/// A character in XML.
pub open spec fn escaped_char(c: char) -> Seq<char> {
    if c == '&' {
        "&amp;"@
    } else if c == '<' {
        "&lt;"@
    } else if c == '>' {
        "&gt;"@
    } else if c == '"' {
        "&quot;"@
    } else {
        seq![c]
    }
}

/// A text in XML.
pub open spec fn escaped(s: Seq<char>) -> Seq<char>
    decreases s.len(),
{
    if s.len() == 0 {
        Seq::empty()
    } else {
        escaped(s.drop_last()) + escaped_char(s.last())
    }
}

/// A text in XML.
pub fn html_escape(s: &str) -> (r: String)
    ensures
        r@ == escaped(s@),
{
    let chars = chars_of(s);
    let mut out: Vec<char> = Vec::new();
    assert(s@.take(0) =~= Seq::<char>::empty());
    assert(out@ =~= Seq::<char>::empty());
    for i in 0..chars.len()
        invariant
            chars@ == s@,
            out@ == escaped(s@.take(i as int)),
    {
        proof {
            assert(s@.take(i + 1).drop_last() =~= s@.take(i as int));
        }
        let c = chars[i];
        let ghost before = out@;
        if c == '&' {
            push_str(&mut out, "&amp;");
        } else if c == '<' {
            push_str(&mut out, "&lt;");
        } else if c == '>' {
            push_str(&mut out, "&gt;");
        } else if c == '"' {
            push_str(&mut out, "&quot;");
        } else {
            out.push(c);
            assert(out@ =~= before + seq![c]);
        }
    }
    assert(s@.take(s@.len() as int) =~= s@);
    string_of(&out)
}

// ── DAT ────────────────────────────────────────────────────────────────────

/// A disc of a DAT.
#[derive(Debug)]
pub struct DatfileDisc {
    pub id: i32,
    pub title: String,
    pub filename_suffix: Option<String>,
    pub disc_number: Option<String>,
    pub disc_title: Option<String>,
    pub category_name: String,
    pub media_type_code: String,
    pub rom_extension: String,
}

/// A disc of a DAT with its files, regions and languages.
#[derive(Debug)]
pub struct DatfileEntry {
    pub disc: DatfileDisc,
    pub files: Vec<File>,
    pub region_names: Vec<String>,
    pub language_codes: Vec<String>,
}

/// A file in a DAT.
#[derive(Debug)]
pub struct RomEntry {
    pub name: String,
    pub size: i64,
    pub crc: String,
    pub md5: String,
    pub sha1: String,
    pub is_cue: bool,
}

/// A file in a DAT.
pub struct RomView {
    pub name: Seq<char>,
    pub size: int,
    pub crc: Seq<char>,
    pub md5: Seq<char>,
    pub sha1: Seq<char>,
    pub is_cue: bool,
}

impl View for RomEntry {
    type V = RomView;

    open spec fn view(&self) -> RomView {
        RomView {
            name: self.name@,
            size: self.size as int,
            crc: self.crc@,
            md5: self.md5@,
            sha1: self.sha1@,
            is_cue: self.is_cue,
        }
    }
}

/// The files in a DAT.
pub open spec fn rom_views(v: Seq<RomEntry>) -> Seq<RomView> {
    v.map_values(|r: RomEntry| r@)
}

/// What a file in a DAT sorts by: the cuesheet first, then by name.
pub open spec fn rom_key(r: RomView) -> KeyView {
    KeyView {
        rank: if r.is_cue {
            0
        } else {
            1
        },
        texts: seq![unicode::lowercase(r.name)],
        last: 0,
    }
}

/// The files of a disc in order.
pub open spec fn sorted_roms(v: Seq<RomView>) -> Seq<RomView> {
    order::arranged(v, order::stable_order(v.map_values(|r: RomView| rom_key(r))))
}

fn order_roms(roms: &Vec<RomEntry>) -> (r: Vec<usize>)
    ensures
        order::positions(r@) == order::stable_order(rom_views(roms@).map_values(|r: RomView| rom_key(r))),
{
    let ghost ks = rom_views(roms@).map_values(|r: RomView| rom_key(r));
    let mut keys: Vec<SortKey> = Vec::new();
    for i in 0..roms.len()
        invariant
            ks == rom_views(roms@).map_values(|r: RomView| rom_key(r)),
            keys@.len() == i,
            order::key_views(keys@) == ks.take(i as int),
    {
        let mut ts: Vec<String> = Vec::new();
        ts.push(to_lowercase(roms[i].name.as_str()));
        let rank: i64 = if roms[i].is_cue {
            0
        } else {
            1
        };
        let key = SortKey { rank, texts: ts, last: 0 };
        let ghost before = keys@;
        assert(text::texts(ts@) =~= seq![unicode::lowercase(roms@[i as int].name@)]);
        assert(key@ == ks[i as int]);
        keys.push(key);
        assert(order::key_views(keys@) =~= order::key_views(before).push(key@));
        assert(ks.take(i + 1) =~= ks.take(i as int).push(ks[i as int]));
    }
    assert(ks.take(ks.len() as int) =~= ks);
    sort_positions(&keys)
}

/// Sort the files of a disc: the cuesheet first, then by name.
pub fn sort_dat_rom_entries(roms: &mut Vec<RomEntry>)
    ensures
        rom_views(final(roms)@) == sorted_roms(rom_views(old(roms)@)),
{
    let ghost start = rom_views(roms@);
    let order = order_roms(roms);
    let mut taken: Vec<RomEntry> = Vec::new();
    std::mem::swap(&mut taken, roms);
    proof {
        order::law_stable_order(start.map_values(|r: RomView| rom_key(r)));
    }
    let mut sorted = arrange(taken, &order);
    assert(rom_views(sorted@) =~= sorted_roms(start));
    std::mem::swap(roms, &mut sorted);
}

/// Whether the system has cuesheets for the medium of a disc.
pub fn dat_disc_has_active_cue(disc: &DatfileDisc, sys: &System) -> (r: bool)
    ensures
        r == models::cue_is_active(sys.media_types@, disc.media_type_code@, disc.rom_extension@),
{
    is_cd_rom_extension(disc.rom_extension.as_str()) && is_listed(
        &sys.media_types,
        disc.media_type_code.as_str(),
    )
}

/// Whether a file is in a DAT: a cuesheet only where cuesheets are used.
pub fn dat_file_is_active(file: &File, cue_active: bool) -> (r: bool)
    ensures
        r == (file.track_number is Some || cue_active),
{
    file.track_number.is_some() || cue_active
}

/// The number of tracks among files.
pub open spec fn tracks_among(files: Seq<File>) -> nat
    decreases files.len(),
{
    if files.len() == 0 {
        0
    } else {
        tracks_among(files.drop_last()) + (if files.last().track_number is Some {
            1nat
        } else {
            0
        })
    }
}

fn count_track_files(files: &Vec<File>) -> (r: usize)
    ensures
        r == tracks_among(files@),
{
    let mut n: usize = 0;
    assert(files@.take(0) =~= Seq::<File>::empty());
    for i in 0..files.len()
        invariant
            n <= i,
            n == tracks_among(files@.take(i as int)),
    {
        assert(files@.take(i + 1).drop_last() =~= files@.take(i as int));
        if files[i].track_number.is_some() {
            n = n + 1;
        }
    }
    assert(files@.take(files@.len() as int) =~= files@);
    n
}

/// A file of a disc in a DAT.
pub open spec fn rom_of(file: File, base: Seq<char>, total: nat, ext: Seq<char>) -> RomView {
    RomView {
        name: naming::dat_name(
            base,
            text::opt_text(file.track_number),
            total,
            if file.track_number is Some {
                ext
            } else {
                "cue"@
            },
        ),
        size: file.size as int,
        crc: file.crc32@,
        md5: file.md5@,
        sha1: file.sha1@,
        is_cue: file.track_number is None,
    }
}

/// The files of a disc in a DAT, in the order in which they are stored.
pub open spec fn roms_of(files: Seq<File>, cue_active: bool, base: Seq<char>, total: nat, ext: Seq<char>) -> Seq<
    RomView,
>
    decreases files.len(),
{
    if files.len() == 0 {
        Seq::empty()
    } else {
        let before = roms_of(files.drop_last(), cue_active, base, total, ext);
        let f = files.last();
        if f.track_number is Some || cue_active {
            before.push(rom_of(f, base, total, ext))
        } else {
            before
        }
    }
}

fn build_rom(file: &File, base: &str, total: usize, ext: &str) -> (r: RomEntry)
    ensures
        r@ == rom_of(*file, base@, total as nat, ext@),
{
    let is_cue = file.track_number.is_none();
    let track: Option<&str> = match &file.track_number {
        Some(t) => Some(t.as_str()),
        None => None,
    };
    let e = if is_cue {
        "cue"
    } else {
        ext
    };
    RomEntry {
        name: build_rom_name(base, track, total, e),
        size: file.size,
        crc: file.crc32.clone(),
        md5: file.md5.clone(),
        sha1: file.sha1.clone(),
        is_cue,
    }
}

fn build_roms(files: &Vec<File>, cue_active: bool, base: &str, total: usize, ext: &str) -> (r: Vec<
    RomEntry,
>)
    ensures
        rom_views(r@) == roms_of(files@, cue_active, base@, total as nat, ext@),
{
    let mut out: Vec<RomEntry> = Vec::new();
    assert(files@.take(0) =~= Seq::<File>::empty());
    assert(rom_views(out@) =~= Seq::<RomView>::empty());
    for i in 0..files.len()
        invariant
            rom_views(out@) == roms_of(
                files@.take(i as int),
                cue_active,
                base@,
                total as nat,
                ext@,
            ),
    {
        assert(files@.take(i + 1).drop_last() =~= files@.take(i as int));
        if dat_file_is_active(&files[i], cue_active) {
            let rom = build_rom(&files[i], base, total, ext);
            let ghost before = out@;
            out.push(rom);
            assert(rom_views(out@) =~= rom_views(before).push(rom@));
        }
    }
    assert(files@.take(files@.len() as int) =~= files@);
    out
}

/// A disc in a DAT.
#[derive(Debug)]
pub struct GameEntry {
    pub id: i32,
    pub name: String,
    pub category: String,
    pub roms: Vec<RomEntry>,
}

/// A disc in a DAT.
pub struct GameView {
    pub id: i32,
    pub name: Seq<char>,
    pub category: Seq<char>,
    pub roms: Seq<RomView>,
}

impl View for GameEntry {
    type V = GameView;

    open spec fn view(&self) -> GameView {
        GameView {
            id: self.id,
            name: self.name@,
            category: self.category@,
            roms: rom_views(self.roms@),
        }
    }
}

/// The discs in a DAT.
pub open spec fn game_views(v: Seq<GameEntry>) -> Seq<GameView> {
    v.map_values(|g: GameEntry| g@)
}

/// The name of a disc in a DAT.
pub open spec fn game_name(e: DatfileEntry) -> Seq<char> {
    naming::rom_base_name(
        e.disc.title@,
        text::texts(e.region_names@),
        text::texts(e.language_codes@),
        text::opt_text(e.disc.disc_number),
        text::opt_text(e.disc.disc_title),
        text::opt_text(e.disc.filename_suffix),
    )
}

/// A disc in the DAT of a system.
pub open spec fn game_of(e: DatfileEntry, sys: System) -> GameView {
    GameView {
        id: e.disc.id,
        name: game_name(e),
        category: e.disc.category_name@,
        roms: sorted_roms(
            roms_of(
                e.files@,
                models::cue_is_active(sys.media_types@, e.disc.media_type_code@, e.disc.rom_extension@),
                game_name(e),
                tracks_among(e.files@),
                e.disc.rom_extension@,
            ),
        ),
    }
}

/// What a disc in a DAT sorts by.
pub open spec fn game_key(g: GameView) -> KeyView {
    KeyView { rank: 0, texts: seq![unicode::lowercase(g.name)], last: 0 }
}

/// The discs of a DAT in the order of their names.
pub open spec fn sorted_games(entries: Seq<DatfileEntry>, sys: System) -> Seq<GameView> {
    let gs = entries.map_values(|e: DatfileEntry| game_of(e, sys));
    order::arranged(gs, order::stable_order(gs.map_values(|g: GameView| game_key(g))))
}

fn opt_ref(s: &Option<String>) -> (r: Option<&str>)
    ensures
        text::opt_str(r) == text::opt_text(*s),
{
    match s {
        Some(t) => Some(t.as_str()),
        None => None,
    }
}

fn build_game(e: &DatfileEntry, sys: &System) -> (r: GameEntry)
    ensures
        r@ == game_of(*e, *sys),
{
    let name = build_rom_base_name(
        e.disc.title.as_str(),
        &e.region_names,
        &e.language_codes,
        opt_ref(&e.disc.disc_number),
        opt_ref(&e.disc.disc_title),
        opt_ref(&e.disc.filename_suffix),
    );
    let total = count_track_files(&e.files);
    let cue_active = dat_disc_has_active_cue(&e.disc, sys);
    let mut roms = build_roms(
        &e.files,
        cue_active,
        name.as_str(),
        total,
        e.disc.rom_extension.as_str(),
    );
    sort_dat_rom_entries(&mut roms);
    GameEntry { id: e.disc.id, name, category: e.disc.category_name.clone(), roms }
}

fn build_games(entries: &Vec<DatfileEntry>, sys: &System) -> (r: Vec<GameEntry>)
    ensures
        game_views(r@) == sorted_games(entries@, *sys),
{
    let ghost gs = entries@.map_values(|e: DatfileEntry| game_of(e, *sys));
    let ghost ks = gs.map_values(|g: GameView| game_key(g));
    let mut games: Vec<GameEntry> = Vec::new();
    let mut keys: Vec<SortKey> = Vec::new();
    assert(game_views(games@) =~= gs.take(0));
    assert(order::key_views(keys@) =~= ks.take(0));
    for i in 0..entries.len()
        invariant
            gs == entries@.map_values(|e: DatfileEntry| game_of(e, *sys)),
            ks == gs.map_values(|g: GameView| game_key(g)),
            game_views(games@) == gs.take(i as int),
            order::key_views(keys@) == ks.take(i as int),
            games@.len() == i,
            keys@.len() == i,
    {
        let g = build_game(&entries[i], sys);
        let mut ts: Vec<String> = Vec::new();
        ts.push(to_lowercase(g.name.as_str()));
        let key = SortKey { rank: 0, texts: ts, last: 0 };
        let ghost before = games@;
        let ghost before_keys = keys@;
        assert(g@ == gs[i as int]);
        assert(text::texts(ts@) =~= seq![unicode::lowercase(g.name@)]);
        assert(key@ == ks[i as int]);
        games.push(g);
        keys.push(key);
        assert(game_views(games@) =~= game_views(before).push(gs[i as int]));
        assert(order::key_views(keys@) =~= order::key_views(before_keys).push(ks[i as int]));
        assert(gs.take(i + 1) =~= gs.take(i as int).push(gs[i as int]));
        assert(ks.take(i + 1) =~= ks.take(i as int).push(ks[i as int]));
    }
    assert(gs.take(gs.len() as int) =~= gs);
    assert(ks.take(ks.len() as int) =~= ks);
    let order = sort_positions(&keys);
    proof {
        order::law_stable_order(ks);
    }
    let sorted = arrange(games, &order);
    assert(game_views(sorted@) =~= sorted_games(entries@, *sys));
    sorted
}

/// A file in the text of a DAT.
pub open spec fn rom_xml(r: RomView) -> Seq<char> {
    "\t\t<rom name=\""@ + escaped(r.name) + "\" size=\""@ + numbers::int_text(r.size) + "\" crc=\""@ + r.crc
        + "\" md5=\""@ + r.md5 + "\" sha1=\""@ + r.sha1 + "\"/>\n"@
}

/// Files in the text of a DAT.
pub open spec fn roms_xml(v: Seq<RomView>) -> Seq<char>
    decreases v.len(),
{
    if v.len() == 0 {
        Seq::empty()
    } else {
        roms_xml(v.drop_last()) + rom_xml(v.last())
    }
}

/// A disc in the text of a DAT.
pub open spec fn game_xml(g: GameView) -> Seq<char> {
    "\t<game name=\""@ + escaped(g.name) + "\" id=\""@ + numbers::int_text(g.id as int)
        + "\">\n\t\t<category>"@ + escaped(g.category) + "</category>\n\t\t<description>"@ + escaped(
        g.name,
    ) + "</description>\n"@ + roms_xml(g.roms) + "\t</game>\n"@
}

/// Discs in the text of a DAT.
pub open spec fn games_xml(v: Seq<GameView>) -> Seq<char>
    decreases v.len(),
{
    if v.len() == 0 {
        Seq::empty()
    } else {
        games_xml(v.drop_last()) + game_xml(v.last())
    }
}

/// The head of a DAT.
pub open spec fn head_xml(metadata: ArchiveMetadata, name: Seq<char>, title: Seq<char>, ts: Seq<char>) -> Seq<
    char,
> {
    "<?xml version=\"1.0\"?>\n<!DOCTYPE datafile PUBLIC \"-//Logiqx//DTD ROM Management Datafile//EN\" \"http://www.logiqx.com/Dats/datafile.dtd\">\n<datafile>\n\t<header>\n\t\t<name>"@
        + escaped(name) + "</name>\n\t\t<description>"@ + escaped(title)
        + "</description>\n\t\t<version>"@ + escaped(ts) + "</version>\n\t\t<date>"@ + escaped(ts)
        + "</date>\n\t\t<author>"@ + escaped(metadata.author@) + "</author>\n\t\t<homepage>"@ + escaped(
        metadata.homepage@,
    ) + "</homepage>\n\t\t<url>"@ + escaped(metadata.url@) + "</url>\n\t</header>\n"@
}

/// The text of a system's DAT.
pub open spec fn datfile(
    metadata: ArchiveMetadata,
    sys: System,
    entries: Seq<DatfileEntry>,
    now: int,
) -> Seq<char> {
    head_xml(
        metadata,
        archive_system_name(sys),
        archive_title(sys, "Datfile"@, entries.len(), now),
        clock::time_text(now, ARCHIVE_STAMP@),
    ) + games_xml(sorted_games(entries, sys)) + "</datafile>\n"@
}

fn write_rom(r: &RomEntry) -> (s: String)
    ensures
        s@ == rom_xml(r@),
{
    let mut s = String::from_str("\t\t<rom name=\"");
    s.append(html_escape(r.name.as_str()).as_str());
    s.append("\" size=\"");
    s.append(write_i64(r.size).as_str());
    s.append("\" crc=\"");
    s.append(r.crc.as_str());
    s.append("\" md5=\"");
    s.append(r.md5.as_str());
    s.append("\" sha1=\"");
    s.append(r.sha1.as_str());
    s.append("\"/>\n");
    s
}

fn write_roms(v: &Vec<RomEntry>) -> (s: String)
    ensures
        s@ == roms_xml(rom_views(v@)),
{
    let ghost all = rom_views(v@);
    let mut s = String::new();
    assert(all.take(0) =~= Seq::<RomView>::empty());
    assert(s@ =~= Seq::<char>::empty());
    for i in 0..v.len()
        invariant
            all == rom_views(v@),
            s@ == roms_xml(all.take(i as int)),
    {
        assert(all.take(i + 1).drop_last() =~= all.take(i as int));
        assert(all.take(i + 1).last() == v@[i as int]@);
        s.append(write_rom(&v[i]).as_str());
    }
    assert(all.take(all.len() as int) =~= all);
    s
}

fn write_game(g: &GameEntry) -> (s: String)
    ensures
        s@ == game_xml(g@),
{
    let name = html_escape(g.name.as_str());
    let mut s = String::from_str("\t<game name=\"");
    s.append(name.as_str());
    s.append("\" id=\"");
    s.append(write_i64(g.id as i64).as_str());
    s.append("\">\n\t\t<category>");
    s.append(html_escape(g.category.as_str()).as_str());
    s.append("</category>\n\t\t<description>");
    s.append(name.as_str());
    s.append("</description>\n");
    s.append(write_roms(&g.roms).as_str());
    s.append("\t</game>\n");
    s
}

fn write_games(v: &Vec<GameEntry>) -> (s: String)
    ensures
        s@ == games_xml(game_views(v@)),
{
    let ghost all = game_views(v@);
    let mut s = String::new();
    assert(all.take(0) =~= Seq::<GameView>::empty());
    assert(s@ =~= Seq::<char>::empty());
    for i in 0..v.len()
        invariant
            all == game_views(v@),
            s@ == games_xml(all.take(i as int)),
    {
        assert(all.take(i + 1).drop_last() =~= all.take(i as int));
        assert(all.take(i + 1).last() == v@[i as int]@);
        s.append(write_game(&v[i]).as_str());
    }
    assert(all.take(all.len() as int) =~= all);
    s
}

fn write_head(metadata: &ArchiveMetadata, name: &str, title: &str, ts: &str) -> (s: String)
    ensures
        s@ == head_xml(*metadata, name@, title@, ts@),
{
    let stamp = html_escape(ts);
    let mut s = String::from_str(
        "<?xml version=\"1.0\"?>\n<!DOCTYPE datafile PUBLIC \"-//Logiqx//DTD ROM Management Datafile//EN\" \"http://www.logiqx.com/Dats/datafile.dtd\">\n<datafile>\n\t<header>\n\t\t<name>",
    );
    s.append(html_escape(name).as_str());
    s.append("</name>\n\t\t<description>");
    s.append(html_escape(title).as_str());
    s.append("</description>\n\t\t<version>");
    s.append(stamp.as_str());
    s.append("</version>\n\t\t<date>");
    s.append(stamp.as_str());
    s.append("</date>\n\t\t<author>");
    s.append(html_escape(metadata.author.as_str()).as_str());
    s.append("</author>\n\t\t<homepage>");
    s.append(html_escape(metadata.homepage.as_str()).as_str());
    s.append("</homepage>\n\t\t<url>");
    s.append(html_escape(metadata.url.as_str()).as_str());
    s.append("</url>\n\t</header>\n");
    s
}

/// The text of a system's DAT.
pub fn write_datfile(
    metadata: &ArchiveMetadata,
    sys: &System,
    entries: &Vec<DatfileEntry>,
    now: i64,
) -> (r: String)
    ensures
        r@ == datfile(*metadata, *sys, entries@, now as int),
{
    let name = dat_system_name(sys);
    let title = write_archive_title(sys, "Datfile", entries.len(), now);
    let ts = write_time(now, ARCHIVE_STAMP);
    let mut s = write_head(metadata, name.as_str(), title.as_str(), ts.as_str());
    let games = build_games(entries, sys);
    s.append(write_games(&games).as_str());
    s.append("</datafile>\n");
    s
}

fn bytes_of(s: &str) -> (r: Vec<u8>)
    ensures
        r@ == encode_utf8(s@),
{
    let b = s.as_bytes();
    let mut out: Vec<u8> = Vec::new();
    for i in 0..b.len()
        invariant
            out@ == b@.take(i as int),
    {
        out.push(b[i]);
        assert(out@ =~= b@.take(i + 1));
    }
    assert(b@.take(b@.len() as int) =~= b@);
    out
}

/// The archive of a system's DAT.
pub fn generate_datfile_archive(
    metadata: &ArchiveMetadata,
    sys: &System,
    entries: &Vec<DatfileEntry>,
    now: i64,
) -> (r: Result<ArchiveResult, AppError>)
    ensures
        match r {
            Ok(a) => {
                let title = archive_title(*sys, "Datfile"@, entries@.len(), now as int);
                &&& a.filename@ == title + ".zip"@
                &&& zip_file::archived(a.data@) == seq![
                    (title + ".dat"@, encode_utf8(datfile(*metadata, *sys, entries@, now as int))),
                ]
            },
            Err(e) => e@ is Internal,
        },
        ({
            let title = archive_title(*sys, "Datfile"@, entries@.len(), now as int);
            let dat = encode_utf8(datfile(*metadata, *sys, entries@, now as int));
            &&& encode_utf8(title + ".dat"@).len() > NAME_LIMIT ==> r is Err
            &&& encode_utf8(title + ".dat"@).len() <= NAME_LIMIT && dat.len() + FILE_OVERHEAD
                <= ARCHIVE_LIMIT ==> r is Ok
        }),
{
    let title = write_archive_title(sys, "Datfile", entries.len(), now);
    let xml = write_datfile(metadata, sys, entries, now);
    let file = ArchiveFile {
        name: cat2(title.as_str(), ".dat"),
        data: bytes_of(xml.as_str()),
    };
    let ghost entry = (file.name@, file.data@);
    let mut files: Vec<ArchiveFile> = Vec::new();
    files.push(file);
    assert(zip_file::file_entries(files@) =~= seq![entry]);
    proof {
        let v = zip_file::file_entries(files@);
        assert(v[0] == entry);
        assert(v.drop_last() =~= Seq::<(Seq<char>, Seq<u8>)>::empty());
        reveal_with_fuel(zip_file::archive_room, 2);
    }
    match pack_files(&files) {
        Ok(data) => Ok(ArchiveResult { data, filename: cat2(title.as_str(), ".zip") }),
        Err(e) => Err(e),
    }
}

// ── One file for each disc ─────────────────────────────────────────────────

/// A disc that has a file in an archive.
#[derive(Debug)]
pub struct ArchiveDisc {
    pub title: String,
    pub disc_number: Option<String>,
    pub disc_title: Option<String>,
    pub filename_suffix: Option<String>,
    pub region_names: Vec<String>,
    pub language_codes: Vec<String>,
    pub content: Vec<u8>,
}

/// The file of a disc in an archive.
pub open spec fn disc_file(d: ArchiveDisc, ext: Seq<char>) -> (Seq<char>, Seq<u8>) {
    (
        naming::rom_base_name(
            d.title@,
            text::texts(d.region_names@),
            text::texts(d.language_codes@),
            text::opt_text(d.disc_number),
            text::opt_text(d.disc_title),
            text::opt_text(d.filename_suffix),
        ) + ext,
        d.content@,
    )
}

/// The files of discs in an archive.
pub open spec fn disc_files(v: Seq<ArchiveDisc>, ext: Seq<char>) -> Seq<(Seq<char>, Seq<u8>)> {
    v.map_values(|d: ArchiveDisc| disc_file(d, ext))
}

fn copy_bytes(b: &Vec<u8>) -> (r: Vec<u8>)
    ensures
        r@ == b@,
{
    let mut out: Vec<u8> = Vec::new();
    for i in 0..b.len()
        invariant
            out@ == b@.take(i as int),
    {
        out.push(b[i]);
        assert(out@ =~= b@.take(i + 1));
    }
    assert(b@.take(b@.len() as int) =~= b@);
    out
}

fn build_disc_files(discs: &Vec<ArchiveDisc>, ext: &str) -> (r: Vec<ArchiveFile>)
    ensures
        zip_file::file_entries(r@) == disc_files(discs@, ext@),
{
    let ghost all = disc_files(discs@, ext@);
    let mut out: Vec<ArchiveFile> = Vec::new();
    assert(zip_file::file_entries(out@) =~= all.take(0));
    for i in 0..discs.len()
        invariant
            all == disc_files(discs@, ext@),
            zip_file::file_entries(out@) == all.take(i as int),
    {
        let d = &discs[i];
        let base = build_rom_base_name(
            d.title.as_str(),
            &d.region_names,
            &d.language_codes,
            opt_ref(&d.disc_number),
            opt_ref(&d.disc_title),
            opt_ref(&d.filename_suffix),
        );
        let f = ArchiveFile { name: cat2(base.as_str(), ext), data: copy_bytes(&d.content) };
        let ghost before = out@;
        out.push(f);
        assert(zip_file::file_entries(out@) =~= zip_file::file_entries(before).push(all[i as int]));
        assert(all.take(i + 1) =~= all.take(i as int).push(all[i as int]));
    }
    assert(all.take(all.len() as int) =~= all);
    out
}

/// An archive with one file for each disc.
pub open spec fn is_disc_archive(
    a: ArchiveResult,
    sys: System,
    what: Seq<char>,
    discs: Seq<ArchiveDisc>,
    ext: Seq<char>,
    now: int,
) -> bool {
    a.filename@ == archive_title(sys, what, discs.len(), now) + ".zip"@ && zip_file::archived(a.data@)
        == disc_files(discs, ext)
}

fn pack_discs(sys: &System, what: &str, discs: &Vec<ArchiveDisc>, ext: &str, now: i64) -> (r: Result<
    ArchiveResult,
    AppError,
>)
    ensures
        match r {
            Ok(a) => is_disc_archive(a, *sys, what@, discs@, ext@, now as int),
            Err(e) => e@ is Internal,
        },
        zip_file::packable(disc_files(discs@, ext@)) ==> r is Ok,
        !zip_file::names_fit(disc_files(discs@, ext@)) ==> r is Err,
{
    let files = build_disc_files(discs, ext);
    let title = write_archive_title(sys, what, discs.len(), now);
    match pack_files(&files) {
        Ok(data) => Ok(ArchiveResult { data, filename: cat2(title.as_str(), ".zip") }),
        Err(e) => Err(e),
    }
}

/// The archive of a system's cuesheets; a system without media that have them has none.
pub fn generate_cuesheet_archive(
    sys: &System,
    has_cue_media: bool,
    discs: &Vec<ArchiveDisc>,
    now: i64,
) -> (r: Result<ArchiveResult, AppError>)
    ensures
        match r {
            Ok(a) => has_cue_media && is_disc_archive(
                a,
                *sys,
                "Cuesheets"@,
                discs@,
                ".cue"@,
                now as int,
            ),
            Err(e) => if has_cue_media {
                e@ is Internal
            } else {
                e@ == ErrorView::NotFound
            },
        },
        has_cue_media && zip_file::packable(disc_files(discs@, ".cue"@)) ==> r is Ok,
        !zip_file::names_fit(disc_files(discs@, ".cue"@)) ==> r is Err,
{
    if !has_cue_media {
        return Err(AppError::NotFound);
    }
    pack_discs(sys, "Cuesheets", discs, ".cue", now)
}

/// The archive of a system's disc keys; a system without keys has none.
pub fn generate_key_archive(sys: &System, discs: &Vec<ArchiveDisc>, now: i64) -> (r: Result<
    ArchiveResult,
    AppError,
>)
    ensures
        match r {
            Ok(a) => sys.has_key && is_disc_archive(
                a,
                *sys,
                "Keys"@,
                discs@,
                ".key"@,
                now as int,
            ),
            Err(e) => if sys.has_key {
                e@ is Internal
            } else {
                e@ == ErrorView::NotFound
            },
        },
        sys.has_key && zip_file::packable(disc_files(discs@, ".key"@)) ==> r is Ok,
        !zip_file::names_fit(disc_files(discs@, ".key"@)) ==> r is Err,
{
    if !sys.has_key {
        return Err(AppError::NotFound);
    }
    pack_discs(sys, "Keys", discs, ".key", now)
}

/// The archive of a system's subchannel data; a system without it has none.
pub fn generate_sbi_archive(sys: &System, discs: &Vec<ArchiveDisc>, now: i64) -> (r: Result<
    ArchiveResult,
    AppError,
>)
    ensures
        match r {
            Ok(a) => sys.has_sbi && is_disc_archive(
                a,
                *sys,
                "SBI Subchannels"@,
                discs@,
                ".sbi"@,
                now as int,
            ),
            Err(e) => if sys.has_sbi {
                e@ is Internal
            } else {
                e@ == ErrorView::NotFound
            },
        },
        sys.has_sbi && zip_file::packable(disc_files(discs@, ".sbi"@)) ==> r is Ok,
        !zip_file::names_fit(disc_files(discs@, ".sbi"@)) ==> r is Err,
{
    if !sys.has_sbi {
        return Err(AppError::NotFound);
    }
    pack_discs(sys, "SBI Subchannels", discs, ".sbi", now)
}

// ── Laws ───────────────────────────────────────────────────────────────────

/// In a DAT the cuesheet of a disc stands before every other file of it.
pub proof fn law_cuesheets_come_first(v: Seq<RomView>, i: int, j: int)
    requires
        0 <= i < j < v.len(),
        sorted_roms(v)[j].is_cue,
    ensures
        sorted_roms(v)[i].is_cue,
{
    let ks = v.map_values(|r: RomView| rom_key(r));
    order::law_stable_order(ks);
    let o = order::stable_order(ks);
    assert(sorted_roms(v)[i] == v[o[i]]);
    assert(sorted_roms(v)[j] == v[o[j]]);
    assert(ks[o[i]] == rom_key(v[o[i]]));
    assert(ks[o[j]] == rom_key(v[o[j]]));
    if !v[o[i]].is_cue {
        assert(order::key_less(ks[o[j]], ks[o[i]]));
    }
}

/// A cuesheet is in a DAT only where cuesheets are used; every track is.
pub proof fn law_tracks_are_kept(files: Seq<File>, base: Seq<char>, total: nat, ext: Seq<char>)
    ensures
        roms_of(files, true, base, total, ext).len() == files.len(),
        roms_of(files, false, base, total, ext).len() == tracks_among(files),
    decreases files.len(),
{
    if files.len() > 0 {
        law_tracks_are_kept(files.drop_last(), base, total, ext);
    }
}

} // verus!
