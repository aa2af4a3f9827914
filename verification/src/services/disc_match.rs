//! Whether submitted files are those of a disc that is already known.

use vstd::prelude::*;

use crate::models::{self, File, eq_ignore_case, extract_track_from_filename};
use crate::numbers::{self, read_i32};
use crate::order::{self, KeyView, SortKey, sort_positions};
use crate::services::disc_update::{self, FileView, read_size};
use crate::services::hex_dump;
use crate::services::validation::chars_attribute;
use crate::text::{
    self, chars_all_hex, chars_lines, chars_of, chars_start_with, chars_trim, str_is_blank,
    str_lower, str_trim,
};

verus! {

/// The discs that may hold a file with a given SHA-1.
pub const DAT_MATCH_CANDIDATES_SQL: &'static str =
    "SELECT DISTINCT f.disc_id
         FROM files f
         JOIN discs d ON d.id = f.disc_id
         WHERE LOWER(f.sha1) = LOWER($1)
           AND d.status <> 'Disabled'
           AND ($2::INT IS NULL OR f.disc_id <> $2)";

/// The disc with a given universal hash.
pub const UNIVERSAL_HASH_MATCH_SQL: &'static str =
    "SELECT id
         FROM discs
         WHERE universal_hash = $1
           AND status <> 'Disabled'
           AND ($2::INT IS NULL OR id <> $2)
         ORDER BY id
         LIMIT 1";

/// A file of a submitted DAT.
pub struct RomEntry {
    pub track_number: Option<String>,
    pub size: i64,
    pub crc32: String,
    pub md5: String,
    pub sha1: String,
}

impl View for RomEntry {
    type V = FileView;

    open spec fn view(&self) -> FileView {
        FileView {
            track_number: text::opt_text(self.track_number),
            size: self.size as int,
            crc32: self.crc32@,
            md5: self.md5@,
            sha1: self.sha1@,
        }
    }
}

/// The submitted files.
pub open spec fn rom_views(v: Seq<RomEntry>) -> Seq<FileView> {
    v.map_values(|e: RomEntry| e@)
}

/// What a stored file is matched by.
pub open spec fn stored_view(f: File) -> FileView {
    FileView {
        track_number: text::opt_text(f.track_number),
        size: f.size as int,
        crc32: f.crc32@,
        md5: f.md5@,
        sha1: f.sha1@,
    }
}

/// What the stored files are matched by.
pub open spec fn stored_views(v: Seq<File>) -> Seq<FileView> {
    v.map_values(|f: File| stored_view(f))
}

/// A hash attribute, trimmed and in small letters.
pub open spec fn hash_attribute(line: Seq<char>, attr: Seq<char>) -> Seq<char> {
    text::lower_text(text::trim(disc_update::attribute_or_empty(line, attr)))
}

/// The file that a line of a DAT stands for.
pub open spec fn rom_of_line(line: Seq<char>) -> FileView {
    FileView {
        track_number: models::track_of_name(disc_update::attribute_or_empty(line, "name"@)),
        size: disc_update::size_of_line(line),
        crc32: hash_attribute(line, "crc"@),
        md5: hash_attribute(line, "md5"@),
        sha1: hash_attribute(line, "sha1"@),
    }
}

/// The files of a DAT: one for each line that begins with `<rom `.
pub open spec fn rom_entries(ls: Seq<Seq<char>>) -> Seq<FileView>
    decreases ls.len(),
{
    if ls.len() == 0 {
        Seq::empty()
    } else {
        let before = rom_entries(ls.drop_last());
        if text::starts_with(text::trim(ls.last()), "<rom "@) {
            before.push(rom_of_line(text::trim(ls.last())))
        } else {
            before
        }
    }
}

fn read_attribute(line: &[char], attr: &str) -> (r: String)
    ensures
        r@ == disc_update::attribute_or_empty(line@, attr@),
{
    match chars_attribute(line, attr) {
        Some(v) => v,
        None => String::new(),
    }
}

/// A hash attribute, trimmed and in small letters; none is the empty text.
pub fn normalize_hash_attr(value: Option<String>) -> (r: String)
    ensures
        r@ == (match value {
            Some(v) => text::lower_text(text::trim(v@)),
            None => Seq::empty(),
        }),
{
    match value {
        Some(v) => str_lower(str_trim(v.as_str()).as_str()),
        None => String::new(),
    }
}

fn read_rom(line: &[char]) -> (r: RomEntry)
    ensures
        r@ == rom_of_line(line@),
{
    let name = read_attribute(line, "name");
    assert(text::lower_text(text::trim(Seq::empty())) =~= Seq::<char>::empty());
    RomEntry {
        track_number: extract_track_from_filename(name.as_str()),
        size: read_size(line),
        crc32: normalize_hash_attr(chars_attribute(line, "crc")),
        md5: normalize_hash_attr(chars_attribute(line, "md5")),
        sha1: normalize_hash_attr(chars_attribute(line, "sha1")),
    }
}

/// The files of a DAT.
pub fn parse_rom_entries(files_xml: &str) -> (r: Vec<RomEntry>)
    ensures
        rom_views(r@) == rom_entries(text::lines(files_xml@)),
{
    let chars = chars_of(files_xml);
    let ls = chars_lines(&chars);
    let ghost all = text::slices(ls@);
    let mut out: Vec<RomEntry> = Vec::new();
    assert(rom_views(out@) =~= rom_entries(all.take(0)));
    for i in 0..ls.len()
        invariant
            all == text::slices(ls@),
            all == text::lines(files_xml@),
            rom_views(out@) == rom_entries(all.take(i as int)),
    {
        let line = chars_trim(ls[i]);
        let ghost before = out@;
        proof {
            let t = all.take(i + 1);
            assert(t.drop_last() =~= all.take(i as int));
            assert(t.last() == ls@[i as int]@);
        }
        if chars_start_with(line, "<rom ") {
            let row = read_rom(line);
            out.push(row);
            assert(rom_views(out@) =~= rom_views(before).push(row@));
        }
    }
    assert(all.take(all.len() as int) =~= all);
    out
}

// ── Hashes ─────────────────────────────────────────────────────────────────

/// `hex::decode`: the bytes of pairs of hexadecimal digits, if the text is made of
/// nothing else.
#[verifier::external_body]
fn hex_decode(text: &str) -> (r: Option<Vec<u8>>)
    ensures
        match r {
            Some(b) => text::all_hex(text@) && text@.len() % 2 == 0 && b@ == hex_dump::hex_bytes(text@),
            None => !text::all_hex(text@) || text@.len() % 2 != 0,
        },
{
    hex::decode(text).ok()
}

/// The bytes of a universal hash, if the text is forty hexadecimal digits.
pub open spec fn matching_hash(text: Option<Seq<char>>) -> Option<Seq<u8>> {
    match text {
        Some(t) => if text::trim(t).len() == 40 && text::all_hex(text::trim(t)) {
            Some(hex_dump::hex_bytes(text::trim(t)))
        } else {
            None
        },
        None => None,
    }
}

/// The view of optional bytes.
pub open spec fn opt_bytes(r: Option<Vec<u8>>) -> Option<Seq<u8>> {
    match r {
        Some(b) => Some(b@),
        None => None,
    }
}

/// The bytes of a universal hash to match by.
pub fn universal_hash_bytes_for_matching(universal_hash: Option<&str>) -> (r: Option<Vec<u8>>)
    ensures
        opt_bytes(r) == matching_hash(text::opt_str(universal_hash)),
{
    match universal_hash {
        None => None,
        Some(h) => {
            let text = str_trim(h);
            let chars = chars_of(text.as_str());
            if chars.len() != 40 || !chars_all_hex(&chars) {
                return None;
            }
            hex_decode(text.as_str())
        },
    }
}

/// The disc that two searches agree on: one found it alone, or both found the same.
pub open spec fn agreed(a: Option<i32>, b: Option<i32>) -> Option<i32> {
    match (a, b) {
        (None, None) => None,
        (Some(x), None) => Some(x),
        (None, Some(x)) => Some(x),
        (Some(x), Some(y)) => if x == y {
            Some(x)
        } else {
            None
        },
    }
}

/// The disc that the search by files and the search by universal hash agree on.
pub fn resolve_exact_disc_match(dat_match: Option<i32>, universal_hash_match: Option<i32>) -> (r:
    Option<i32>)
    ensures
        r == agreed(dat_match, universal_hash_match),
{
    match (dat_match, universal_hash_match) {
        (None, None) => None,
        (Some(disc_id), None) => Some(disc_id),
        (None, Some(disc_id)) => Some(disc_id),
        (Some(a), Some(b)) => if a == b {
            Some(a)
        } else {
            None
        },
    }
}

/// An input to search by: its trimmed text, if there is any.
pub open spec fn search_input(text: Option<Seq<char>>) -> Option<Seq<char>> {
    match text {
        Some(t) => if text::is_blank(t) {
            None
        } else {
            Some(text::trim(t))
        },
        None => None,
    }
}

/// The trimmed text to search by, if there is any.
pub fn nonempty_input(text: Option<&str>) -> (r: Option<String>)
    ensures
        text::opt_text(r) == search_input(text::opt_str(text)),
{
    match text {
        Some(t) => if str_is_blank(t) {
            None
        } else {
            Some(str_trim(t))
        },
        None => None,
    }
}

// ── Files ──────────────────────────────────────────────────────────────────

/// The number of a track.
pub open spec fn track_value(track: Option<Seq<char>>) -> Option<int> {
    match track {
        Some(t) => numbers::i32_value(text::trim(t)),
        None => None,
    }
}

/// The number of a track.
pub fn track_number_value(track_number: Option<&str>) -> (r: Option<i32>)
    ensures
        match r {
            Some(n) => track_value(text::opt_str(track_number)) == Some(n as int),
            None => track_value(text::opt_str(track_number)) is None,
        },
{
    match track_number {
        Some(t) => {
            let chars = chars_of(t);
            read_i32(chars_trim(&chars))
        },
        None => None,
    }
}

/// The numbers of the tracks of files, if each has one and no two have the same.
pub open spec fn tracks(fs: Seq<FileView>) -> Option<Seq<int>>
    decreases fs.len(),
{
    if fs.len() == 0 {
        Some(Seq::empty())
    } else {
        match (tracks(fs.drop_last()), track_value(fs.last().track_number)) {
            (Some(before), Some(n)) => if before.contains(n) {
                None
            } else {
                Some(before.push(n))
            },
            _ => None,
        }
    }
}

/// Two files have the same size and the same hashes, in whatever case.
pub open spec fn same_content(a: FileView, b: FileView) -> bool {
    &&& a.size == b.size
    &&& models::same_ignoring_case(a.crc32, b.crc32)
    &&& models::same_ignoring_case(a.md5, b.md5)
    &&& models::same_ignoring_case(a.sha1, b.sha1)
}

/// The file with a track number has the content of `f`.
pub open spec fn track_has_content(files: Seq<FileView>, ts: Seq<int>, n: int, f: FileView) -> bool {
    exists|j: int|
        0 <= j < ts.len() && #[trigger] ts[j] == n && j < files.len() && same_content(files[j], f)
}

/// Every submitted file has the content of the stored file with its track number.
pub open spec fn match_by_track(
    files: Seq<FileView>,
    ts: Seq<int>,
    submitted: Seq<FileView>,
    us: Seq<int>,
) -> bool {
    forall|i: int|
        0 <= i < us.len() ==> track_has_content(files, ts, #[trigger] us[i], submitted[i])
}

/// What files without usable numbers are ordered by.
pub open spec fn track_key(f: FileView) -> KeyView {
    KeyView {
        rank: match track_value(f.track_number) {
            Some(n) => n,
            None => i64::MIN as int,
        },
        texts: seq![
            match f.track_number {
                Some(t) => t,
                None => Seq::empty(),
            },
        ],
        last: 0,
    }
}

/// Files in the order of their tracks.
pub open spec fn in_track_order(fs: Seq<FileView>) -> Seq<FileView> {
    order::arranged(fs, order::stable_order(fs.map_values(|f: FileView| track_key(f))))
}

/// Two lists of files have the same contents, one by one.
pub open spec fn same_contents(a: Seq<FileView>, b: Seq<FileView>) -> bool {
    forall|i: int| 0 <= i < a.len() ==> same_content(#[trigger] a[i], b[i])
}

/// Submitted files are the files of a disc.
pub open spec fn files_match(files: Seq<FileView>, submitted: Seq<FileView>) -> bool {
    &&& files.len() == submitted.len()
    &&& match (tracks(submitted), tracks(files)) {
        (Some(us), Some(ts)) => match_by_track(files, ts, submitted, us),
        _ => same_contents(in_track_order(files), in_track_order(submitted)),
    }
}

fn contains_number(v: &Vec<i32>, n: i32) -> (r: bool)
    ensures
        r == v@.contains(n),
{
    for i in 0..v.len()
        invariant
            forall|k: int| 0 <= k < i ==> v@[k] != n,
    {
        if v[i] == n {
            return true;
        }
    }
    false
}

/// Numbers as integers.
pub open spec fn numbers(v: Seq<i32>) -> Seq<int> {
    v.map_values(|n: i32| n as int)
}

proof fn lemma_numbers_contain(v: Seq<i32>, n: i32)
    ensures
        v.contains(n) == numbers(v).contains(n as int),
{
    if v.contains(n) {
        let k = choose|k: int| 0 <= k < v.len() && v[k] == n;
        assert(numbers(v)[k] == n as int);
    }
    if numbers(v).contains(n as int) {
        let k = choose|k: int| 0 <= k < v.len() && numbers(v)[k] == n as int;
        assert(v[k] == n);
    }
}

/// Adds the number of a track; `false` where it has none or another has the same.
fn push_track(out: &mut Vec<i32>, track: Option<&str>) -> (r: bool)
    ensures
        match track_value(text::opt_str(track)) {
            Some(n) => r == !numbers(old(out)@).contains(n) && (r ==> numbers(final(out)@)
                == numbers(old(out)@).push(n)),
            None => !r,
        },
{
    match track_number_value(track) {
        None => false,
        Some(n) => {
            proof {
                lemma_numbers_contain(out@, n);
            }
            if contains_number(out, n) {
                return false;
            }
            let ghost before = out@;
            out.push(n);
            assert(numbers(out@) =~= numbers(before).push(n as int));
            true
        },
    }
}

proof fn lemma_tracks_fail(fs: Seq<FileView>, i: int)
    requires
        0 <= i <= fs.len(),
        tracks(fs.take(i)) is None,
    ensures
        tracks(fs) is None,
    decreases fs.len() - i,
{
    if i < fs.len() {
        assert(fs.take(i + 1).drop_last() =~= fs.take(i));
        lemma_tracks_fail(fs, i + 1);
    } else {
        assert(fs.take(i) =~= fs);
    }
}

/// The numbers of the tracks of submitted files.
pub fn submitted_by_track(submitted: &Vec<RomEntry>) -> (r: Option<Vec<i32>>)
    ensures
        match r {
            Some(v) => tracks(rom_views(submitted@)) == Some(numbers(v@)),
            None => tracks(rom_views(submitted@)) is None,
        },
{
    let ghost fs = rom_views(submitted@);
    let mut out: Vec<i32> = Vec::new();
    assert(fs.take(0) =~= Seq::<FileView>::empty());
    assert(numbers(out@) =~= Seq::<int>::empty());
    for i in 0..submitted.len()
        invariant
            fs == rom_views(submitted@),
            tracks(fs.take(i as int)) == Some(numbers(out@)),
    {
        proof {
            assert(fs.take(i + 1).drop_last() =~= fs.take(i as int));
            assert(fs.take(i + 1).last() == submitted@[i as int]@);
        }
        let track: Option<&str> = match &submitted[i].track_number {
            Some(t) => Some(t.as_str()),
            None => None,
        };
        if !push_track(&mut out, track) {
            proof {
                lemma_tracks_fail(fs, i + 1);
            }
            return None;
        }
    }
    assert(fs.take(fs.len() as int) =~= fs);
    Some(out)
}

/// The numbers of the tracks of stored files.
pub fn files_by_track(files: &Vec<File>) -> (r: Option<Vec<i32>>)
    ensures
        match r {
            Some(v) => tracks(stored_views(files@)) == Some(numbers(v@)),
            None => tracks(stored_views(files@)) is None,
        },
{
    let ghost fs = stored_views(files@);
    let mut out: Vec<i32> = Vec::new();
    assert(fs.take(0) =~= Seq::<FileView>::empty());
    assert(numbers(out@) =~= Seq::<int>::empty());
    for i in 0..files.len()
        invariant
            fs == stored_views(files@),
            tracks(fs.take(i as int)) == Some(numbers(out@)),
    {
        proof {
            assert(fs.take(i + 1).drop_last() =~= fs.take(i as int));
            assert(fs.take(i + 1).last() == stored_view(files@[i as int]));
        }
        let track: Option<&str> = match &files[i].track_number {
            Some(t) => Some(t.as_str()),
            None => None,
        };
        if !push_track(&mut out, track) {
            proof {
                lemma_tracks_fail(fs, i + 1);
            }
            return None;
        }
    }
    assert(fs.take(fs.len() as int) =~= fs);
    Some(out)
}

/// Whether a stored file has the content of a submitted one.
pub fn hashes_match(file: &File, submitted: &RomEntry) -> (r: bool)
    ensures
        r == same_content(stored_view(*file), submitted@),
{
    file.size == submitted.size && eq_ignore_case(file.crc32.as_str(), submitted.crc32.as_str())
        && eq_ignore_case(file.md5.as_str(), submitted.md5.as_str()) && eq_ignore_case(
        file.sha1.as_str(),
        submitted.sha1.as_str(),
    )
}

fn track_sort_key(track: Option<&str>) -> (r: SortKey)
    ensures
        r@.rank == (match track_value(text::opt_str(track)) {
            Some(n) => n,
            None => i64::MIN as int,
        }),
        r@.texts == seq![
            match track {
                Some(t) => t@,
                None => Seq::empty(),
            },
        ],
        r@.last == 0,
{
    let rank: i64 = match track_number_value(track) {
        Some(n) => n as i64,
        None => i64::MIN,
    };
    let text = match track {
        Some(t) => String::from_str(t),
        None => String::new(),
    };
    let mut ts: Vec<String> = Vec::new();
    ts.push(text);
    let key = SortKey { rank, texts: ts, last: 0 };
    assert(text::texts(ts@) =~= seq![text@]);
    key
}

fn file_positions(files: &Vec<File>) -> (r: Vec<usize>)
    ensures
        order::positions(r@) == order::stable_order(
            stored_views(files@).map_values(|f: FileView| track_key(f)),
        ),
        r@.len() == files@.len(),
        forall|i: int| 0 <= i < r@.len() ==> #[trigger] r@[i] < files@.len(),
{
    let ghost ks = stored_views(files@).map_values(|f: FileView| track_key(f));
    let mut keys: Vec<SortKey> = Vec::new();
    for i in 0..files.len()
        invariant
            ks == stored_views(files@).map_values(|f: FileView| track_key(f)),
            keys@.len() == i,
            order::key_views(keys@) == ks.take(i as int),
    {
        let track: Option<&str> = match &files[i].track_number {
            Some(t) => Some(t.as_str()),
            None => None,
        };
        let key = track_sort_key(track);
        let ghost before = keys@;
        assert(key@ == ks[i as int]);
        keys.push(key);
        assert(order::key_views(keys@) =~= order::key_views(before).push(key@));
        assert(ks.take(i + 1) =~= ks.take(i as int).push(ks[i as int]));
    }
    assert(ks.take(ks.len() as int) =~= ks);
    let order = sort_positions(&keys);
    proof {
        order::law_stable_order(ks);
        assert forall|i: int| 0 <= i < order@.len() implies #[trigger] order@[i] < files@.len() by {
            assert(order::positions(order@)[i] == order@[i] as int);
        }
    }
    order
}

fn rom_positions(submitted: &Vec<RomEntry>) -> (r: Vec<usize>)
    ensures
        order::positions(r@) == order::stable_order(
            rom_views(submitted@).map_values(|f: FileView| track_key(f)),
        ),
        r@.len() == submitted@.len(),
        forall|i: int| 0 <= i < r@.len() ==> #[trigger] r@[i] < submitted@.len(),
{
    let ghost ks = rom_views(submitted@).map_values(|f: FileView| track_key(f));
    let mut keys: Vec<SortKey> = Vec::new();
    for i in 0..submitted.len()
        invariant
            ks == rom_views(submitted@).map_values(|f: FileView| track_key(f)),
            keys@.len() == i,
            order::key_views(keys@) == ks.take(i as int),
    {
        let track: Option<&str> = match &submitted[i].track_number {
            Some(t) => Some(t.as_str()),
            None => None,
        };
        let key = track_sort_key(track);
        let ghost before = keys@;
        assert(key@ == ks[i as int]);
        keys.push(key);
        assert(order::key_views(keys@) =~= order::key_views(before).push(key@));
        assert(ks.take(i + 1) =~= ks.take(i as int).push(ks[i as int]));
    }
    assert(ks.take(ks.len() as int) =~= ks);
    let order = sort_positions(&keys);
    proof {
        order::law_stable_order(ks);
        assert forall|i: int| 0 <= i < order@.len() implies #[trigger] order@[i]
            < submitted@.len() by {
            assert(order::positions(order@)[i] == order@[i] as int);
        }
    }
    order
}

fn find_track(ts: &Vec<i32>, n: i32) -> (r: Option<usize>)
    ensures
        match r {
            Some(k) => k < ts@.len() && ts@[k as int] == n,
            None => !ts@.contains(n),
        },
{
    for i in 0..ts.len()
        invariant
            forall|k: int| 0 <= k < i ==> ts@[k] != n,
    {
        if ts[i] == n {
            return Some(i);
        }
    }
    None
}

proof fn lemma_tracks(fs: Seq<FileView>)
    ensures
        tracks(fs) matches Some(ts) ==> ts.len() == fs.len() && (forall|i: int, j: int|
            0 <= i < j < ts.len() ==> #[trigger] ts[i] != #[trigger] ts[j]),
    decreases fs.len(),
{
    if fs.len() > 0 {
        lemma_tracks(fs.drop_last());
        if let (Some(before), Some(n)) = (
            tracks(fs.drop_last()),
            track_value(fs.last().track_number),
        ) {
            if !before.contains(n) {
                let ts = before.push(n);
                assert forall|i: int, j: int| 0 <= i < j < ts.len() implies #[trigger] ts[i]
                    != #[trigger] ts[j] by {
                    if j == before.len() {
                        assert(before.contains(before[i]));
                    }
                }
            }
        }
    }
}

fn match_tracks(
    files: &Vec<File>,
    ts: &Vec<i32>,
    submitted: &Vec<RomEntry>,
    us: &Vec<i32>,
) -> (r: bool)
    requires
        tracks(stored_views(files@)) == Some(numbers(ts@)),
        tracks(rom_views(submitted@)) == Some(numbers(us@)),
    ensures
        r == match_by_track(
            stored_views(files@),
            numbers(ts@),
            rom_views(submitted@),
            numbers(us@),
        ),
{
    let ghost fs = stored_views(files@);
    let ghost ss = rom_views(submitted@);
    let ghost tn = numbers(ts@);
    let ghost un = numbers(us@);
    proof {
        lemma_tracks(fs);
        lemma_tracks(ss);
    }
    for i in 0..us.len()
        invariant
            fs == stored_views(files@),
            ss == rom_views(submitted@),
            tn == numbers(ts@),
            un == numbers(us@),
            tn.len() == fs.len(),
            un.len() == ss.len(),
            forall|a: int, b: int| 0 <= a < b < tn.len() ==> #[trigger] tn[a] != #[trigger] tn[b],
            forall|k: int|
                0 <= k < i ==> track_has_content(fs, tn, #[trigger] un[k], ss[k]),
    {
        assert(un[i as int] == us@[i as int] as int);
        match find_track(ts, us[i]) {
            None => {
                proof {
                    lemma_numbers_contain(ts@, us@[i as int]);
                    if track_has_content(fs, tn, un[i as int], ss[i as int]) {
                        let j = choose|j: int|
                            0 <= j < tn.len() && #[trigger] tn[j] == un[i as int] && j < fs.len()
                                && same_content(fs[j], ss[i as int]);
                        assert(tn.contains(tn[j]));
                    }
                }
                return false;
            },
            Some(k) => {
                assert(tn[k as int] == un[i as int]);
                assert(fs[k as int] == stored_view(files@[k as int]));
                assert(ss[i as int] == submitted@[i as int]@);
                if !hashes_match(&files[k], &submitted[i]) {
                    return false;
                }
            },
        }
    }
    true
}

/// Whether submitted files are the files of a disc: the same number of files, and each
/// with the content of the file with its track number; where track numbers are missing
/// or repeat, the files are compared in the order of their tracks.
pub fn files_match_submission(files: &Vec<File>, submitted: &Vec<RomEntry>) -> (r: bool)
    ensures
        r == files_match(stored_views(files@), rom_views(submitted@)),
{
    if files.len() != submitted.len() {
        return false;
    }
    let us = submitted_by_track(submitted);
    let ts = files_by_track(files);
    if let (Some(u), Some(t)) = (&us, &ts) {
        return match_tracks(files, t, submitted, u);
    }
    match_in_order(files, submitted)
}

fn match_in_order(files: &Vec<File>, submitted: &Vec<RomEntry>) -> (r: bool)
    requires
        files@.len() == submitted@.len(),
    ensures
        r == same_contents(
            in_track_order(stored_views(files@)),
            in_track_order(rom_views(submitted@)),
        ),
{
    let a = file_positions(files);
    let b = rom_positions(submitted);
    let ghost fa = in_track_order(stored_views(files@));
    let ghost fb = in_track_order(rom_views(submitted@));
    for i in 0..a.len()
        invariant
            fa == in_track_order(stored_views(files@)),
            fb == in_track_order(rom_views(submitted@)),
            order::positions(a@) == order::stable_order(
                stored_views(files@).map_values(|f: FileView| track_key(f)),
            ),
            order::positions(b@) == order::stable_order(
                rom_views(submitted@).map_values(|f: FileView| track_key(f)),
            ),
            a@.len() == files@.len(),
            b@.len() == submitted@.len(),
            files@.len() == submitted@.len(),
            forall|k: int| 0 <= k < a@.len() ==> #[trigger] a@[k] < files@.len(),
            forall|k: int| 0 <= k < b@.len() ==> #[trigger] b@[k] < submitted@.len(),
            forall|k: int| 0 <= k < i ==> same_content(#[trigger] fa[k], fb[k]),
    {
        assert(order::positions(a@)[i as int] == a@[i as int] as int);
        assert(order::positions(b@)[i as int] == b@[i as int] as int);
        assert(fa[i as int] == stored_view(files@[a@[i as int] as int]));
        assert(fb[i as int] == submitted@[b@[i as int] as int]@);
        if !hashes_match(&files[a[i]], &submitted[b[i]]) {
            return false;
        }
    }
    true
}

/// The first candidate whose files the submitted ones are.
pub open spec fn first_match(
    ids: Seq<i32>,
    files: Seq<Seq<FileView>>,
    submitted: Seq<FileView>,
    i: int,
) -> Option<i32>
    decreases ids.len() - i,
{
    if i < 0 || i >= ids.len() {
        None
    } else if files_match(files[i], submitted) {
        Some(ids[i])
    } else {
        first_match(ids, files, submitted, i + 1)
    }
}

/// A disc that may be the submitted one, with its numbered files.
pub struct MatchCandidate {
    pub disc_id: i32,
    pub files: Vec<File>,
}

/// The ids of candidates.
pub open spec fn candidate_ids(v: Seq<MatchCandidate>) -> Seq<i32> {
    v.map_values(|c: MatchCandidate| c.disc_id)
}

/// The files of candidates.
pub open spec fn candidate_files(v: Seq<MatchCandidate>) -> Seq<Seq<FileView>> {
    v.map_values(|c: MatchCandidate| stored_views(c.files@))
}

/// The first candidate whose files the submitted ones are. No submitted file matches
/// no disc.
pub fn choose_matching_disc(submitted: &Vec<RomEntry>, candidates: &Vec<MatchCandidate>) -> (r:
    Option<i32>)
    ensures
        r == (if submitted@.len() == 0 {
            None
        } else {
            first_match(
                candidate_ids(candidates@),
                candidate_files(candidates@),
                rom_views(submitted@),
                0,
            )
        }),
{
    if submitted.len() == 0 {
        return None;
    }
    let ghost ids = candidate_ids(candidates@);
    let ghost fs = candidate_files(candidates@);
    for i in 0..candidates.len()
        invariant
            submitted@.len() > 0,
            ids == candidate_ids(candidates@),
            fs == candidate_files(candidates@),
            first_match(ids, fs, rom_views(submitted@), i as int) == first_match(
                ids,
                fs,
                rom_views(submitted@),
                0,
            ),
    {
        assert(fs[i as int] == stored_views(candidates@[i as int].files@));
        assert(ids[i as int] == candidates@[i as int].disc_id);
        if files_match_submission(&candidates[i].files, submitted) {
            return Some(candidates[i].disc_id);
        }
    }
    None
}

// ── Laws ───────────────────────────────────────────────────────────────────

/// Where every track has its own number, files match whatever order they are given in:
/// what is asked is only that each submitted file has the content of the stored file
/// with its number.
pub proof fn law_match_by_number(
    files: Seq<FileView>,
    submitted: Seq<FileView>,
    ts: Seq<int>,
    us: Seq<int>,
    i: int,
    j: int,
)
    requires
        tracks(files) == Some(ts),
        tracks(submitted) == Some(us),
        files_match(files, submitted),
        0 <= i < us.len(),
        0 <= j < ts.len(),
        ts[j] == us[i],
    ensures
        same_content(files[j], submitted[i]),
{
    lemma_tracks(files);
    assert(track_has_content(files, ts, us[i], submitted[i]));
    let k = choose|k: int|
        0 <= k < ts.len() && #[trigger] ts[k] == us[i] && k < files.len() && same_content(
            files[k],
            submitted[i],
        );
    if k < j {
        assert(ts[k] != ts[j]);
    } else if j < k {
        assert(ts[j] != ts[k]);
    }
}

/// Files match themselves.
pub proof fn law_files_match_themselves(files: Seq<FileView>)
    ensures
        files_match(files, files),
{
    if let Some(ts) = tracks(files) {
        lemma_tracks(files);
        assert forall|i: int| 0 <= i < ts.len() implies track_has_content(
            files,
            ts,
            #[trigger] ts[i],
            files[i],
        ) by {
            assert(same_content(files[i], files[i]));
        }
    }
}

/// Two searches that find different discs agree on none.
pub proof fn law_disagreement_matches_nothing(a: i32, b: i32)
    requires
        a != b,
    ensures
        agreed(Some(a), Some(b)) is None,
{
}

/// Two searches agree on a disc exactly if one of them found it and none found another.
pub proof fn law_searches_agree(a: Option<i32>, b: Option<i32>, x: i32)
    ensures
        agreed(a, b) == Some(x) <==> (a == Some(x) || b == Some(x)) && (a is Some ==> a == Some(x))
            && (b is Some ==> b == Some(x)),
        agreed(a, b) == agreed(b, a),
{
}

/// The size and the three hashes are those of another file.
pub open spec fn is_copy(a: FileView, b: FileView) -> bool {
    &&& a.size == b.size
    &&& text::lower_text(a.crc32) == text::lower_text(b.crc32)
    &&& text::lower_text(a.md5) == text::lower_text(b.md5)
    &&& text::lower_text(a.sha1) == text::lower_text(b.sha1)
}

/// Files match those of a disc only if there are as many and each of them is a copy of one
/// of the disc's.
pub proof fn law_matching_files_are_copies(
    files: Seq<FileView>,
    submitted: Seq<FileView>,
    i: int,
)
    requires
        files_match(files, submitted),
        0 <= i < submitted.len(),
    ensures
        files.len() == submitted.len(),
        exists|j: int| 0 <= j < files.len() && is_copy(#[trigger] files[j], submitted[i]),
{
    lemma_tracks(submitted);
    lemma_tracks(files);
    match (tracks(submitted), tracks(files)) {
        (Some(us), Some(ts)) => {
            assert(track_has_content(files, ts, us[i], submitted[i]));
            let j = choose|j: int|
                0 <= j < ts.len() && #[trigger] ts[j] == us[i] && j < files.len() && same_content(
                    files[j],
                    submitted[i],
                );
            assert(is_copy(files[j], submitted[i]));
        },
        _ => {
            let fk = files.map_values(|f: FileView| track_key(f));
            let sk = submitted.map_values(|f: FileView| track_key(f));
            order::law_stable_order(fk);
            order::law_stable_order(sk);
            let fo = order::stable_order(fk);
            let so = order::stable_order(sk);
            assert(so.contains(i));
            let k = choose|k: int| 0 <= k < so.len() && so[k] == i;
            let a = in_track_order(files);
            let b = in_track_order(submitted);
            assert(same_content(a[k], b[k]));
            assert(b[k] == submitted[i]);
            assert(a[k] == files[fo[k]]);
            assert(is_copy(files[fo[k]], submitted[i]));
        },
    }
}

/// The disc that is found for files is the first of the candidates whose files they match;
/// none is found only where they match those of none.
pub proof fn law_first_match_matches(
    ids: Seq<i32>,
    files: Seq<Seq<FileView>>,
    submitted: Seq<FileView>,
    i: int,
)
    requires
        0 <= i,
    ensures
        match first_match(ids, files, submitted, i) {
            Some(id) => exists|k: int|
                {
                    &&& i <= k < ids.len()
                    &&& #[trigger] ids[k] == id
                    &&& files_match(files[k], submitted)
                    &&& forall|j: int| i <= j < k ==> !files_match(#[trigger] files[j], submitted)
                },
            None => forall|j: int|
                i <= j < ids.len() ==> !files_match(#[trigger] files[j], submitted),
        },
    decreases ids.len() - i,
{
    if i < ids.len() {
        if files_match(files[i], submitted) {
            assert(ids[i] == ids[i]);
        } else {
            law_first_match_matches(ids, files, submitted, i + 1);
            if let Some(id) = first_match(ids, files, submitted, i + 1) {
                let k = choose|k: int|
                    {
                        &&& i + 1 <= k < ids.len()
                        &&& #[trigger] ids[k] == id
                        &&& files_match(files[k], submitted)
                        &&& forall|j: int|
                            i + 1 <= j < k ==> !files_match(#[trigger] files[j], submitted)
                    };
                assert(ids[k] == id);
            }
        }
    }
}

/// An input is searched for without the space around it, and not at all where it is blank.
pub proof fn law_inputs_are_trimmed(t: Seq<char>)
    ensures
        text::trim(t).len() > 0 ==> search_input(Some(t)) == Some(text::trim(t)),
        text::trim(t).len() == 0 ==> search_input(Some(t)) is None,
        search_input(None) is None,
{
}

} // verus!
