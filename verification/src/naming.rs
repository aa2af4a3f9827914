//! The names of discs and of their files, and cuesheets that use these names.

use vstd::prelude::*;

use crate::models;
use crate::numbers::{self, write_u64};
use crate::text::{
    self, cat2, cat3, cat4, cat5, char_upper, chars_index_from, chars_lines, chars_of,
    chars_start_with, chars_trim, join_strings, push_chars, push_str, str_eq, string_of,
};

verus! {

/// A remark in brackets behind a name.
pub open spec fn bracketed(s: Seq<char>) -> Seq<char> {
    " ("@ + s + ")"@
}

/// A remark in brackets, if there is one.
pub open spec fn bracketed_opt(s: Option<Seq<char>>, prefix: Seq<char>) -> Seq<char> {
    match s {
        Some(t) => bracketed(prefix + t),
        None => Seq::empty(),
    }
}

/// A language code with a capital.
pub open spec fn language_tag(s: Seq<char>) -> Seq<char> {
    if s.len() == 0 {
        s
    } else {
        seq![text::upper(s[0])] + s.skip(1)
    }
}

/// The name of a disc: its title, regions, languages if there is more than one, and
/// what tells it from the other discs of the title.
pub open spec fn rom_base_name(
    title: Seq<char>,
    regions: Seq<Seq<char>>,
    languages: Seq<Seq<char>>,
    disc_number: Option<Seq<char>>,
    disc_title: Option<Seq<char>>,
    suffix: Option<Seq<char>>,
) -> Seq<char> {
    title + (if regions.len() > 0 {
        bracketed(text::join(regions, ", "@))
    } else {
        Seq::empty()
    }) + (if languages.len() > 1 {
        bracketed(text::join(languages.map_values(|l: Seq<char>| language_tag(l)), ","@))
    } else {
        Seq::empty()
    }) + bracketed_opt(disc_number, "Disc "@) + bracketed_opt(disc_title, Seq::empty())
        + bracketed_opt(suffix, Seq::empty())
}

/// A disc's title with what tells it from the other discs of the title.
pub open spec fn display_title(
    title: Seq<char>,
    disc_number: Option<Seq<char>>,
    disc_title: Option<Seq<char>>,
    suffix: Option<Seq<char>>,
) -> Seq<char> {
    title + bracketed_opt(disc_number, "Disc "@) + bracketed_opt(disc_title, Seq::empty())
        + bracketed_opt(suffix, Seq::empty())
}

fn write_bracketed(s: &str) -> (r: String)
    ensures
        r@ == bracketed(s@),
{
    cat3(" (", s, ")")
}

fn write_bracketed_opt(s: Option<&str>, prefix: &str) -> (r: String)
    ensures
        r@ == bracketed_opt(text::opt_str(s), prefix@),
{
    match s {
        Some(t) => {
            let inner = cat2(prefix, t);
            write_bracketed(inner.as_str())
        },
        None => String::new(),
    }
}

fn write_tags(languages: &Vec<String>) -> (r: Vec<String>)
    ensures
        text::texts(r@) == text::texts(languages@).map_values(|l: Seq<char>| language_tag(l)),
{
    let mut out: Vec<String> = Vec::new();
    let ghost all = text::texts(languages@).map_values(|l: Seq<char>| language_tag(l));
    for i in 0..languages.len()
        invariant
            all == text::texts(languages@).map_values(|l: Seq<char>| language_tag(l)),
            text::texts(out@) == all.take(i as int),
    {
        let c = chars_of(languages[i].as_str());
        let ghost before = out@;
        let tag = if c.len() == 0 {
            String::new()
        } else {
            let mut t: Vec<char> = Vec::new();
            t.push(char_upper(c[0]));
            push_chars(&mut t, &c[1..c.len()]);
            assert(t@ =~= language_tag(c@));
            string_of(&t)
        };
        assert(tag@ =~= language_tag(c@));
        out.push(tag);
        assert(text::texts(out@) =~= text::texts(before).push(tag@));
        assert(all[i as int] == language_tag(languages@[i as int]@));
    }
    assert(all.take(all.len() as int) =~= all);
    out
}

proof fn lemma_empty_literal()
    ensures
        ""@ == Seq::<char>::empty(),
{
    reveal_strlit("");
    assert(""@ =~= Seq::<char>::empty());
}

/// The name of a disc.
pub fn build_rom_base_name(
    title: &str,
    region_names: &Vec<String>,
    language_codes: &Vec<String>,
    disc_number: Option<&str>,
    disc_title: Option<&str>,
    filename_suffix: Option<&str>,
) -> (r: String)
    ensures
        r@ == rom_base_name(
            title@,
            text::texts(region_names@),
            text::texts(language_codes@),
            text::opt_str(disc_number),
            text::opt_str(disc_title),
            text::opt_str(filename_suffix),
        ),
{
    proof {
        lemma_empty_literal();
    }
    let mut s = String::from_str(title);
    let regions = if region_names.len() > 0 {
        let j = join_strings(region_names, ", ");
        write_bracketed(j.as_str())
    } else {
        String::new()
    };
    s.append(regions.as_str());
    let languages = if language_codes.len() > 1 {
        let tags = write_tags(language_codes);
        let j = join_strings(&tags, ",");
        write_bracketed(j.as_str())
    } else {
        String::new()
    };
    s.append(languages.as_str());
    s.append(write_bracketed_opt(disc_number, "Disc ").as_str());
    s.append(write_bracketed_opt(disc_title, "").as_str());
    s.append(write_bracketed_opt(filename_suffix, "").as_str());
    s
}

/// A disc's title with what tells it from the other discs of the title.
pub fn format_display_title(
    title: &str,
    disc_number: Option<&str>,
    disc_title: Option<&str>,
    filename_suffix: Option<&str>,
) -> (r: String)
    ensures
        r@ == display_title(
            title@,
            text::opt_str(disc_number),
            text::opt_str(disc_title),
            text::opt_str(filename_suffix),
        ),
{
    proof {
        lemma_empty_literal();
    }
    let mut s = String::from_str(title);
    s.append(write_bracketed_opt(disc_number, "Disc ").as_str());
    s.append(write_bracketed_opt(disc_title, "").as_str());
    s.append(write_bracketed_opt(filename_suffix, "").as_str());
    s
}

// ── Track names ────────────────────────────────────────────────────────────

/// A track number with as many digits as the tracks of the disc need.
pub open spec fn padded_track(track: Seq<char>, total: nat) -> Seq<char> {
    if total >= 10 && track.len() == 1 {
        "0"@ + track
    } else {
        track
    }
}

/// The name of a track by its number alone; track 0 is the only one.
pub open spec fn simple_track_name(track: Seq<char>, total: nat, ext: Seq<char>) -> Seq<char> {
    if track == "0"@ {
        "Track."@ + ext
    } else {
        "Track "@ + padded_track(track, total) + "."@ + ext
    }
}

/// The file name of a track of a disc; the number is left out where there is one
/// track only.
pub open spec fn rom_name(base: Seq<char>, track: Seq<char>, total: nat, ext: Seq<char>) -> Seq<
    char,
> {
    if total <= 1 {
        base + "."@ + ext
    } else {
        base + " (Track "@ + padded_track(track, total) + ")."@ + ext
    }
}

fn write_padded(track: &str, total: usize) -> (r: String)
    ensures
        r@ == padded_track(track@, total as nat),
{
    let c = chars_of(track);
    if total >= 10 && c.len() == 1 {
        cat2("0", track)
    } else {
        String::from_str(track)
    }
}

/// The name of a track by its number alone.
pub fn build_simple_track_name(track: &str, total_tracks: usize, ext: &str) -> (r: String)
    ensures
        r@ == simple_track_name(track@, total_tracks as nat, ext@),
{
    if str_eq(track, "0") {
        cat2("Track.", ext)
    } else {
        let p = write_padded(track, total_tracks);
        cat4("Track ", p.as_str(), ".", ext)
    }
}

/// The name of a file of a disc; one without a track number is named like the disc.
pub open spec fn dat_name(base: Seq<char>, track: Option<Seq<char>>, total: nat, ext: Seq<char>) -> Seq<
    char,
> {
    match track {
        Some(t) => rom_name(base, t, total, ext),
        None => base + "."@ + ext,
    }
}

/// The name of a file of a disc.
pub fn build_rom_name(base: &str, track: Option<&str>, total_tracks: usize, ext: &str) -> (r: String)
    ensures
        r@ == dat_name(base@, text::opt_str(track), total_tracks as nat, ext@),
{
    match track {
        Some(t) => build_track_file_name(base, t, total_tracks, ext),
        None => cat3(base, ".", ext),
    }
}

/// The file name of a track of a disc.
pub fn build_track_file_name(base: &str, track: &str, total_tracks: usize, ext: &str) -> (r: String)
    ensures
        r@ == rom_name(base@, track@, total_tracks as nat, ext@),
{
    if total_tracks <= 1 {
        cat3(base, ".", ext)
    } else {
        let p = write_padded(track, total_tracks);
        cat5(base, " (Track ", p.as_str(), ").", ext)
    }
}

proof fn lemma_leading_digits(d: Seq<char>, rest: Seq<char>)
    requires
        text::all_digits(d),
        rest.len() > 0,
        !text::is_digit(rest[0]),
    ensures
        models::leading_digits(d + rest) == d,
    decreases d.len(),
{
    if d.len() == 0 {
        assert(d + rest =~= rest);
        assert(models::leading_digits(rest) =~= d);
    } else {
        assert(text::is_digit(d[0]));
        assert((d + rest)[0] == d[0]);
        assert((d + rest).drop_first() =~= d.drop_first() + rest);
        assert forall|i: int| 0 <= i < d.drop_first().len() implies text::is_digit(
            #[trigger] d.drop_first()[i],
        ) by {
            assert(text::is_digit(d[i + 1]));
        }
        lemma_leading_digits(d.drop_first(), rest);
        assert(seq![d[0]] + d.drop_first() =~= d);
    }
}

/// The number in a track's simple name is read back from it.
pub proof fn law_track_name_reads_back(track: Seq<char>, total: nat, ext: Seq<char>)
    requires
        text::all_digits(track),
        track.len() > 0,
        track[0] != '0',
    ensures
        models::track_of_name(simple_track_name(track, total, ext)) == Some(track),
{
    reveal_strlit("0");
    reveal_strlit("Track ");
    reveal_strlit(".");
    assert("0"@[0] == '0');
    assert(track != "0"@);
    let p = padded_track(track, total);
    let name = simple_track_name(track, total, ext);
    let dot = "."@ + ext;
    assert(name =~= "Track "@ + (p + dot));
    assert(name.subrange(0, 6) =~= "Track "@);
    assert(text::find(name, "Track "@) == Some(0int));
    assert(name.skip(6) =~= p + dot);
    assert(dot[0] == '.');
    assert(text::all_digits(p)) by {
        if total >= 10 && track.len() == 1 {
            assert(p =~= seq!['0', track[0]]);
        }
    }
    lemma_leading_digits(p, dot);
    reveal_with_fuel(models::strip_zeros, 3);
    if total >= 10 && track.len() == 1 {
        assert(p.drop_first() =~= track);
        assert(models::strip_zeros(p) == models::strip_zeros(track));
    }
    assert(models::strip_zeros(track) == track);
}

/// Track 0 is read back from the name of a disc image in one file.
pub proof fn law_image_name_reads_back(total: nat, ext: Seq<char>)
    requires
        text::lower_text(ext) == "iso"@,
    ensures
        models::track_of_name(simple_track_name("0"@, total, ext)) == Some("0"@),
{
    reveal_strlit("0");
    reveal_strlit("Track.");
    reveal_strlit("Track ");
    reveal_strlit("iso");
    reveal_strlit(".iso");
    let name = "Track."@ + ext;
    assert(text::lower_text(ext).len() == ext.len());
    assert(name.len() == 9);
    text::lemma_find_from(name, "Track "@, 0);
    if text::find(name, "Track "@) is Some {
        let k = text::find(name, "Track "@)->0;
        assert(text::stands_at(name, "Track "@, k));
        let at = name.subrange(k, k + 6);
        assert(at[0] == 'T' && at[5] == ' ');
        assert(name[k] == 'T' && name[k + 5] == ' ');
        assert("Track."@ =~= seq!['T', 'r', 'a', 'c', 'k', '.']);
        assert(k <= 3);
        if k > 0 {
            assert(name[k] == "Track."@[k]);
        }
    }
    let small = text::lower_text(name);
    assert(small.skip(5) =~= ".iso"@) by {
        assert forall|i: int| 0 <= i < 4 implies small[i + 5] == ".iso"@[i] by {
            if i > 0 {
                assert(small[i + 5] == text::lower(ext[i - 1]));
                assert(text::lower_text(ext)[i - 1] == "iso"@[i - 1]);
            }
        }
    }
}

// ── Cuesheets ──────────────────────────────────────────────────────────────

/// A line that names a file.
pub open spec fn names_file(line: Seq<char>) -> bool {
    text::starts_with(text::trim(line), "FILE \""@)
}

/// How many lines name a file.
pub open spec fn count_files(ls: Seq<Seq<char>>) -> nat
    decreases ls.len(),
{
    if ls.len() == 0 {
        0
    } else {
        count_files(ls.drop_last()) + if names_file(ls.last()) {
            1nat
        } else {
            0nat
        }
    }
}

/// A line with another name between its first and its last quote.
pub open spec fn with_file_name(line: Seq<char>, name: Seq<char>) -> Seq<char> {
    let first = text::index_from(line, '"', 0);
    let last = last_quote(line);
    if 0 <= first < last <= line.len() {
        line.take(first + 1) + name + line.skip(last)
    } else {
        line
    }
}

/// The position of the last quote, or -1.
pub open spec fn last_quote(s: Seq<char>) -> int
    decreases s.len(),
{
    if s.len() == 0 {
        -1
    } else if s.last() == '"' {
        s.len() - 1
    } else {
        last_quote(s.drop_last())
    }
}

/// The name of file `n` of `total`: a simple track name, or one built on `base`.
pub open spec fn cue_file_name(base: Option<Seq<char>>, n: nat, total: nat, ext: Seq<char>) -> Seq<
    char,
> {
    match base {
        None => simple_track_name(numbers::nat_text(n), total, ext),
        Some(b) => rom_name(b, numbers::nat_text(n), total, ext),
    }
}

/// The lines with their files renamed in turn.
pub open spec fn renamed_lines(
    ls: Seq<Seq<char>>,
    base: Option<Seq<char>>,
    total: nat,
    ext: Seq<char>,
) -> Seq<Seq<char>>
    decreases ls.len(),
{
    if ls.len() == 0 {
        Seq::empty()
    } else {
        let before = renamed_lines(ls.drop_last(), base, total, ext);
        if names_file(ls.last()) {
            before.push(
                with_file_name(ls.last(), cue_file_name(base, count_files(ls), total, ext)),
            )
        } else {
            before.push(ls.last())
        }
    }
}

/// A cuesheet with its files renamed.
pub open spec fn renamed_cue(cue: Seq<char>, base: Option<Seq<char>>, ext: Seq<char>) -> Seq<
    char,
> {
    let ls = text::lines(cue);
    text::join(renamed_lines(ls, base, count_files(ls), ext), "\n"@)
}

fn chars_last_quote(s: &[char]) -> (r: Option<usize>)
    ensures
        match r {
            Some(k) => k == last_quote(s@) && k < s@.len(),
            None => last_quote(s@) == -1,
        },
{
    let mut i: usize = s.len();
    assert(s@.take(i as int) =~= s@);
    while i > 0
        invariant
            i <= s@.len(),
            last_quote(s@.take(i as int)) == last_quote(s@),
        decreases i,
    {
        assert(s@.take(i as int).drop_last() =~= s@.take(i - 1));
        if s[i - 1] == '"' {
            return Some(i - 1);
        }
        i -= 1;
    }
    None
}

fn write_file_name(line: &[char], name: &str) -> (r: String)
    ensures
        r@ == with_file_name(line@, name@),
{
    let first: usize = chars_index_from(line, '"', 0);
    match chars_last_quote(line) {
        Some(last) => {
            if first < last {
                let mut out: Vec<char> = Vec::new();
                push_chars(&mut out, &line[0..first + 1]);
                push_str(&mut out, name);
                push_chars(&mut out, &line[last..line.len()]);
                assert(out@ =~= line@.take(first + 1) + name@ + line@.skip(last as int));
                string_of(&out)
            } else {
                string_of(line)
            }
        },
        None => string_of(line),
    }
}

fn rename_cue(cue: &str, base: Option<&str>, ext: &str) -> (r: String)
    ensures
        r@ == renamed_cue(cue@, text::opt_str(base), ext@),
{
    let chars = chars_of(cue);
    let ls = chars_lines(&chars);
    let ghost all = text::slices(ls@);
    let mut total: usize = 0;
    assert(all.take(0) =~= Seq::<Seq<char>>::empty());
    for i in 0..ls.len()
        invariant
            all == text::slices(ls@),
            total == count_files(all.take(i as int)),
            total <= i,
    {
        proof {
            let t = all.take(i + 1);
            assert(t.drop_last() =~= all.take(i as int));
            assert(t.last() == ls@[i as int]@);
        }
        if chars_start_with(chars_trim(ls[i]), "FILE \"") {
            total = total + 1;
        }
    }
    assert(all.take(all.len() as int) =~= all);
    let mut n: usize = 0;
    let mut out: Vec<String> = Vec::new();
    assert(text::texts(out@) =~= renamed_lines(all.take(0), text::opt_str(base), total as nat, ext@));
    for i in 0..ls.len()
        invariant
            all == text::slices(ls@),
            n == count_files(all.take(i as int)),
            n <= i,
            text::texts(out@) == renamed_lines(all.take(i as int), text::opt_str(base), total as nat, ext@),
    {
        let ghost before = out@;
        proof {
            let t = all.take(i + 1);
            assert(t.drop_last() =~= all.take(i as int));
            assert(t.last() == ls@[i as int]@);
        }
        let line = if chars_start_with(chars_trim(ls[i]), "FILE \"") {
            n = n + 1;
            let number = write_u64(n as u64);
            let name = match base {
                None => build_simple_track_name(number.as_str(), total, ext),
                Some(b) => build_track_file_name(b, number.as_str(), total, ext),
            };
            write_file_name(ls[i], name.as_str())
        } else {
            string_of(ls[i])
        };
        out.push(line);
        assert(text::texts(out@) =~= text::texts(before).push(line@));
    }
    join_strings(&out, "\n")
}

/// A cuesheet whose files have simple track names.
pub fn simplify_cue(cue: &str, ext: &str) -> (r: String)
    ensures
        r@ == renamed_cue(cue@, None, ext@),
{
    rename_cue(cue, None, ext)
}

/// A cuesheet whose files have the names of the disc's tracks.
pub fn finalize_cue(cue: &str, base_name: &str, ext: &str) -> (r: String)
    ensures
        r@ == renamed_cue(cue@, Some(base_name@), ext@),
{
    rename_cue(cue, Some(base_name), ext)
}

/// A name grows by what there is: a disc without anything is called by its title; regions
/// stand behind the title, languages behind the regions where there is more than one, then
/// the number of the disc, its title, and the suffix of the file, each in brackets.
pub proof fn law_names_grow(
    title: Seq<char>,
    regions: Seq<Seq<char>>,
    languages: Seq<Seq<char>>,
    number: Option<Seq<char>>,
    disc_title: Option<Seq<char>>,
    s: Seq<char>,
)
    ensures
        rom_base_name(title, Seq::empty(), Seq::empty(), None, None, None) == title,
        regions.len() > 0 ==> rom_base_name(title, regions, Seq::empty(), None, None, None) == title
            + " ("@ + text::join(regions, ", "@) + ")"@,
        languages.len() <= 1 ==> rom_base_name(title, regions, languages, None, None, None)
            == rom_base_name(title, regions, Seq::empty(), None, None, None),
        languages.len() > 1 ==> rom_base_name(title, regions, languages, None, None, None)
            == rom_base_name(title, regions, Seq::empty(), None, None, None) + " ("@ + text::join(
            languages.map_values(|l: Seq<char>| language_tag(l)),
            ","@,
        ) + ")"@,
        rom_base_name(title, regions, languages, Some(s), None, None) == rom_base_name(
            title,
            regions,
            languages,
            None,
            None,
            None,
        ) + " (Disc "@ + s + ")"@,
        rom_base_name(title, regions, languages, number, Some(s), None) == rom_base_name(
            title,
            regions,
            languages,
            number,
            None,
            None,
        ) + " ("@ + s + ")"@,
        rom_base_name(title, regions, languages, number, disc_title, Some(s)) == rom_base_name(
            title,
            regions,
            languages,
            number,
            disc_title,
            None,
        ) + " ("@ + s + ")"@,
{
    reveal_strlit(" (Disc ");
    reveal_strlit("Disc ");
    reveal_strlit(" (");
    reveal_strlit(")");
    let none = Seq::<char>::empty();
    assert(rom_base_name(title, Seq::empty(), Seq::empty(), None, None, None) =~= title);
    let r = rom_base_name(title, regions, Seq::empty(), None, None, None);
    let l = rom_base_name(title, regions, languages, None, None, None);
    if regions.len() > 0 {
        assert(r =~= title + " ("@ + text::join(regions, ", "@) + ")"@);
    }
    assert(languages.len() <= 1 ==> l =~= r);
    if languages.len() > 1 {
        assert(l =~= r + " ("@ + text::join(
            languages.map_values(|l: Seq<char>| language_tag(l)),
            ","@,
        ) + ")"@);
    }
    assert(" (Disc "@ =~= " ("@ + "Disc "@);
    assert(rom_base_name(title, regions, languages, Some(s), None, None) =~= l + " (Disc "@ + s
        + ")"@);
    let n = rom_base_name(title, regions, languages, number, None, None);
    assert(rom_base_name(title, regions, languages, number, Some(s), None) =~= n + " ("@ + s
        + ")"@);
    let d = rom_base_name(title, regions, languages, number, disc_title, None);
    assert(rom_base_name(title, regions, languages, number, disc_title, Some(s)) =~= d + " ("@ + s
        + ")"@);
}

/// Two discs of a title that differ in one thing have different names: in the number, the
/// title of the disc, or the suffix.
pub proof fn law_names_tell_discs_apart(
    title: Seq<char>,
    regions: Seq<Seq<char>>,
    languages: Seq<Seq<char>>,
    number: Option<Seq<char>>,
    disc_title: Option<Seq<char>>,
    suffix: Option<Seq<char>>,
    a: Seq<char>,
    b: Seq<char>,
)
    requires
        a != b,
    ensures
        rom_base_name(title, regions, languages, Some(a), disc_title, suffix) != rom_base_name(
            title,
            regions,
            languages,
            Some(b),
            disc_title,
            suffix,
        ),
        rom_base_name(title, regions, languages, number, Some(a), suffix) != rom_base_name(
            title,
            regions,
            languages,
            number,
            Some(b),
            suffix,
        ),
        rom_base_name(title, regions, languages, number, disc_title, Some(a)) != rom_base_name(
            title,
            regions,
            languages,
            number,
            disc_title,
            Some(b),
        ),
        display_title(title, Some(a), disc_title, suffix) != display_title(
            title,
            Some(b),
            disc_title,
            suffix,
        ),
        display_title(title, number, Some(a), suffix) != display_title(
            title,
            number,
            Some(b),
            suffix,
        ),
        display_title(title, number, disc_title, Some(a)) != display_title(
            title,
            number,
            disc_title,
            Some(b),
        ),
{
    let none = Seq::<char>::empty();
    let front = rom_base_name(title, regions, languages, None, None, None);
    let dt = bracketed_opt(disc_title, none);
    let sf = bracketed_opt(suffix, none);
    let nm = bracketed_opt(number, "Disc "@);
    assert(rom_base_name(title, regions, languages, Some(a), disc_title, suffix) =~= front + bracketed(
        "Disc "@ + a,
    ) + (dt + sf));
    assert(rom_base_name(title, regions, languages, Some(b), disc_title, suffix) =~= front + bracketed(
        "Disc "@ + b,
    ) + (dt + sf));
    lemma_bracketed_differ(front, "Disc "@, a, b, dt + sf);
    assert(rom_base_name(title, regions, languages, number, Some(a), suffix) =~= (front + nm)
        + bracketed(none + a) + sf);
    assert(rom_base_name(title, regions, languages, number, Some(b), suffix) =~= (front + nm)
        + bracketed(none + b) + sf);
    lemma_bracketed_differ(front + nm, none, a, b, sf);
    assert(rom_base_name(title, regions, languages, number, disc_title, Some(a)) =~= (front + nm
        + dt) + bracketed(none + a) + none);
    assert(rom_base_name(title, regions, languages, number, disc_title, Some(b)) =~= (front + nm
        + dt) + bracketed(none + b) + none);
    lemma_bracketed_differ(front + nm + dt, none, a, b, none);
    assert(display_title(title, Some(a), disc_title, suffix) =~= title + bracketed("Disc "@ + a) + (
    dt + sf));
    assert(display_title(title, Some(b), disc_title, suffix) =~= title + bracketed("Disc "@ + b) + (
    dt + sf));
    lemma_bracketed_differ(title, "Disc "@, a, b, dt + sf);
    assert(display_title(title, number, Some(a), suffix) =~= (title + nm) + bracketed(none + a)
        + sf);
    assert(display_title(title, number, Some(b), suffix) =~= (title + nm) + bracketed(none + b)
        + sf);
    lemma_bracketed_differ(title + nm, none, a, b, sf);
    assert(display_title(title, number, disc_title, Some(a)) =~= (title + nm + dt) + bracketed(
        none + a,
    ) + none);
    assert(display_title(title, number, disc_title, Some(b)) =~= (title + nm + dt) + bracketed(
        none + b,
    ) + none);
    lemma_bracketed_differ(title + nm + dt, none, a, b, none);
}

proof fn lemma_bracketed_differ(
    front: Seq<char>,
    prefix: Seq<char>,
    a: Seq<char>,
    b: Seq<char>,
    back: Seq<char>,
)
    requires
        a != b,
    ensures
        front + bracketed(prefix + a) + back != front + bracketed(prefix + b) + back,
{
    let x = front + bracketed(prefix + a) + back;
    let y = front + bracketed(prefix + b) + back;
    if x == y {
        assert(bracketed(prefix + a).len() == " ("@.len() + prefix.len() + a.len() + ")"@.len());
        assert(bracketed(prefix + b).len() == " ("@.len() + prefix.len() + b.len() + ")"@.len());
        assert(x.len() == front.len() + bracketed(prefix + a).len() + back.len());
        assert(y.len() == front.len() + bracketed(prefix + b).len() + back.len());
        assert(a.len() == b.len());
        let n = (front.len() + " ("@.len() + prefix.len()) as int;
        assert forall|i: int| 0 <= i < a.len() implies #[trigger] a[i] == b[i] by {
            assert(x[n + i] == a[i]);
            assert(y[n + i] == b[i]);
        }
        assert(a =~= b);
    }
}

/// What a disc is shown as is its name without regions and languages.
pub proof fn law_shown_titles_are_names(
    title: Seq<char>,
    number: Option<Seq<char>>,
    disc_title: Option<Seq<char>>,
    suffix: Option<Seq<char>>,
)
    ensures
        display_title(title, number, disc_title, suffix) == rom_base_name(
            title,
            Seq::empty(),
            Seq::empty(),
            number,
            disc_title,
            suffix,
        ),
{
    let none = Seq::<char>::empty();
    assert(title + none + none =~= title);
}

/// The file of a disc ends with its extension and begins with the name of the disc, and the
/// files of two tracks of one disc have different names.
pub proof fn law_tracks_have_their_own_files(
    base: Seq<char>,
    a: Seq<char>,
    b: Seq<char>,
    total: nat,
    ext: Seq<char>,
)
    requires
        total > 1,
    ensures
        text::starts_with(dat_name(base, Some(a), total, ext), base),
        text::ends_with(dat_name(base, Some(a), total, ext), "."@ + ext),
        text::starts_with(dat_name(base, None, total, ext), base),
        text::ends_with(dat_name(base, None, total, ext), "."@ + ext),
        padded_track(a, total) != padded_track(b, total) ==> dat_name(base, Some(a), total, ext)
            != dat_name(base, Some(b), total, ext),
        dat_name(base, Some(a), 1, ext) == dat_name(base, None, total, ext),
{
    reveal_strlit(").");
    reveal_strlit(".");
    let x = dat_name(base, Some(a), total, ext);
    let y = dat_name(base, Some(b), total, ext);
    let w = " (Track "@;
    assert(x.take(base.len() as int) =~= base);
    assert(x.skip(x.len() - ("."@ + ext).len()) =~= "."@ + ext);
    let z = dat_name(base, None, total, ext);
    assert(z.take(base.len() as int) =~= base);
    assert(z.skip(z.len() - ("."@ + ext).len()) =~= "."@ + ext);
    if x == y {
        let p = padded_track(a, total);
        let q = padded_track(b, total);
        assert(p.len() == q.len());
        let n = (base.len() + w.len()) as int;
        assert forall|i: int| 0 <= i < p.len() implies #[trigger] p[i] == q[i] by {
            assert(x[n + i] == p[i]);
            assert(y[n + i] == q[i]);
        }
        assert(p =~= q);
    }
}

/// The track numbers of a disc with ten tracks or more have two digits at least, so that
/// their names sort as the tracks do.
pub proof fn law_track_numbers_are_padded(n: nat, total: nat)
    ensures
        total >= 10 && n < 10 ==> padded_track(numbers::nat_text(n), total) == numbers::two_digits(n),
        total < 10 || n >= 10 ==> padded_track(numbers::nat_text(n), total) == numbers::nat_text(n),
{
    reveal_strlit("0");
    reveal_with_fuel(numbers::nat_text, 2);
    if n >= 10 {
        assert(numbers::nat_text(n / 10).len() > 0) by {
            numbers::law_nat_text_reads_back(n / 10);
        }
    } else {
        assert("0"@ + numbers::nat_text(n) =~= numbers::two_digits(n));
    }
}

/// A cuesheet with its files renamed has as many lines as before; the lines that name a file
/// name that of their turn, and the other lines stay.
pub proof fn law_renaming_renames_files_only(
    ls: Seq<Seq<char>>,
    base: Option<Seq<char>>,
    total: nat,
    ext: Seq<char>,
    i: int,
)
    requires
        0 <= i < ls.len(),
    ensures
        renamed_lines(ls, base, total, ext).len() == ls.len(),
        !names_file(ls[i]) ==> renamed_lines(ls, base, total, ext)[i] == ls[i],
        names_file(ls[i]) ==> renamed_lines(ls, base, total, ext)[i] == with_file_name(
            ls[i],
            cue_file_name(base, count_files(ls.take(i + 1)), total, ext),
        ),
    decreases ls.len(),
{
    let front = ls.drop_last();
    if i == ls.len() - 1 {
        assert(ls.take(i + 1) =~= ls);
        lemma_renamed_len(front, base, total, ext);
    } else {
        law_renaming_renames_files_only(front, base, total, ext, i);
        assert(front.take(i + 1) =~= ls.take(i + 1));
        assert(front[i] == ls[i]);
    }
}

proof fn lemma_renamed_len(
    ls: Seq<Seq<char>>,
    base: Option<Seq<char>>,
    total: nat,
    ext: Seq<char>,
)
    ensures
        renamed_lines(ls, base, total, ext).len() == ls.len(),
    decreases ls.len(),
{
    if ls.len() > 0 {
        lemma_renamed_len(ls.drop_last(), base, total, ext);
    }
}

/// A line that names a file names another one behind the renaming, in the same quotes and
/// with the same words around them.
pub proof fn law_renamed_line(pre: Seq<char>, old: Seq<char>, post: Seq<char>, name: Seq<char>)
    requires
        forall|i: int| 0 <= i < pre.len() ==> #[trigger] pre[i] != '"',
        forall|i: int| 0 <= i < post.len() ==> #[trigger] post[i] != '"',
    ensures
        with_file_name(pre + "\""@ + old + "\""@ + post, name) == pre + "\""@ + name + "\""@ + post,
{
    reveal_strlit("\"");
    let line = pre + "\""@ + old + "\""@ + post;
    let n = pre.len() as int;
    let m = (pre.len() + 1 + old.len()) as int;
    text::lemma_index_from(line, '"', 0);
    assert(line[n] == '"');
    let first = text::index_from(line, '"', 0);
    if first < n {
        assert(line[first] == pre[first]);
    }
    assert(line[m] == '"');
    assert forall|i: int| m < i < line.len() implies #[trigger] line[i] != '"' by {
        assert(line[i] == post[i - m - 1]);
    }
    lemma_last_quote(line, m);
    assert(line.take(n + 1) =~= pre + "\""@);
    assert(line.skip(m) =~= "\""@ + post);
    assert(with_file_name(line, name) =~= pre + "\""@ + name + "\""@ + post);
}

proof fn lemma_last_quote(s: Seq<char>, m: int)
    requires
        0 <= m < s.len(),
        s[m] == '"',
        forall|i: int| m < i < s.len() ==> #[trigger] s[i] != '"',
    ensures
        last_quote(s) == m,
    decreases s.len(),
{
    if m < s.len() - 1 {
        assert(s.last() == s[s.len() - 1]);
        assert forall|i: int| m < i < s.drop_last().len() implies #[trigger] s.drop_last()[i]
            != '"' by {
            assert(s.drop_last()[i] == s[i]);
        }
        lemma_last_quote(s.drop_last(), m);
    }
}

} // verus!
