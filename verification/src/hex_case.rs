//! One case for the hexadecimal digits of a snapshot: small in identifiers, keys and
//! hashes, capitals in dumps.

use vstd::prelude::*;

use crate::json::{self, Json, JsonObject, JsonView};
use crate::text::{
    self, cat2, chars_find, chars_find_from, chars_index_from, chars_lower, chars_of, chars_split,
    chars_trim_start, chars_upper, copy_chars, join_strings, push_chars, str_eq, string_of,
};

verus! {

/// A dump line in capitals, up to its text column.
pub open spec fn capital_dump_line(line: Seq<char>) -> Seq<char> {
    let cut = text_column(line);
    text::upper_text(line.take(cut)) + line.skip(cut)
}

/// Where the text column of a dump line begins: at the first three spaces behind the
/// bytes, or at the end.
pub open spec fn text_column(line: Seq<char>) -> int {
    let colon = text::index_from(line, ':', 0);
    if colon >= line.len() {
        line.len() as int
    } else {
        let rest = line.skip(colon + 1);
        let bytes = text::trim_start(rest);
        match text::find(bytes, "   "@) {
            Some(p) => line.len() - bytes.len() + p,
            None => line.len() as int,
        }
    }
}

/// A subchannel line with its data in capitals.
pub open spec fn canonical_sbi_line(line: Seq<char>) -> Seq<char> {
    let label = "Q-Data: "@;
    match text::find(line, label) {
        Some(p) => line.take(p + label.len()) + text::upper_text(line.skip(p + label.len())),
        None => line,
    }
}

/// A line with the value of an attribute small.
pub open spec fn small_attribute(line: Seq<char>, attr: Seq<char>) -> Seq<char> {
    let needle = attr + "=\""@;
    match text::find(line, needle) {
        None => line,
        Some(p) => {
            let start = p + needle.len();
            let rest = line.skip(start);
            let q = text::index_from(rest, '"', 0);
            line.take(start) + text::lower_text(rest.take(q)) + rest.skip(q)
        },
    }
}

/// A `rom` line with its hashes small.
pub open spec fn small_hashes(line: Seq<char>) -> Seq<char> {
    small_attribute(small_attribute(small_attribute(line, "crc"@), "md5"@), "sha1"@)
}

/// What the hexadecimal digits of a field are written in.
#[derive(Clone, Copy, Debug, PartialEq, Eq, Structural)]
pub enum HexCase {
    /// Small throughout.
    Small,
    /// Capitals in the data of subchannel lines.
    Sbi,
    /// Capitals in dump lines.
    Dump,
    /// Small in the hashes of `rom` lines.
    Hashes,
    /// As it stands.
    Kept,
}

/// What the hexadecimal digits of a field are written in.
pub open spec fn case_of_field(key: Seq<char>) -> HexCase {
    if key == "disc_id"@ || key == "disc_key"@ || key == "universal_hash"@ {
        HexCase::Small
    } else if key == "sbi"@ {
        HexCase::Sbi
    } else if key == "pvd"@ || key == "pic"@ || key == "bca"@ || key == "header"@ {
        HexCase::Dump
    } else if key == "dat"@ {
        HexCase::Hashes
    } else {
        HexCase::Kept
    }
}

/// One line in a case.
pub open spec fn cased_line(case: HexCase, line: Seq<char>) -> Seq<char> {
    match case {
        HexCase::Small => text::lower_text(line),
        HexCase::Sbi => canonical_sbi_line(line),
        HexCase::Dump => capital_dump_line(line),
        HexCase::Hashes => small_hashes(line),
        HexCase::Kept => line,
    }
}

/// A text in a case, line by line.
pub open spec fn cased_text(case: HexCase, s: Seq<char>) -> Seq<char> {
    text::join(text::split(s, '\n').map_values(|l: Seq<char>| cased_line(case, l)), "\n"@)
}

/// The value of a field in its case.
pub open spec fn cased_value(key: Seq<char>, v: JsonView) -> JsonView {
    match v {
        JsonView::Str(s) => if case_of_field(key) == HexCase::Kept {
            v
        } else {
            JsonView::Str(cased_text(case_of_field(key), s))
        },
        _ => v,
    }
}

/// A snapshot with every field in its case.
pub open spec fn cased_snapshot(v: JsonView) -> JsonView {
    match v {
        JsonView::Obj(es) => JsonView::Obj(
            es.map_values(|e: (Seq<char>, JsonView)| (e.0, cased_value(e.0, e.1))),
        ),
        _ => v,
    }
}

fn write_dump_line(line: &[char]) -> (r: Vec<char>)
    ensures
        r@ == capital_dump_line(line@),
{
    let colon: usize = chars_index_from(line, ':', 0);
    let end: usize = line.len();
    let cut: usize = if colon >= end {
        end
    } else {
        let rest = &line[colon + 1..end];
        assert(rest@ =~= line@.skip(colon + 1));
        proof {
            let k = text::lemma_trim_start_skip(rest@);
        }
        let bytes = chars_trim_start(rest);
        match chars_find(bytes, "   ") {
            Some(p) => end - bytes.len() + p,
            None => end,
        }
    };
    assert(cut == text_column(line@));
    let head = &line[0..cut];
    let tail = &line[cut..end];
    let mut out = chars_upper(head);
    push_chars(&mut out, tail);
    assert(head@ =~= line@.take(cut as int));
    assert(tail@ =~= line@.skip(cut as int));
    out
}

fn write_sbi_line(line: &[char]) -> (r: Vec<char>)
    ensures
        r@ == canonical_sbi_line(line@),
{
    let label = chars_of("Q-Data: ");
    match chars_find_from(line, &label, 0) {
        Some(p) => {
            let end: usize = line.len();
            let cut: usize = p + label.len();
            let head = &line[0..cut];
            let tail = &line[cut..end];
            let mut out = copy_chars(head);
            push_chars(&mut out, &chars_upper(tail));
            assert(head@ =~= line@.take(cut as int));
            assert(tail@ =~= line@.skip(cut as int));
            out
        },
        None => copy_chars(line),
    }
}

fn write_small_attribute(line: &[char], attr: &str) -> (r: Vec<char>)
    ensures
        r@ == small_attribute(line@, attr@),
{
    let needle_text = cat2(attr, "=\"");
    let needle = chars_of(needle_text.as_str());
    match chars_find_from(line, &needle, 0) {
        None => copy_chars(line),
        Some(p) => {
            let end: usize = line.len();
            let start: usize = p + needle.len();
            let rest = &line[start..end];
            assert(rest@ =~= line@.skip(start as int));
            let q: usize = chars_index_from(rest, '"', 0);
            let head = &line[0..start];
            let value = &rest[0..q];
            let tail = &rest[q..rest.len()];
            let mut out = copy_chars(head);
            push_chars(&mut out, &chars_lower(value));
            push_chars(&mut out, tail);
            assert(head@ =~= line@.take(start as int));
            assert(value@ =~= rest@.take(q as int));
            assert(tail@ =~= rest@.skip(q as int));
            out
        },
    }
}

fn write_cased_line(case: HexCase, line: &[char]) -> (r: String)
    ensures
        r@ == cased_line(case, line@),
{
    match case {
        HexCase::Small => string_of(&chars_lower(line)),
        HexCase::Sbi => string_of(&write_sbi_line(line)),
        HexCase::Dump => string_of(&write_dump_line(line)),
        HexCase::Hashes => {
            let a = write_small_attribute(line, "crc");
            let b = write_small_attribute(&a, "md5");
            let c = write_small_attribute(&b, "sha1");
            string_of(&c)
        },
        HexCase::Kept => string_of(line),
    }
}

fn write_cased_text(case: HexCase, s: &str) -> (r: String)
    ensures
        r@ == cased_text(case, s@),
{
    let chars = chars_of(s);
    let parts = chars_split(&chars, '\n');
    let ghost all = text::slices(parts@).map_values(|l: Seq<char>| cased_line(case, l));
    let mut out: Vec<String> = Vec::new();
    for i in 0..parts.len()
        invariant
            all == text::slices(parts@).map_values(|l: Seq<char>| cased_line(case, l)),
            text::texts(out@) == all.take(i as int),
    {
        let ghost before = out@;
        let line = write_cased_line(case, parts[i]);
        out.push(line);
        assert(text::texts(out@) =~= text::texts(before).push(line@));
        assert(all.take(i + 1) =~= all.take(i as int).push(all[i as int]));
    }
    assert(all.take(all.len() as int) =~= all);
    join_strings(&out, "\n")
}

fn read_case_of_field(key: &str) -> (r: HexCase)
    ensures
        r == case_of_field(key@),
{
    if str_eq(key, "disc_id") || str_eq(key, "disc_key") || str_eq(key, "universal_hash") {
        HexCase::Small
    } else if str_eq(key, "sbi") {
        HexCase::Sbi
    } else if str_eq(key, "pvd") || str_eq(key, "pic") || str_eq(key, "bca") || str_eq(
        key,
        "header",
    ) {
        HexCase::Dump
    } else if str_eq(key, "dat") {
        HexCase::Hashes
    } else {
        HexCase::Kept
    }
}

/// A snapshot with every hexadecimal field in its case.
pub fn canonicalize_disc_snapshot_hex_fields(snapshot: &Json) -> (r: Json)
    ensures
        r@ == cased_snapshot(snapshot@),
{
    match snapshot {
        Json::Object(o) => {
            let ghost es = json::entry_views(o.entries@);
            let ghost all = es.map_values(|e: (Seq<char>, JsonView)| (e.0, cased_value(e.0, e.1)));
            let mut out: Vec<(String, Json)> = Vec::new();
            proof {
                json::lemma_entry_views(o.entries@);
                assert(json::entry_views(out@) =~= all.take(0));
            }
            for i in 0..o.entries.len()
                invariant
                    es == json::entry_views(o.entries@),
                    es.len() == o.entries@.len(),
                    forall|k: int|
                        0 <= k < es.len() ==> #[trigger] es[k] == (
                            (o.entries@[k].0)@,
                            (o.entries@[k].1)@,
                        ),
                    all == es.map_values(
                        |e: (Seq<char>, JsonView)| (e.0, cased_value(e.0, e.1)),
                    ),
                    json::entry_views(out@) == all.take(i as int),
            {
                let key = &o.entries[i].0;
                let case = read_case_of_field(key.as_str());
                let value = match &o.entries[i].1 {
                    Json::Text(s) => if case == HexCase::Kept {
                        Json::Text(s.clone())
                    } else {
                        Json::Text(write_cased_text(case, s.as_str()))
                    },
                    other => other.copy(),
                };
                let entry = (key.clone(), value);
                proof {
                    assert(es[i as int] == (
                        (o.entries@[i as int].0)@,
                        (o.entries@[i as int].1)@,
                    ));
                    json::lemma_entry_views_push(out@, entry);
                    assert(all.take(i + 1) =~= all.take(i as int).push(all[i as int]));
                }
                out.push(entry);
            }
            assert(all.take(all.len() as int) =~= all);
            Json::Object(JsonObject { entries: out })
        },
        other => other.copy(),
    }
}

} // verus!
