//! What writing hexadecimal digits in one case does to a text.

use vstd::prelude::*;

use crate::hex_case::{self, HexCase};
use crate::json::JsonView;
use crate::services::dump_text;
use crate::text;

verus! {

proof fn lemma_char_cases(c: char)
    ensures
        text::lower(text::upper(c)) == text::lower(c),
        text::lower(text::lower(c)) == text::lower(c),
{
    if 'a' <= c <= 'z' {
        let u = (c as int - 32) as char;
        assert('A' <= u <= 'Z');
        assert((u as int + 32) as char == c);
    } else if 'A' <= c <= 'Z' {
        let l = (c as int + 32) as char;
        assert('a' <= l <= 'z');
    }
}

proof fn lemma_cases(s: Seq<char>)
    ensures
        text::lower_text(text::upper_text(s)) == text::lower_text(s),
        text::lower_text(text::lower_text(s)) == text::lower_text(s),
{
    assert forall|i: int| 0 <= i < s.len() implies text::lower_text(text::upper_text(s))[i] == text::lower_text(s)[i]
        && text::lower_text(text::lower_text(s))[i] == text::lower_text(s)[i] by {
        lemma_char_cases(s[i]);
    }
    assert(text::lower_text(text::upper_text(s)) =~= text::lower_text(s));
    assert(text::lower_text(text::lower_text(s)) =~= text::lower_text(s));
}

proof fn lemma_lower_append(a: Seq<char>, b: Seq<char>)
    ensures
        text::lower_text(a + b) == text::lower_text(a) + text::lower_text(b),
{
    assert(text::lower_text(a + b) =~= text::lower_text(a) + text::lower_text(b));
}

proof fn lemma_small_attribute(line: Seq<char>, attr: Seq<char>)
    ensures
        text::lower_text(hex_case::small_attribute(line, attr)) == text::lower_text(line),
{
    let needle = attr + "=\""@;
    text::lemma_find_from(line, needle, 0);
    if let Some(p) = text::find(line, needle) {
        let start = p + needle.len();
        let rest = line.skip(start);
        text::lemma_index_from(rest, '"', 0);
        let q = text::index_from(rest, '"', 0);
        let a = line.take(start);
        let b = rest.take(q);
        let c = rest.skip(q);
        assert(line =~= a + b + c);
        lemma_cases(b);
        lemma_lower_append(a, text::lower_text(b));
        lemma_lower_append(a + text::lower_text(b), c);
        lemma_lower_append(a, b);
        lemma_lower_append(a + b, c);
    }
}

proof fn lemma_cased_line(case: HexCase, line: Seq<char>)
    ensures
        text::lower_text(hex_case::cased_line(case, line)) == text::lower_text(line),
{
    match case {
        HexCase::Small => {
            lemma_cases(line);
        },
        HexCase::Sbi => {
            let label = "Q-Data: "@;
            text::lemma_find_from(line, label, 0);
            if let Some(p) = text::find(line, label) {
                let n = p + label.len();
                let a = line.take(n);
                let b = line.skip(n);
                assert(line =~= a + b);
                lemma_cases(b);
                lemma_lower_append(a, text::upper_text(b));
                lemma_lower_append(a, b);
            }
        },
        HexCase::Dump => {
            let n = hex_case::text_column(line);
            lemma_text_column(line);
            let a = line.take(n);
            let b = line.skip(n);
            assert(line =~= a + b);
            lemma_cases(a);
            lemma_lower_append(text::upper_text(a), b);
            lemma_lower_append(a, b);
        },
        HexCase::Hashes => {
            let a = hex_case::small_attribute(line, "crc"@);
            let b = hex_case::small_attribute(a, "md5"@);
            lemma_small_attribute(line, "crc"@);
            lemma_small_attribute(a, "md5"@);
            lemma_small_attribute(b, "sha1"@);
        },
        HexCase::Kept => {},
    }
}

proof fn lemma_text_column(line: Seq<char>)
    ensures
        0 <= hex_case::text_column(line) <= line.len(),
{
    text::lemma_index_from(line, ':', 0);
    let colon = text::index_from(line, ':', 0);
    if colon < line.len() {
        let rest = line.skip(colon + 1);
        let k = text::lemma_trim_start_skip(rest);
        let bytes = text::trim_start(rest);
        text::lemma_find_from(bytes, "   "@, 0);
    }
}

proof fn lemma_joined_lower(a: Seq<Seq<char>>, b: Seq<Seq<char>>)
    requires
        a.len() == b.len(),
        forall|i: int| 0 <= i < a.len() ==> text::lower_text(#[trigger] a[i]) == text::lower_text(b[i]),
    ensures
        text::lower_text(text::join(a, "\n"@)) == text::lower_text(text::join(b, "\n"@)),
    decreases a.len(),
{
    if a.len() > 1 {
        let x = a.drop_last();
        let y = b.drop_last();
        lemma_joined_lower(x, y);
        let sep = "\n"@;
        assert(text::lower_text(a[a.len() - 1]) == text::lower_text(b[a.len() - 1]));
        lemma_lower_append(text::join(x, sep) + sep, a.last());
        lemma_lower_append(text::join(x, sep), sep);
        lemma_lower_append(text::join(y, sep) + sep, b.last());
        lemma_lower_append(text::join(y, sep), sep);
    } else if a.len() == 1 {
        assert(text::lower_text(a[0]) == text::lower_text(b[0]));
    }
}

proof fn lemma_split_len(s: Seq<char>, c: char)
    ensures
        text::split(s, c).len() > 0,
{
}

proof fn lemma_split_joined(s: Seq<char>)
    ensures
        text::join(text::split(s, '\n'), "\n"@) == s,
    decreases s.len(),
{
    reveal_strlit("\n");
    text::lemma_index_from(s, '\n', 0);
    let i = text::index_from(s, '\n', 0);
    if i < s.len() {
        let rest = s.skip(i + 1);
        lemma_split_joined(rest);
        lemma_split_len(rest, '\n');
        let parts = text::split(s, '\n');
        assert(parts =~= seq![s.take(i)] + text::split(rest, '\n'));
        assert(parts.drop_first() =~= text::split(rest, '\n'));
        dump_text::lemma_join_front(parts, "\n"@);
        assert(parts[0] == s.take(i));
        assert(s =~= s.take(i) + "\n"@ + rest);
    } else {
        assert(text::split(s, '\n') =~= seq![s]);
    }
}

/// Writing the digits of a field in their case changes nothing but the case of letters.
pub proof fn law_only_the_case_changes(key: Seq<char>, s: Seq<char>)
    ensures
        hex_case::cased_value(key, JsonView::Str(s)) matches JsonView::Str(t) && text::lower_text(t) == text::lower_text(
            s,
        ) && t.len() == s.len(),
{
    let case = hex_case::case_of_field(key);
    let parts = text::split(s, '\n');
    let f = |l: Seq<char>| hex_case::cased_line(case, l);
    let cased = parts.map_values(f);
    assert forall|i: int| 0 <= i < cased.len() implies text::lower_text(#[trigger] cased[i]) == text::lower_text(
        parts[i],
    ) by {
        lemma_cased_line(case, parts[i]);
    }
    lemma_joined_lower(cased, parts);
    lemma_split_joined(s);
    if case != HexCase::Kept {
        let t = hex_case::cased_text(case, s);
        assert(text::lower_text(t) == text::lower_text(s));
        assert(text::lower_text(t).len() == t.len() && text::lower_text(s).len() == s.len());
    }
}

proof fn lemma_joined_small(a: Seq<Seq<char>>)
    ensures
        text::join(a.map_values(|l: Seq<char>| text::lower_text(l)), "\n"@) == text::lower_text(text::join(a, "\n"@)),
    decreases a.len(),
{
    reveal_strlit("\n");
    let f = |l: Seq<char>| text::lower_text(l);
    let b = a.map_values(f);
    if a.len() == 0 {
        assert(text::join(b, "\n"@) =~= text::lower_text(text::join(a, "\n"@)));
    } else if a.len() == 1 {
        assert(b[0] == text::lower_text(a[0]));
    } else {
        lemma_joined_small(a.drop_last());
        assert(b.drop_last() =~= a.drop_last().map_values(f));
        let sep = "\n"@;
        assert(text::lower_text(sep) =~= sep);
        lemma_lower_append(text::join(a.drop_last(), sep) + sep, a.last());
        lemma_lower_append(text::join(a.drop_last(), sep), sep);
        assert(b.last() == text::lower_text(a.last()));
    }
}

/// The identifiers and keys of a disc are written in small letters; a text of no hexadecimal
/// digits is left alone.
pub proof fn law_keys_are_small(s: Seq<char>)
    ensures
        hex_case::cased_value("disc_id"@, JsonView::Str(s)) == JsonView::Str(text::lower_text(s)),
        hex_case::cased_value("disc_key"@, JsonView::Str(s)) == JsonView::Str(text::lower_text(s)),
        hex_case::cased_value("universal_hash"@, JsonView::Str(s)) == JsonView::Str(text::lower_text(s)),
        hex_case::cased_value("title"@, JsonView::Str(s)) == JsonView::Str(s),
        hex_case::cased_value("comments"@, JsonView::Str(s)) == JsonView::Str(s),
        hex_case::cased_value("cuesheet"@, JsonView::Str(s)) == JsonView::Str(s),
{
    let parts = text::split(s, '\n');
    lemma_joined_small(parts);
    lemma_split_joined(s);
    let f = |l: Seq<char>| hex_case::cased_line(HexCase::Small, l);
    let g = |l: Seq<char>| text::lower_text(l);
    assert(parts.map_values(f) =~= parts.map_values(g));
    reveal_strlit("title");
    reveal_strlit("comments");
    reveal_strlit("cuesheet");
    reveal_strlit("disc_id");
    reveal_strlit("disc_key");
    reveal_strlit("universal_hash");
    reveal_strlit("sbi");
    reveal_strlit("pvd");
    reveal_strlit("pic");
    reveal_strlit("bca");
    reveal_strlit("header");
    reveal_strlit("dat");
    assert("title"@.len() == 5 && "comments"@.len() == 8 && "cuesheet"@.len() == 8);
    assert("disc_id"@.len() == 7 && "disc_key"@.len() == 8 && "universal_hash"@.len() == 14);
    assert("sbi"@.len() == 3 && "pvd"@.len() == 3 && "pic"@.len() == 3 && "bca"@.len() == 3);
    assert("header"@.len() == 6 && "dat"@.len() == 3);
    assert("comments"@[0] == 'c' && "cuesheet"@[0] == 'c' && "disc_key"@[0] == 'd');
}

/// The data of a subchannel line is written in capitals, its position as it stands.
pub proof fn law_subchannel_data_is_capital(pre: Seq<char>, data: Seq<char>)
    requires
        forall|i: int| 0 <= i < pre.len() ==> #[trigger] pre[i] != 'Q',
    ensures
        hex_case::canonical_sbi_line(pre + "Q-Data: "@ + data) == pre + "Q-Data: "@ + text::upper_text(data),
{
    reveal_strlit("Q-Data: ");
    let label = "Q-Data: "@;
    let line = pre + label + data;
    let n = pre.len() as int;
    text::lemma_find_from(line, label, 0);
    assert(line.subrange(n, n + 8) =~= label);
    assert(text::stands_at(line, label, n));
    let p = text::find(line, label)->0;
    if p < n {
        assert(line.subrange(p, p + 8)[0] == line[p]);
        assert(line[p] == pre[p]);
        assert(label[0] == 'Q');
    }
    assert(line.take(n + 8) =~= pre + label);
    assert(line.skip(n + 8) =~= data);
}

/// The bytes of a line of a dump are written in capitals, its text as it stands.
pub proof fn law_dump_bytes_are_capital(addr: Seq<char>, bytes: Seq<char>, text: Seq<char>)
    requires
        forall|i: int| 0 <= i < addr.len() ==> #[trigger] addr[i] != ':',
        bytes.len() > 0,
        !text::is_space(bytes[0]),
        !text::is_space(bytes.last()),
        forall|i: int|
            0 <= i < bytes.len() - 1 ==> !(#[trigger] bytes[i] == ' ' && bytes[i + 1] == ' '),
    ensures
        hex_case::capital_dump_line(addr + ": "@ + bytes + "   "@ + text) == text::upper_text(addr) + ": "@
            + text::upper_text(bytes) + "   "@ + text,
{
    reveal_strlit(": ");
    reveal_strlit("   ");
    let line = addr + ": "@ + bytes + "   "@ + text;
    let n = addr.len() as int;
    text::lemma_index_from(line, ':', 0);
    let colon = text::index_from(line, ':', 0);
    assert(line[n] == ':');
    if colon < n {
        assert(line[colon] == addr[colon]);
    }
    let rest = line.skip(n + 1);
    assert(rest =~= seq![' '] + bytes + "   "@ + text);
    let k = text::lemma_trim_start_skip(rest);
    assert(rest[0] == ' ');
    assert(rest[1] == bytes[0]);
    assert(k == 1);
    let b = text::trim_start(rest);
    assert(b =~= bytes + "   "@ + text);
    text::lemma_find_from(b, "   "@, 0);
    let m = bytes.len() as int;
    assert(b.subrange(m, m + 3) =~= "   "@);
    assert(text::stands_at(b, "   "@, m));
    let p = text::find(b, "   "@)->0;
    if p < m {
        assert(b.subrange(p, p + 3)[0] == b[p]);
        assert(b.subrange(p, p + 3)[1] == b[p + 1]);
        assert(b[p] == bytes[p]);
        if p < m - 1 {
            assert(b[p + 1] == bytes[p + 1]);
        }
    }
    let cut = n + 2 + m;
    assert(hex_case::text_column(line) == cut);
    assert(line.take(cut) =~= addr + ": "@ + bytes);
    assert(line.skip(cut) =~= "   "@ + text);
    assert(text::upper_text(addr + ": "@ + bytes) =~= text::upper_text(addr) + ": "@ + text::upper_text(bytes));
    assert(hex_case::capital_dump_line(line) =~= text::upper_text(addr) + ": "@ + text::upper_text(bytes) + "   "@
        + text);
}

} // verus!
