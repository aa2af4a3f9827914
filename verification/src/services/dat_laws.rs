//! What a DAT says of the files of a disc, read back from its text.

use vstd::prelude::*;

use crate::clock;
use crate::models::{self, File, System};
use crate::naming;
use crate::numbers;
use crate::order;
use crate::services::archive_service::{self, ArchiveMetadata, DatfileEntry, GameView, RomView};
use crate::services::validation;
use crate::text;

verus! {

// ── Finding what stands before a mark ──────────────────────────────────────

/// A text does not hold a character.
pub open spec fn lacks(s: Seq<char>, c: char) -> bool {
    forall|i: int| 0 <= i < s.len() ==> #[trigger] s[i] != c
}

/// A text does not hold a word.
spec fn quiet(s: Seq<char>, w: Seq<char>) -> bool {
    forall|i: int| !#[trigger] text::stands_at(s, w, i)
}

proof fn lemma_lacks_append(a: Seq<char>, b: Seq<char>, c: char)
    requires
        lacks(a, c),
        lacks(b, c),
    ensures
        lacks(a + b, c),
{
    assert forall|i: int| 0 <= i < (a + b).len() implies #[trigger] (a + b)[i] != c by {
        if i < a.len() {
            assert((a + b)[i] == a[i]);
        } else {
            assert((a + b)[i] == b[i - a.len()]);
        }
    }
}

/// A word that ends with a mark does not stand in a longer text that holds no more marks.
proof fn lemma_quiet_append(p: Seq<char>, x: Seq<char>, w: Seq<char>, c: char)
    requires
        quiet(p, w.push(c)),
        lacks(x, c),
    ensures
        quiet(p + x, w.push(c)),
{
    let n = w.push(c);
    let all = p + x;
    assert forall|i: int| !#[trigger] text::stands_at(all, n, i) by {
        if text::stands_at(all, n, i) {
            let e = i + n.len();
            assert(all.subrange(i, e)[n.len() - 1] == all[e - 1]);
            assert(n[n.len() - 1] == c);
            if e > p.len() {
                assert(all[e - 1] == x[e - 1 - p.len()]);
            } else {
                assert(p.subrange(i, e) =~= all.subrange(i, e));
                assert(text::stands_at(p, n, i));
            }
        }
    }
}

/// Nor does it with one more mark behind something else than the word.
proof fn lemma_quiet_mark(p: Seq<char>, w: Seq<char>, c: char)
    requires
        quiet(p, w.push(c)),
        !text::ends_with(p, w),
    ensures
        quiet(p.push(c), w.push(c)),
{
    let n = w.push(c);
    let all = p.push(c);
    assert forall|i: int| !#[trigger] text::stands_at(all, n, i) by {
        if text::stands_at(all, n, i) {
            let e = i + n.len();
            if e == all.len() {
                assert(p.skip(p.len() - w.len()) =~= w) by {
                    assert forall|k: int| 0 <= k < w.len() implies #[trigger] p.skip(
                        p.len() - w.len(),
                    )[k] == w[k] by {
                        assert(all.subrange(i, e)[k] == all[i + k]);
                        assert(n[k] == w[k]);
                    }
                }
            } else {
                assert(p.subrange(i, e) =~= all.subrange(i, e));
                assert(text::stands_at(p, n, i));
            }
        }
    }
}

/// A key and the quote behind it, where the key is another one.
proof fn lemma_other_key(p: Seq<char>, key: Seq<char>, w: Seq<char>, k: int)
    requires
        quiet(p, w.push('"')),
        lacks(key, '"'),
        0 < k <= key.len(),
        k <= w.len(),
        key[key.len() - k] != w[w.len() - k],
    ensures
        quiet(p + key + "\""@, w.push('"')),
{
    lemma_quiet_append(p, key, w, '"');
    let all = p + key;
    if text::ends_with(all, w) {
        assert(all.skip(all.len() - w.len())[w.len() - k] == all[all.len() - k]);
    }
    lemma_quiet_mark(all, w, '"');
    reveal_strlit("\"");
    assert(all.push('"') =~= all + "\""@);
}

/// A value and the quote that ends it.
proof fn lemma_value(q: Seq<char>, v: Seq<char>, w: Seq<char>)
    requires
        q.len() > 0,
        q.last() == '"',
        quiet(q, w.push('"')),
        lacks(v, '"'),
        lacks(w, '"'),
        !text::ends_with(v, w),
    ensures
        quiet(q + v + "\""@, w.push('"')),
        (q + v + "\""@).len() > 0,
        (q + v + "\""@).last() == '"',
{
    lemma_quiet_append(q, v, w, '"');
    let all = q + v;
    if text::ends_with(all, w) {
        let d = all.len() - w.len();
        if w.len() <= v.len() {
            assert(v.skip(v.len() - w.len()) =~= all.skip(d));
        } else {
            let k = q.len() - 1 - d;
            assert(all.skip(d)[k] == all[q.len() - 1]);
            assert(w[k] != '"');
        }
    }
    lemma_quiet_mark(all, w, '"');
    reveal_strlit("\"");
    assert(all.push('"') =~= all + "\""@);
}

/// The value of an attribute is what stands in the quotes behind its first occurrence.
proof fn lemma_attribute(p: Seq<char>, attr: Seq<char>, v: Seq<char>, t: Seq<char>)
    requires
        quiet(p, (attr + "="@).push('"')),
        lacks(attr, '"'),
        lacks(v, '"'),
    ensures
        validation::attribute(p + attr + "=\""@ + v + "\""@ + t, attr) == Some(v),
{
    reveal_strlit("=");
    reveal_strlit("\"");
    reveal_strlit("=\"");
    let w = attr + "="@;
    let n = attr + "=\""@;
    assert(n =~= w.push('"'));
    let all = p + attr + "=\""@ + v + "\""@ + t;
    assert(all =~= p + n + (v + "\""@ + t));
    assert(all.subrange(p.len() as int, (p.len() + n.len()) as int) =~= n);
    assert(text::stands_at(all, n, p.len() as int));
    text::lemma_find_from(all, n, 0);
    let f = text::find(all, n)->0;
    assert(f == p.len()) by {
        if f < p.len() {
            let e = f + n.len();
            if e <= p.len() {
                assert(p.subrange(f, e) =~= all.subrange(f, e));
                assert(text::stands_at(p, n, f));
            } else {
                assert(all.subrange(f, e)[n.len() - 1] == all[e - 1]);
                assert(n[n.len() - 1] == '"');
                assert(all[e - 1] == n[e - 1 - p.len()]);
                if e - 1 - p.len() < attr.len() {
                    assert(n[e - 1 - p.len()] == attr[e - 1 - p.len()]);
                } else {
                    assert(n[e - 1 - p.len()] == '=');
                }
            }
        }
        assert(!(p.len() < f));
    }
    let rest = all.skip(f + n.len());
    assert(rest =~= v + "\""@ + t);
    text::lemma_index_from(rest, '"', 0);
    let q = text::index_from(rest, '"', 0);
    assert(rest[v.len() as int] == '"');
    if q < v.len() {
        assert(rest[q] == v[q]);
    }
    assert(rest.take(q) =~= v);
}

// ── Texts in a DAT ─────────────────────────────────────────────────────────

/// What a text in a DAT stands for.
pub open spec fn unescaped(s: Seq<char>) -> Seq<char>
    decreases s.len(),
{
    if s.len() == 0 {
        Seq::empty()
    } else if s.len() >= 5 && text::starts_with(s, "&amp;"@) {
        seq!['&'] + unescaped(s.skip(5))
    } else if s.len() >= 4 && text::starts_with(s, "&lt;"@) {
        seq!['<'] + unescaped(s.skip(4))
    } else if s.len() >= 4 && text::starts_with(s, "&gt;"@) {
        seq!['>'] + unescaped(s.skip(4))
    } else if s.len() >= 6 && text::starts_with(s, "&quot;"@) {
        seq!['"'] + unescaped(s.skip(6))
    } else {
        seq![s[0]] + unescaped(s.skip(1))
    }
}

proof fn lemma_escaped_front(c: char, t: Seq<char>)
    ensures
        archive_service::escaped(seq![c] + t) == archive_service::escaped_char(c) + archive_service::escaped(t),
    decreases t.len(),
{
    let all = seq![c] + t;
    if t.len() == 0 {
        assert(all.drop_last() =~= Seq::<char>::empty());
        assert(all.last() == c);
        assert(archive_service::escaped(Seq::<char>::empty()) =~= Seq::<char>::empty());
        assert(t =~= Seq::<char>::empty());
        assert(archive_service::escaped(all) =~= archive_service::escaped_char(c) + archive_service::escaped(t));
    } else {
        lemma_escaped_front(c, t.drop_last());
        assert(all.drop_last() =~= seq![c] + t.drop_last());
        assert(all.last() == t.last());
        assert(archive_service::escaped(all) =~= archive_service::escaped_char(c) + archive_service::escaped(t));
    }
}

/// A text in a DAT stands for the text that was written, and holds no character that would
/// end an attribute or begin an element.
pub proof fn law_texts_read_back(s: Seq<char>)
    ensures
        unescaped(archive_service::escaped(s)) == s,
        lacks(archive_service::escaped(s), '"'),
        lacks(archive_service::escaped(s), '<'),
        lacks(archive_service::escaped(s), '>'),
    decreases s.len(),
{
    reveal_strlit("&amp;");
    reveal_strlit("&lt;");
    reveal_strlit("&gt;");
    reveal_strlit("&quot;");
    if s.len() == 0 {
        assert(unescaped(archive_service::escaped(s)) =~= s);
    } else {
        let c = s[0];
        let t = s.skip(1);
        law_texts_read_back(t);
        assert(s =~= seq![c] + t);
        lemma_escaped_front(c, t);
        let e = archive_service::escaped_char(c);
        let all = archive_service::escaped(s);
        assert(all == e + archive_service::escaped(t));
        lemma_lacks_append(e, archive_service::escaped(t), '"');
        lemma_lacks_append(e, archive_service::escaped(t), '<');
        lemma_lacks_append(e, archive_service::escaped(t), '>');
        assert(all.skip(e.len() as int) =~= archive_service::escaped(t));
        assert(all.take(e.len() as int) =~= e);
        assert(all[0] == e[0]);
        assert(all[1] == (e + archive_service::escaped(t))[1]);
        if text::starts_with(all, "&amp;"@) {
            assert(all.take(5)[0] == all[0]);
            assert(all.take(5)[1] == all[1]);
        }
        if text::starts_with(all, "&lt;"@) {
            assert(all.take(4)[0] == all[0]);
            assert(all.take(4)[1] == all[1]);
        }
        if text::starts_with(all, "&gt;"@) {
            assert(all.take(4)[0] == all[0]);
            assert(all.take(4)[1] == all[1]);
        }
        if text::starts_with(all, "&quot;"@) {
            assert(all.take(6)[0] == all[0]);
            assert(all.take(6)[1] == all[1]);
        }
        if c == '&' {
            assert(e == "&amp;"@);
        } else if c == '<' {
            assert(e == "&lt;"@);
        } else if c == '>' {
            assert(e == "&gt;"@);
        } else if c == '"' {
            assert(e == "&quot;"@);
        } else {
            assert(e =~= seq![c]);
        }
        assert(unescaped(all) =~= seq![c] + unescaped(archive_service::escaped(t)));
    }
}

// ── The line of a file ─────────────────────────────────────────────────────

/// A value that ends neither an attribute nor in the middle of one.
pub open spec fn is_plain(s: Seq<char>) -> bool {
    lacks(s, '"') && lacks(s, '=')
}

proof fn lemma_plain(s: Seq<char>, w: Seq<char>)
    requires
        lacks(s, '='),
        w.len() > 0,
        w.last() == '=',
    ensures
        !text::ends_with(s, w),
{
    if text::ends_with(s, w) {
        assert(s.skip(s.len() - w.len())[w.len() - 1] == s[s.len() - 1]);
    }
}

proof fn lemma_int_text(n: int)
    ensures
        is_plain(numbers::int_text(n)),
{
    let m = if n < 0 {
        (-n) as nat
    } else {
        n as nat
    };
    numbers::law_nat_text_reads_back(m);
    let d = numbers::nat_text(m);
    assert forall|i: int| 0 <= i < numbers::int_text(n).len() implies #[trigger] numbers::int_text(n)[i] != '"'
        && numbers::int_text(n)[i] != '=' by {
        if n < 0 {
            if i > 0 {
                assert(numbers::int_text(n)[i] == d[i - 1]);
                assert(text::is_digit(d[i - 1]));
            }
        } else {
            assert(numbers::int_text(n)[i] == d[i]);
            assert(text::is_digit(d[i]));
        }
    }
}

/// The name of a file does not end like the beginning of another attribute.
pub open spec fn is_nameable(name: Seq<char>) -> bool {
    name.len() > 0 ==> name.last() != '='
}

proof fn lemma_nameable(name: Seq<char>, w: Seq<char>)
    requires
        is_nameable(name),
        w.len() > 0,
        w.last() == '=',
    ensures
        !text::ends_with(archive_service::escaped(name), w),
{
    reveal_strlit("&amp;");
    reveal_strlit("&lt;");
    reveal_strlit("&gt;");
    reveal_strlit("&quot;");
    let e = archive_service::escaped(name);
    if text::ends_with(e, w) {
        assert(e.skip(e.len() - w.len())[w.len() - 1] == e[e.len() - 1]);
        if name.len() > 0 {
            let c = archive_service::escaped_char(name.last());
            assert(e[e.len() - 1] == c[c.len() - 1]);
        }
    }
}

/// The text of a line up to the value of its second, third, fourth and fifth attribute.
spec fn to_size(r: RomView) -> Seq<char> {
    "\t\t<rom name=\""@ + archive_service::escaped(r.name) + "\""@ + " size="@ + "\""@
}

spec fn to_crc(r: RomView) -> Seq<char> {
    to_size(r) + numbers::int_text(r.size) + "\""@ + " crc="@ + "\""@
}

spec fn to_md5(r: RomView) -> Seq<char> {
    to_crc(r) + r.crc + "\""@ + " md5="@ + "\""@
}

proof fn lemma_to_size(r: RomView, w: Seq<char>)
    requires
        is_nameable(r.name),
        lacks(w, '"'),
        w == "crc="@ || w == "md5="@ || w == "sha1="@ || w == "size="@,
    ensures
        quiet("\t\t<rom name=\""@ + archive_service::escaped(r.name) + "\""@, w.push('"')),
        w != "size="@ ==> quiet(to_size(r), w.push('"')),
        to_size(r).last() == '"',
{
    reveal_strlit("\t\t<rom name=\"");
    reveal_strlit("\t\t<rom name=");
    reveal_strlit("\"");
    reveal_strlit(" size=");
    reveal_strlit("size=");
    reveal_strlit("crc=");
    reveal_strlit("md5=");
    reveal_strlit("sha1=");
    let none = Seq::<char>::empty();
    assert(quiet(none, w.push('"')));
    let k: int = if w == "size="@ {
        3
    } else {
        2
    };
    lemma_other_key(none, "\t\t<rom name="@, w, k);
    let a = none + "\t\t<rom name="@ + "\""@;
    assert(a =~= "\t\t<rom name=\""@);
    law_texts_read_back(r.name);
    lemma_nameable(r.name, w);
    lemma_value(a, archive_service::escaped(r.name), w);
    if w != "size="@ {
        lemma_other_key(a + archive_service::escaped(r.name) + "\""@, " size="@, w, 2);
    }
}

proof fn lemma_to_md5(r: RomView, w: Seq<char>)
    requires
        is_nameable(r.name),
        is_plain(r.crc),
        lacks(w, '"'),
        w == "md5="@ || w == "sha1="@,
    ensures
        quiet(to_crc(r) + r.crc + "\""@, w.push('"')),
        w == "sha1="@ ==> quiet(to_md5(r), w.push('"')),
        to_md5(r).last() == '"',
{
    reveal_strlit("\"");
    reveal_strlit(" crc=");
    reveal_strlit(" md5=");
    reveal_strlit("md5=");
    reveal_strlit("sha1=");
    lemma_to_size(r, w);
    lemma_size_differs();
    lemma_int_text(r.size);
    lemma_plain(numbers::int_text(r.size), w);
    lemma_value(to_size(r), numbers::int_text(r.size), w);
    lemma_other_key(to_size(r) + numbers::int_text(r.size) + "\""@, " crc="@, w, 2);
    lemma_plain(r.crc, w);
    lemma_value(to_crc(r), r.crc, w);
    if w == "sha1="@ {
        lemma_other_key(to_crc(r) + r.crc + "\""@, " md5="@, w, 2);
    }
}

proof fn lemma_size_differs()
    ensures
        "crc="@ != "size="@,
        "md5="@ != "size="@,
        "sha1="@ != "size="@,
{
    reveal_strlit("size=");
    reveal_strlit("crc=");
    reveal_strlit("md5=");
    reveal_strlit("sha1=");
    assert("crc="@.len() == 4 && "md5="@.len() == 4 && "size="@.len() == 5);
    assert("sha1="@[1] == 'h' && "size="@[1] == 'i');
}

/// The attributes of the line of a file give its name, size and hashes, each under its own
/// key.
pub proof fn law_file_line_reads_back(r: RomView)
    requires
        is_nameable(r.name),
        is_plain(r.crc),
        is_plain(r.md5),
        is_plain(r.sha1),
    ensures
        validation::attribute(archive_service::rom_xml(r), "name"@) == Some(archive_service::escaped(r.name)),
        validation::attribute(archive_service::rom_xml(r), "size"@) == Some(numbers::int_text(r.size)),
        validation::attribute(archive_service::rom_xml(r), "crc"@) == Some(r.crc),
        validation::attribute(archive_service::rom_xml(r), "md5"@) == Some(r.md5),
        validation::attribute(archive_service::rom_xml(r), "sha1"@) == Some(r.sha1),
{
    lemma_reads_name(r);
    lemma_reads_size(r);
    lemma_reads_crc(r);
    lemma_reads_md5(r);
    lemma_reads_sha1(r);
}

proof fn lemma_reads_name(r: RomView)
    ensures
        validation::attribute(archive_service::rom_xml(r), "name"@) == Some(archive_service::escaped(r.name)),
{
    reveal_strlit("\t\t<rom name=\"");
    reveal_strlit("\t\t<rom ");
    reveal_strlit("name");
    reveal_strlit("=");
    reveal_strlit("=\"");
    reveal_strlit("\"");
    reveal_strlit("\" size=\"");
    reveal_strlit(" size=\"");
    let none = Seq::<char>::empty();
    let w = "name"@ + "="@;
    assert(quiet(none, w.push('"')));
    lemma_quiet_append(none, "\t\t<rom "@, w, '"');
    assert(none + "\t\t<rom "@ =~= "\t\t<rom "@);
    law_texts_read_back(r.name);
    let t = " size=\""@ + numbers::int_text(r.size) + "\" crc=\""@ + r.crc + "\" md5=\""@ + r.md5
        + "\" sha1=\""@ + r.sha1 + "\"/>\n"@;
    lemma_attribute("\t\t<rom "@, "name"@, archive_service::escaped(r.name), t);
    assert("\t\t<rom name=\""@ =~= "\t\t<rom "@ + "name"@ + "=\""@);
    assert("\" size=\""@ =~= "\""@ + " size=\""@);
    assert(archive_service::rom_xml(r) =~= "\t\t<rom "@ + "name"@ + "=\""@ + archive_service::escaped(r.name) + "\""@ + t);
}

proof fn lemma_reads_size(r: RomView)
    requires
        is_nameable(r.name),
    ensures
        validation::attribute(archive_service::rom_xml(r), "size"@) == Some(numbers::int_text(r.size)),
{
    reveal_strlit("size");
    reveal_strlit("=");
    reveal_strlit("size=");
    reveal_strlit("=\"");
    reveal_strlit("\"");
    reveal_strlit(" ");
    reveal_strlit("\" size=\"");
    reveal_strlit("\" crc=\"");
    reveal_strlit(" crc=\"");
    let w = "size"@ + "="@;
    assert(w =~= "size="@);
    lemma_to_size(r, w);
    lemma_int_text(r.size);
    let p = "\t\t<rom name=\""@ + archive_service::escaped(r.name) + "\""@;
    lemma_quiet_append(p, " "@, w, '"');
    let t = " crc=\""@ + r.crc + "\" md5=\""@ + r.md5 + "\" sha1=\""@ + r.sha1 + "\"/>\n"@;
    lemma_attribute(p + " "@, "size"@, numbers::int_text(r.size), t);
    assert("\" size=\""@ =~= "\""@ + " "@ + "size"@ + "=\""@);
    assert("\" crc=\""@ =~= "\""@ + " crc=\""@);
    assert(archive_service::rom_xml(r) =~= p + " "@ + "size"@ + "=\""@ + numbers::int_text(r.size) + "\""@ + t);
}

proof fn lemma_reads_crc(r: RomView)
    requires
        is_nameable(r.name),
        is_plain(r.crc),
    ensures
        validation::attribute(archive_service::rom_xml(r), "crc"@) == Some(r.crc),
{
    reveal_strlit("crc");
    reveal_strlit("=");
    reveal_strlit("crc=");
    reveal_strlit("=\"");
    reveal_strlit("\"");
    reveal_strlit(" ");
    reveal_strlit(" size=");
    reveal_strlit("\" size=\"");
    reveal_strlit("\" crc=\"");
    reveal_strlit("\" md5=\"");
    reveal_strlit(" md5=\"");
    let w = "crc"@ + "="@;
    assert(w =~= "crc="@);
    lemma_size_differs();
    lemma_to_size(r, w);
    lemma_int_text(r.size);
    lemma_plain(numbers::int_text(r.size), w);
    lemma_value(to_size(r), numbers::int_text(r.size), w);
    let p = to_size(r) + numbers::int_text(r.size) + "\""@;
    lemma_quiet_append(p, " "@, w, '"');
    let t = " md5=\""@ + r.md5 + "\" sha1=\""@ + r.sha1 + "\"/>\n"@;
    lemma_attribute(p + " "@, "crc"@, r.crc, t);
    assert("\" size=\""@ =~= "\""@ + " size="@ + "\""@);
    assert("\" crc=\""@ =~= "\""@ + " "@ + "crc"@ + "=\""@);
    assert("\" md5=\""@ =~= "\""@ + " md5=\""@);
    assert(archive_service::rom_xml(r) =~= p + " "@ + "crc"@ + "=\""@ + r.crc + "\""@ + t);
}

proof fn lemma_reads_md5(r: RomView)
    requires
        is_nameable(r.name),
        is_plain(r.crc),
        is_plain(r.md5),
    ensures
        validation::attribute(archive_service::rom_xml(r), "md5"@) == Some(r.md5),
{
    reveal_strlit("md5");
    reveal_strlit("=");
    reveal_strlit("md5=");
    reveal_strlit("=\"");
    reveal_strlit("\"");
    reveal_strlit(" ");
    reveal_strlit(" size=");
    reveal_strlit(" crc=");
    reveal_strlit("\" size=\"");
    reveal_strlit("\" crc=\"");
    reveal_strlit("\" md5=\"");
    reveal_strlit("\" sha1=\"");
    reveal_strlit(" sha1=\"");
    let w = "md5"@ + "="@;
    assert(w =~= "md5="@);
    lemma_to_md5(r, w);
    let p = to_crc(r) + r.crc + "\""@;
    lemma_quiet_append(p, " "@, w, '"');
    let t = " sha1=\""@ + r.sha1 + "\"/>\n"@;
    lemma_attribute(p + " "@, "md5"@, r.md5, t);
    assert("\" size=\""@ =~= "\""@ + " size="@ + "\""@);
    assert("\" crc=\""@ =~= "\""@ + " crc="@ + "\""@);
    assert("\" md5=\""@ =~= "\""@ + " "@ + "md5"@ + "=\""@);
    assert("\" sha1=\""@ =~= "\""@ + " sha1=\""@);
    assert(archive_service::rom_xml(r) =~= p + " "@ + "md5"@ + "=\""@ + r.md5 + "\""@ + t);
}

proof fn lemma_reads_sha1(r: RomView)
    requires
        is_nameable(r.name),
        is_plain(r.crc),
        is_plain(r.md5),
        is_plain(r.sha1),
    ensures
        validation::attribute(archive_service::rom_xml(r), "sha1"@) == Some(r.sha1),
{
    reveal_strlit("sha1");
    reveal_strlit("=");
    reveal_strlit("sha1=");
    reveal_strlit("=\"");
    reveal_strlit("\"");
    reveal_strlit(" ");
    reveal_strlit(" size=");
    reveal_strlit(" crc=");
    reveal_strlit(" md5=");
    reveal_strlit("\" size=\"");
    reveal_strlit("\" crc=\"");
    reveal_strlit("\" md5=\"");
    reveal_strlit("\" sha1=\"");
    reveal_strlit("\"/>\n");
    reveal_strlit("/>\n");
    let w = "sha1"@ + "="@;
    assert(w =~= "sha1="@);
    lemma_to_md5(r, w);
    lemma_plain(r.md5, w);
    lemma_value(to_md5(r), r.md5, w);
    let p = to_md5(r) + r.md5 + "\""@;
    lemma_quiet_append(p, " "@, w, '"');
    lemma_attribute(p + " "@, "sha1"@, r.sha1, "/>\n"@);
    assert("\" size=\""@ =~= "\""@ + " size="@ + "\""@);
    assert("\" crc=\""@ =~= "\""@ + " crc="@ + "\""@);
    assert("\" md5=\""@ =~= "\""@ + " md5="@ + "\""@);
    assert("\" sha1=\""@ =~= "\""@ + " "@ + "sha1"@ + "=\""@);
    assert("\"/>\n"@ =~= "\""@ + "/>\n"@);
    assert(archive_service::rom_xml(r) =~= p + " "@ + "sha1"@ + "=\""@ + r.sha1 + "\""@ + "/>\n"@);
}

// ── The files of a disc in a DAT ───────────────────────────────────────────

/// A text is part of another one.
pub open spec fn is_part(part: Seq<char>, whole: Seq<char>) -> bool {
    exists|a: Seq<char>, b: Seq<char>| #[trigger] (a + part + b) == whole
}

proof fn lemma_part(a: Seq<char>, part: Seq<char>, b: Seq<char>, whole: Seq<char>)
    requires
        whole == a + part + b,
    ensures
        is_part(part, whole),
{
}

proof fn lemma_part_within(part: Seq<char>, middle: Seq<char>, whole: Seq<char>)
    requires
        is_part(part, middle),
        is_part(middle, whole),
    ensures
        is_part(part, whole),
{
    let (a, b) = choose|a: Seq<char>, b: Seq<char>| #[trigger] (a + part + b) == middle;
    let (c, d) = choose|c: Seq<char>, d: Seq<char>| #[trigger] (c + middle + d) == whole;
    assert((c + a) + part + (b + d) =~= whole);
}

proof fn lemma_rom_part(v: Seq<RomView>, i: int)
    requires
        0 <= i < v.len(),
    ensures
        is_part(archive_service::rom_xml(v[i]), archive_service::roms_xml(v)),
    decreases v.len(),
{
    let front = v.drop_last();
    if i == v.len() - 1 {
        lemma_part(archive_service::roms_xml(front), archive_service::rom_xml(v[i]), Seq::empty(), archive_service::roms_xml(v));
    } else {
        lemma_rom_part(front, i);
        lemma_part(Seq::empty(), archive_service::roms_xml(front), archive_service::rom_xml(v.last()), archive_service::roms_xml(v));
        lemma_part_within(archive_service::rom_xml(v[i]), archive_service::roms_xml(front), archive_service::roms_xml(v));
    }
}

proof fn lemma_game_part(v: Seq<GameView>, i: int)
    requires
        0 <= i < v.len(),
    ensures
        is_part(archive_service::game_xml(v[i]), archive_service::games_xml(v)),
    decreases v.len(),
{
    let front = v.drop_last();
    if i == v.len() - 1 {
        lemma_part(archive_service::games_xml(front), archive_service::game_xml(v[i]), Seq::empty(), archive_service::games_xml(v));
    } else {
        lemma_game_part(front, i);
        lemma_part(Seq::empty(), archive_service::games_xml(front), archive_service::game_xml(v.last()), archive_service::games_xml(v));
        lemma_part_within(archive_service::game_xml(v[i]), archive_service::games_xml(front), archive_service::games_xml(v));
    }
}

proof fn lemma_file_listed(
    files: Seq<File>,
    cue_active: bool,
    base: Seq<char>,
    total: nat,
    ext: Seq<char>,
    k: int,
) -> (i: int)
    requires
        0 <= k < files.len(),
        files[k].track_number is Some || cue_active,
    ensures
        0 <= i < archive_service::roms_of(files, cue_active, base, total, ext).len(),
        archive_service::roms_of(files, cue_active, base, total, ext)[i] == archive_service::rom_of(files[k], base, total, ext),
    decreases files.len(),
{
    let all = archive_service::roms_of(files, cue_active, base, total, ext);
    if k == files.len() - 1 {
        all.len() - 1
    } else {
        let i = lemma_file_listed(files.drop_last(), cue_active, base, total, ext, k);
        i
    }
}

/// A text has a line of a file with a size and hashes.
pub open spec fn lists_file(text: Seq<char>, name: Seq<char>, f: File) -> bool {
    exists|line: Seq<char>|
        {
            &&& #[trigger] is_part(line, text)
            &&& validation::attribute(line, "name"@) == Some(archive_service::escaped(name))
            &&& validation::attribute(line, "size"@) matches Some(n) && numbers::i64_value(n) == Some(f.size as int)
            &&& validation::attribute(line, "crc"@) == Some(f.crc32@)
            &&& validation::attribute(line, "md5"@) == Some(f.md5@)
            &&& validation::attribute(line, "sha1"@) == Some(f.sha1@)
        }
}

/// The DAT of a system lists the files of its discs: every track, and the cuesheet where
/// cuesheets are used, each on a line that gives its name, its size and its hashes.
pub proof fn law_dat_lists_the_files(
    metadata: ArchiveMetadata,
    sys: System,
    entries: Seq<DatfileEntry>,
    now: int,
    e: int,
    k: int,
)
    requires
        0 <= e < entries.len(),
        0 <= k < entries[e].files@.len(),
        ({
            let d = entries[e].disc;
            let f = entries[e].files@[k];
            &&& f.track_number is Some || models::cue_is_active(
                sys.media_types@,
                d.media_type_code@,
                d.rom_extension@,
            )
            &&& is_plain(f.crc32@)
            &&& is_plain(f.md5@)
            &&& is_plain(f.sha1@)
            &&& is_nameable(
                archive_service::rom_of(
                    f,
                    archive_service::game_name(entries[e]),
                    archive_service::tracks_among(entries[e].files@),
                    d.rom_extension@,
                ).name,
            )
        }),
    ensures
        lists_file(
            archive_service::datfile(metadata, sys, entries, now),
            naming::dat_name(
                archive_service::game_name(entries[e]),
                text::opt_text(entries[e].files@[k].track_number),
                archive_service::tracks_among(entries[e].files@),
                if entries[e].files@[k].track_number is Some {
                    entries[e].disc.rom_extension@
                } else {
                    "cue"@
                },
            ),
            entries[e].files@[k],
        ),
{
    let entry = entries[e];
    let d = entry.disc;
    let f = entry.files@[k];
    let active = models::cue_is_active(sys.media_types@, d.media_type_code@, d.rom_extension@);
    let total = archive_service::tracks_among(entry.files@);
    let base = archive_service::game_name(entry);
    let ext = d.rom_extension@;
    let r = archive_service::rom_of(f, base, total, ext);
    let stored = archive_service::roms_of(entry.files@, active, base, total, ext);
    let i = lemma_file_listed(entry.files@, active, base, total, ext, k);
    let ks = stored.map_values(|r: RomView| archive_service::rom_key(r));
    order::law_stable_order(ks);
    let o = order::stable_order(ks);
    assert(o.contains(i));
    let j = choose|j: int| 0 <= j < o.len() && o[j] == i;
    let game = archive_service::game_of(entry, sys);
    assert(game.roms[j] == r);
    lemma_rom_part(game.roms, j);
    let gs = entries.map_values(|e: DatfileEntry| archive_service::game_of(e, sys));
    let gk = gs.map_values(|g: GameView| archive_service::game_key(g));
    order::law_stable_order(gk);
    let p = order::stable_order(gk);
    assert(p.contains(e));
    let q = choose|q: int| 0 <= q < p.len() && p[q] == e;
    let sorted = archive_service::sorted_games(entries, sys);
    assert(gs[e] == game);
    assert(sorted[q] == game);
    lemma_game_part(sorted, q);
    lemma_part(
        "\t<game name=\""@ + archive_service::escaped(game.name) + "\" id=\""@ + numbers::int_text(game.id as int)
            + "\">\n\t\t<category>"@ + archive_service::escaped(game.category)
            + "</category>\n\t\t<description>"@ + archive_service::escaped(game.name) + "</description>\n"@,
        archive_service::roms_xml(game.roms),
        "\t</game>\n"@,
        archive_service::game_xml(game),
    );
    lemma_part_within(archive_service::rom_xml(r), archive_service::roms_xml(game.roms), archive_service::game_xml(game));
    lemma_part_within(archive_service::rom_xml(r), archive_service::game_xml(game), archive_service::games_xml(sorted));
    let text = archive_service::datfile(metadata, sys, entries, now);
    lemma_part(
        archive_service::head_xml(
            metadata,
            archive_service::archive_system_name(sys),
            archive_service::archive_title(sys, "Datfile"@, entries.len(), now),
            clock::time_text(now, crate::clock::ARCHIVE_STAMP@),
        ),
        archive_service::games_xml(sorted),
        "</datafile>\n"@,
        text,
    );
    lemma_part_within(archive_service::rom_xml(r), archive_service::games_xml(sorted), text);
    law_file_line_reads_back(r);
    numbers::law_int_text_reads_back(f.size);
    assert(is_part(archive_service::rom_xml(r), text));
}

/// What is written for a file whose hashes are complete is a line that is accepted.
pub proof fn law_written_lines_are_accepted(r: RomView, row: nat)
    requires
        is_nameable(r.name),
        r.name.len() > 0,
        0 <= r.size <= i64::MAX,
        r.crc.len() == 8 && text::all_hex(r.crc),
        r.md5.len() == 32 && text::all_hex(r.md5),
        r.sha1.len() == 40 && text::all_hex(r.sha1),
    ensures
        validation::dat_line(text::trim(archive_service::rom_xml(r)), row) == Ok::<Seq<char>, Seq<char>>(archive_service::escaped(r.name)),
{
    lemma_hex_plain(r.crc);
    lemma_hex_plain(r.md5);
    lemma_hex_plain(r.sha1);
    law_file_line_reads_back(r);
    lemma_trimmed_line(r);
    lemma_trimmed_attributes(r);
    numbers::law_int_text_reads_back(r.size as i64);
    numbers::law_nat_text_reads_back(r.size as nat);
    assert(text::is_digit(numbers::nat_text(r.size as nat)[0]));
    reveal_strlit("&amp;");
    reveal_strlit("&lt;");
    reveal_strlit("&gt;");
    reveal_strlit("&quot;");
    assert(archive_service::escaped(r.name).len() > 0);
    reveal_strlit("<rom ");
    reveal_strlit("<rom name=\"");
    reveal_strlit("/>");
    let l = text::trim(archive_service::rom_xml(r));
    assert(l.take(5) =~= "<rom "@);
    assert(l.skip(l.len() - 2) =~= "/>"@);
}

pub proof fn lemma_hex_plain(s: Seq<char>)
    requires
        text::all_hex(s),
    ensures
        is_plain(s),
{
    assert forall|i: int| 0 <= i < s.len() implies #[trigger] s[i] != '"' && s[i] != '=' by {
        assert(text::is_hex(s[i]));
    }
}

/// A line without the space around it.
spec fn trimmed_line(r: RomView) -> Seq<char> {
    "<rom name=\""@ + archive_service::escaped(r.name) + "\" size=\""@ + numbers::int_text(r.size) + "\" crc=\""@ + r.crc
        + "\" md5=\""@ + r.md5 + "\" sha1=\""@ + r.sha1 + "\""@ + "/>"@
}

proof fn lemma_trimmed_line(r: RomView)
    ensures
        text::trim(archive_service::rom_xml(r)) == trimmed_line(r),
        archive_service::rom_xml(r) == "\t\t"@ + trimmed_line(r) + "\n"@,
{
    reveal_strlit("\t\t<rom name=\"");
    reveal_strlit("\t\t");
    reveal_strlit("<rom name=\"");
    reveal_strlit("\"/>\n");
    reveal_strlit("\"");
    reveal_strlit("/>");
    reveal_strlit("\n");
    let l = trimmed_line(r);
    let all = archive_service::rom_xml(r);
    assert("\t\t<rom name=\""@ =~= "\t\t"@ + "<rom name=\""@);
    assert("\"/>\n"@ =~= "\""@ + "/>"@ + "\n"@);
    assert(all =~= "\t\t"@ + l + "\n"@);
    let k = text::lemma_trim_start_skip(all);
    assert(all[0] == '\t' && all[1] == '\t');
    assert(l[0] == '<');
    assert(all[2] == l[0]);
    assert(k == 2);
    let a = all.skip(2);
    assert(a =~= l + "\n"@);
    let m = text::lemma_trim_end_take(a);
    assert(l[l.len() - 1] == '>');
    assert(a[a.len() - 1] == '\n');
    assert(a[a.len() - 2] == l[l.len() - 1]);
    assert(m == l.len());
    assert(a.take(m) =~= l);
}

/// Space around a line does not change its attributes.
proof fn lemma_attribute_trimmed(pre: Seq<char>, l: Seq<char>, post: Seq<char>, attr: Seq<char>)
    requires
        validation::attribute(pre + l + post, attr) is Some,
        lacks(pre, '"'),
        lacks(post, '"'),
        forall|i: int| 0 <= i < pre.len() ==> text::is_space(#[trigger] pre[i]),
        forall|i: int| 0 <= i < attr.len() ==> !text::is_space(#[trigger] attr[i]),
        attr.len() > 0,
    ensures
        validation::attribute(l, attr) == validation::attribute(pre + l + post, attr),
{
    reveal_strlit("=\"");
    let all = pre + l + post;
    let n = attr + "=\""@;
    text::lemma_find_from(all, n, 0);
    text::lemma_find_from(l, n, 0);
    let f = text::find(all, n)->0;
    let rest = all.skip(f + n.len());
    text::lemma_index_from(rest, '"', 0);
    let q = text::index_from(rest, '"', 0);
    if f < pre.len() {
        assert(all.subrange(f, f + n.len())[0] == all[f]);
        assert(all[f] == pre[f]);
        assert(n[0] == attr[0]);
    }
    assert(all[f + n.len() + q] == '"');
    if f + n.len() + q >= pre.len() + l.len() {
        assert(all[f + n.len() + q] == post[f + n.len() + q - pre.len() - l.len()]);
    }
    let g = f - pre.len();
    assert(l.subrange(g, g + n.len()) =~= all.subrange(f, f + n.len()));
    assert(text::stands_at(l, n, g));
    let h = text::find(l, n)->0;
    assert(h == g) by {
        assert(all.subrange(h + pre.len(), h + pre.len() + n.len()) =~= l.subrange(
            h,
            h + n.len(),
        ));
        assert(text::stands_at(all, n, h + pre.len()));
    }
    let r2 = l.skip(g + n.len());
    text::lemma_index_from(r2, '"', 0);
    let q2 = text::index_from(r2, '"', 0);
    assert forall|i: int| 0 <= i < r2.len() implies #[trigger] r2[i] == rest[i] by {}
    assert(r2[q] == '"');
    assert(q2 == q) by {
        if q2 < q {
            assert(rest[q2] == r2[q2]);
        }
    }
    assert(r2.take(q) =~= rest.take(q));
}

pub proof fn lemma_trimmed_attributes(r: RomView)
    requires
        is_nameable(r.name),
        is_plain(r.crc),
        is_plain(r.md5),
        is_plain(r.sha1),
    ensures
        validation::attribute(text::trim(archive_service::rom_xml(r)), "name"@) == Some(archive_service::escaped(r.name)),
        validation::attribute(text::trim(archive_service::rom_xml(r)), "size"@) == Some(numbers::int_text(r.size)),
        validation::attribute(text::trim(archive_service::rom_xml(r)), "crc"@) == Some(r.crc),
        validation::attribute(text::trim(archive_service::rom_xml(r)), "md5"@) == Some(r.md5),
        validation::attribute(text::trim(archive_service::rom_xml(r)), "sha1"@) == Some(r.sha1),
{
    law_file_line_reads_back(r);
    lemma_trimmed_line(r);
    reveal_strlit("\t\t");
    reveal_strlit("\n");
    reveal_strlit("name");
    reveal_strlit("size");
    reveal_strlit("crc");
    reveal_strlit("md5");
    reveal_strlit("sha1");
    let l = trimmed_line(r);
    lemma_attribute_trimmed("\t\t"@, l, "\n"@, "name"@);
    lemma_attribute_trimmed("\t\t"@, l, "\n"@, "size"@);
    lemma_attribute_trimmed("\t\t"@, l, "\n"@, "crc"@);
    lemma_attribute_trimmed("\t\t"@, l, "\n"@, "md5"@);
    lemma_attribute_trimmed("\t\t"@, l, "\n"@, "sha1"@);
}

// ── Elements of a DAT ──────────────────────────────────────────────────────

/// The text of the first element of a name: what stands behind its tag up to the next one.
pub open spec fn element(text: Seq<char>, tag: Seq<char>) -> Option<Seq<char>> {
    let needle = "<"@ + tag + ">"@;
    match text::find(text, needle) {
        None => None,
        Some(p) => {
            let rest = text.skip(p + needle.len());
            let q = text::index_from(rest, '<', 0);
            if q < rest.len() {
                Some(rest.take(q))
            } else {
                None
            }
        },
    }
}

/// A name of an element.
spec fn is_tag(tag: Seq<char>) -> bool {
    lacks(tag, '<') && lacks(tag, '>') && lacks(tag, '/')
}

/// Another tag is not the one that is looked for.
proof fn lemma_other_tag(p: Seq<char>, r: Seq<char>, tag: Seq<char>)
    requires
        quiet(p, ("<"@ + tag).push('>')),
        lacks(r, '<'),
        lacks(r, '>'),
        is_tag(tag),
        r != tag,
    ensures
        quiet(p + "<"@ + r + ">"@, ("<"@ + tag).push('>')),
{
    reveal_strlit("<");
    reveal_strlit(">");
    let w = "<"@ + tag;
    let x = "<"@ + r;
    assert(lacks(x, '>')) by {
        lemma_lacks_append("<"@, r, '>');
    }
    lemma_quiet_append(p, x, w, '>');
    let all = p + x;
    if text::ends_with(all, w) {
        let d = all.len() - w.len();
        let tail = all.skip(d);
        assert(tail[0] == '<');
        assert(all[d] == '<');
        if tag.len() == r.len() {
            assert(r =~= tag) by {
                assert forall|i: int| 0 <= i < r.len() implies #[trigger] r[i] == tag[i] by {
                    assert(tail[i + 1] == w[i + 1]);
                    assert(all[d + i + 1] == x[i + 1]);
                }
            }
        } else if tag.len() < r.len() {
            assert(all[d] == x[d - p.len()]);
            assert(x[d - p.len()] == r[d - p.len() - 1]);
        } else {
            let k = tag.len() - r.len();
            assert(all[d + k] == x[0]);
            assert(tail[k as int] == all[d + k]);
            assert(w[k as int] == tag[k - 1]);
        }
    }
    lemma_quiet_mark(all, w, '>');
    assert(all.push('>') =~= p + "<"@ + r + ">"@);
}

proof fn lemma_element(p: Seq<char>, tag: Seq<char>, v: Seq<char>, t: Seq<char>)
    requires
        quiet(p, ("<"@ + tag).push('>')),
        is_tag(tag),
        lacks(v, '<'),
    ensures
        element(p + "<"@ + tag + ">"@ + v + "<"@ + t, tag) == Some(v),
{
    reveal_strlit("<");
    reveal_strlit(">");
    let w = "<"@ + tag;
    let n = "<"@ + tag + ">"@;
    assert(n =~= w.push('>'));
    let all = p + "<"@ + tag + ">"@ + v + "<"@ + t;
    assert(all =~= p + n + (v + "<"@ + t));
    assert(all.subrange(p.len() as int, (p.len() + n.len()) as int) =~= n);
    assert(text::stands_at(all, n, p.len() as int));
    text::lemma_find_from(all, n, 0);
    let f = text::find(all, n)->0;
    assert(f == p.len()) by {
        if f < p.len() {
            let e = f + n.len();
            if e <= p.len() {
                assert(p.subrange(f, e) =~= all.subrange(f, e));
                assert(text::stands_at(p, n, f));
            } else {
                assert(all.subrange(f, e)[n.len() - 1] == all[e - 1]);
                assert(n[n.len() - 1] == '>');
                assert(all[e - 1] == n[e - 1 - p.len()]);
                if e - 1 - p.len() > 0 {
                    assert(n[e - 1 - p.len()] == tag[e - 2 - p.len()]);
                }
            }
        }
        assert(!(p.len() < f));
    }
    let rest = all.skip(f + n.len());
    assert(rest =~= v + "<"@ + t);
    text::lemma_index_from(rest, '<', 0);
    let q = text::index_from(rest, '<', 0);
    assert(rest[v.len() as int] == '<');
    if q < v.len() {
        assert(rest[q] == v[q]);
    }
    assert(rest.take(q) =~= v);
}

/// Elements, each on a line of its own.
spec fn elements(es: Seq<(Seq<char>, Seq<char>)>) -> Seq<char>
    decreases es.len(),
{
    if es.len() == 0 {
        Seq::empty()
    } else {
        elements(es.drop_last()) + "\n\t\t"@ + "<"@ + es.last().0 + ">"@ + es.last().1 + "<"@ + "/"@
            + es.last().0 + ">"@
    }
}

/// Elements whose names are no part of their texts.
spec fn are_elements(es: Seq<(Seq<char>, Seq<char>)>) -> bool {
    forall|i: int|
        0 <= i < es.len() ==> is_tag((#[trigger] es[i]).0) && lacks(es[i].1, '<') && lacks(
            es[i].1,
            '>',
        )
}

proof fn lemma_quiet_elements(p: Seq<char>, es: Seq<(Seq<char>, Seq<char>)>, tag: Seq<char>)
    requires
        quiet(p, ("<"@ + tag).push('>')),
        is_tag(tag),
        are_elements(es),
        forall|i: int| 0 <= i < es.len() ==> (#[trigger] es[i]).0 != tag,
    ensures
        quiet(p + elements(es), ("<"@ + tag).push('>')),
    decreases es.len(),
{
    reveal_strlit("\n\t\t");
    reveal_strlit("<");
    reveal_strlit("/");
    reveal_strlit(">");
    let w = "<"@ + tag;
    if es.len() == 0 {
        assert(p + elements(es) =~= p);
    } else {
        let front = es.drop_last();
        let e = es.last();
        assert forall|i: int| 0 <= i < front.len() implies #[trigger] front[i] == es[i] by {}
        assert(es[es.len() - 1] == e);
        lemma_quiet_elements(p, front, tag);
        let a = p + elements(front);
        lemma_quiet_append(a, "\n\t\t"@, w, '>');
        let b = a + "\n\t\t"@;
        lemma_other_tag(b, e.0, tag);
        let c = b + "<"@ + e.0 + ">"@;
        lemma_quiet_append(c, e.1, w, '>');
        let d = c + e.1;
        let close = "/"@ + e.0;
        lemma_lacks_append("/"@, e.0, '<');
        lemma_lacks_append("/"@, e.0, '>');
        assert(close[0] == '/');
        if tag.len() > 0 {
            assert(tag[0] != '/');
        }
        lemma_other_tag(d, close, tag);
        assert(d + "<"@ + close + ">"@ =~= p + elements(es));
    }
}

proof fn lemma_elements_read(
    p: Seq<char>,
    es: Seq<(Seq<char>, Seq<char>)>,
    t: Seq<char>,
    i: int,
    n: int,
)
    requires
        0 <= i < n <= es.len(),
        are_elements(es),
        quiet(p, ("<"@ + es[i].0).push('>')),
        forall|j: int| 0 <= j < i ==> (#[trigger] es[j]).0 != es[i].0,
    ensures
        element(p + elements(es.take(n)) + t, es[i].0) == Some(es[i].1),
    decreases n - i,
{
    let (tag, v) = es[i];
    let all = es.take(n);
    assert(all.drop_last() =~= es.take(n - 1));
    assert(all.last() == es[n - 1]);
    let l = all.last();
    if n - 1 > i {
        let more = "\n\t\t"@ + "<"@ + l.0 + ">"@ + l.1 + "<"@ + "/"@ + l.0 + ">"@;
        lemma_elements_read(p, es, more + t, i, n - 1);
        assert(p + elements(es.take(n - 1)) + (more + t) =~= p + elements(all) + t);
    } else {
        let before = es.take(i);
        assert forall|j: int| 0 <= j < before.len() implies (#[trigger] before[j]).0 != tag by {
            assert(before[j] == es[j]);
        }
        assert(are_elements(before)) by {
            assert forall|j: int| 0 <= j < before.len() implies is_tag((#[trigger] before[j]).0)
                && lacks(before[j].1, '<') && lacks(before[j].1, '>') by {
                assert(before[j] == es[j]);
            }
        }
        lemma_quiet_elements(p, before, tag);
        reveal_strlit("\n\t\t");
        let q = p + elements(before);
        lemma_quiet_append(q, "\n\t\t"@, "<"@ + tag, '>');
        let rest = "/"@ + tag + ">"@ + t;
        lemma_element(q + "\n\t\t"@, tag, v, rest);
        assert((q + "\n\t\t"@) + "<"@ + tag + ">"@ + v + "<"@ + rest =~= p + elements(all) + t);
    }
}

/// What a DAT says of itself, and of whom it is.
spec fn head_elements(
    metadata: ArchiveMetadata,
    name: Seq<char>,
    title: Seq<char>,
    ts: Seq<char>,
) -> Seq<(Seq<char>, Seq<char>)> {
    seq![
        ("name"@, archive_service::escaped(name)),
        ("description"@, archive_service::escaped(title)),
        ("version"@, archive_service::escaped(ts)),
        ("date"@, archive_service::escaped(ts)),
        ("author"@, archive_service::escaped(metadata.author@)),
        ("homepage"@, archive_service::escaped(metadata.homepage@)),
        ("url"@, archive_service::escaped(metadata.url@)),
    ]
}

/// The text before the elements of the head.
spec fn head_start() -> Seq<char> {
    "<"@ + "?xml version=\"1.0\"?"@ + ">"@ + "\n"@ + "<"@
        + "!DOCTYPE datafile PUBLIC \"-//Logiqx//DTD ROM Management Datafile//EN\" \"http://www.logiqx.com/Dats/datafile.dtd\""@
        + ">"@ + "\n"@ + "<"@ + "datafile"@ + ">"@ + "\n\t"@ + "<"@ + "header"@ + ">"@
}

proof fn lemma_quiet_start(tag: Seq<char>)
    requires
        is_tag(tag),
        tag.len() > 0,
        tag[0] != '?',
        tag[0] != '!',
        tag != "datafile"@,
        tag != "header"@,
    ensures
        quiet(head_start(), ("<"@ + tag).push('>')),
{
    reveal_strlit("<");
    reveal_strlit("?xml version=\"1.0\"?");
    reveal_strlit(
        "!DOCTYPE datafile PUBLIC \"-//Logiqx//DTD ROM Management Datafile//EN\" \"http://www.logiqx.com/Dats/datafile.dtd\"",
    );
    reveal_strlit("\n");
    reveal_strlit("\n\t");
    reveal_strlit("datafile");
    reveal_strlit("header");
    let w = "<"@ + tag;
    let none = Seq::<char>::empty();
    let x = "?xml version=\"1.0\"?"@;
    let y =
        "!DOCTYPE datafile PUBLIC \"-//Logiqx//DTD ROM Management Datafile//EN\" \"http://www.logiqx.com/Dats/datafile.dtd\""@;
    assert(quiet(none, w.push('>')));
    assert(x[0] == '?' && y[0] == '!');
    lemma_other_tag(none, x, tag);
    let a = none + "<"@ + x + ">"@;
    lemma_quiet_append(a, "\n"@, w, '>');
    lemma_other_tag(a + "\n"@, y, tag);
    let b = a + "\n"@ + "<"@ + y + ">"@;
    lemma_quiet_append(b, "\n"@, w, '>');
    lemma_other_tag(b + "\n"@, "datafile"@, tag);
    let c = b + "\n"@ + "<"@ + "datafile"@ + ">"@;
    lemma_quiet_append(c, "\n\t"@, w, '>');
    lemma_other_tag(c + "\n\t"@, "header"@, tag);
    assert(c + "\n\t"@ + "<"@ + "header"@ + ">"@ =~= head_start());
}

proof fn lemma_next_element(h: Seq<char>, es: Seq<(Seq<char>, Seq<char>)>, k: int)
    requires
        0 <= k < es.len(),
    ensures
        h + elements(es.take(k + 1)) == (h + elements(es.take(k))) + "\n\t\t"@ + "<"@ + es[k].0
            + ">"@ + es[k].1 + "<"@ + "/"@ + es[k].0 + ">"@,
{
    let t = es.take(k + 1);
    assert(t.drop_last() =~= es.take(k));
    assert(t.last() == es[k]);
    assert(h + elements(t) =~= (h + elements(es.take(k))) + "\n\t\t"@ + "<"@ + es[k].0 + ">"@
        + es[k].1 + "<"@ + "/"@ + es[k].0 + ">"@);
}

/// The text of elements so far, and the one that follows.
proof fn lemma_link(
    h: Seq<char>,
    es: Seq<(Seq<char>, Seq<char>)>,
    k: int,
    x: Seq<char>,
    tag: Seq<char>,
    between: Seq<char>,
)
    requires
        0 <= k < es.len(),
        h + elements(es.take(k)) == x + "<"@ + "/"@ + tag + ">"@,
        between == "<"@ + "/"@ + tag + ">"@ + "\n\t\t"@ + "<"@ + es[k].0 + ">"@,
    ensures
        h + elements(es.take(k + 1)) == (x + between + es[k].1) + "<"@ + "/"@ + es[k].0 + ">"@,
{
    lemma_next_element(h, es, k);
    assert(x + between + es[k].1 =~= (x + "<"@ + "/"@ + tag + ">"@) + "\n\t\t"@ + "<"@ + es[k].0
        + ">"@ + es[k].1);
}

proof fn lemma_last_link(
    h: Seq<char>,
    es: Seq<(Seq<char>, Seq<char>)>,
    x: Seq<char>,
    tag: Seq<char>,
    t: Seq<char>,
    end: Seq<char>,
)
    requires
        h + elements(es) == x + "<"@ + "/"@ + tag + ">"@,
        end == "<"@ + "/"@ + tag + ">"@ + t,
    ensures
        x + end == h + elements(es) + t,
{
    assert(x + end =~= (x + "<"@ + "/"@ + tag + ">"@) + t);
}

proof fn lemma_head_shape(
    metadata: ArchiveMetadata,
    name: Seq<char>,
    title: Seq<char>,
    ts: Seq<char>,
)
    ensures
        archive_service::head_xml(metadata, name, title, ts) == head_start() + elements(
            head_elements(metadata, name, title, ts),
        ) + "\n\t</header>\n"@,
{
    lemma_head_literal();
    lemma_element_literals();
    let es = head_elements(metadata, name, title, ts);
    let h = head_start();
    assert(h + elements(es.take(0)) =~= h);
    lemma_next_element(h, es, 0);
    assert(es.take(7) =~= es);
    let x1 = h + "\n\t\t"@ + "<"@ + "name"@ + ">"@ + archive_service::escaped(name);
    let x2 = x1 + "</name>\n\t\t<description>"@ + archive_service::escaped(title);
    let x3 = x2 + "</description>\n\t\t<version>"@ + archive_service::escaped(ts);
    let x4 = x3 + "</version>\n\t\t<date>"@ + archive_service::escaped(ts);
    let x5 = x4 + "</date>\n\t\t<author>"@ + archive_service::escaped(metadata.author@);
    let x6 = x5 + "</author>\n\t\t<homepage>"@ + archive_service::escaped(metadata.homepage@);
    let x7 = x6 + "</homepage>\n\t\t<url>"@ + archive_service::escaped(metadata.url@);
    lemma_link(h, es, 1, x1, "name"@, "</name>\n\t\t<description>"@);
    lemma_link(h, es, 2, x2, "description"@, "</description>\n\t\t<version>"@);
    lemma_link(h, es, 3, x3, "version"@, "</version>\n\t\t<date>"@);
    lemma_link(h, es, 4, x4, "date"@, "</date>\n\t\t<author>"@);
    lemma_link(h, es, 5, x5, "author"@, "</author>\n\t\t<homepage>"@);
    lemma_link(h, es, 6, x6, "homepage"@, "</homepage>\n\t\t<url>"@);
    lemma_last_link(h, es, x7, "url"@, "\n\t</header>\n"@, "</url>\n\t</header>\n"@);
}

proof fn lemma_head_literal()
    ensures
        head_start() + "\n\t\t"@ + "<"@ + "name"@ + ">"@
            == "<?xml version=\"1.0\"?>\n<!DOCTYPE datafile PUBLIC \"-//Logiqx//DTD ROM Management Datafile//EN\" \"http://www.logiqx.com/Dats/datafile.dtd\">\n<datafile>\n\t<header>\n\t\t<name>"@,
{
    reveal_strlit(
        "<?xml version=\"1.0\"?>\n<!DOCTYPE datafile PUBLIC \"-//Logiqx//DTD ROM Management Datafile//EN\" \"http://www.logiqx.com/Dats/datafile.dtd\">\n<datafile>\n\t<header>\n\t\t<name>",
    );
    reveal_strlit("<");
    reveal_strlit("?xml version=\"1.0\"?");
    reveal_strlit(
        "!DOCTYPE datafile PUBLIC \"-//Logiqx//DTD ROM Management Datafile//EN\" \"http://www.logiqx.com/Dats/datafile.dtd\"",
    );
    reveal_strlit("\n");
    reveal_strlit("\n\t");
    reveal_strlit("\n\t\t");
    reveal_strlit("datafile");
    reveal_strlit("header");
    reveal_strlit("name");
    reveal_strlit(">");
    assert(head_start() + "\n\t\t"@ + "<"@ + "name"@ + ">"@
        =~= "<?xml version=\"1.0\"?>\n<!DOCTYPE datafile PUBLIC \"-//Logiqx//DTD ROM Management Datafile//EN\" \"http://www.logiqx.com/Dats/datafile.dtd\">\n<datafile>\n\t<header>\n\t\t<name>"@);
}

proof fn lemma_element_literals()
    ensures
        "</name>\n\t\t<description>"@ == "<"@ + "/"@ + "name"@ + ">"@ + "\n\t\t"@ + "<"@
            + "description"@ + ">"@,
        "</description>\n\t\t<version>"@ == "<"@ + "/"@ + "description"@ + ">"@ + "\n\t\t"@ + "<"@
            + "version"@ + ">"@,
        "</version>\n\t\t<date>"@ == "<"@ + "/"@ + "version"@ + ">"@ + "\n\t\t"@ + "<"@ + "date"@
            + ">"@,
        "</date>\n\t\t<author>"@ == "<"@ + "/"@ + "date"@ + ">"@ + "\n\t\t"@ + "<"@ + "author"@
            + ">"@,
        "</author>\n\t\t<homepage>"@ == "<"@ + "/"@ + "author"@ + ">"@ + "\n\t\t"@ + "<"@
            + "homepage"@ + ">"@,
        "</homepage>\n\t\t<url>"@ == "<"@ + "/"@ + "homepage"@ + ">"@ + "\n\t\t"@ + "<"@ + "url"@
            + ">"@,
        "</url>\n\t</header>\n"@ == "<"@ + "/"@ + "url"@ + ">"@ + "\n\t</header>\n"@,
{
    reveal_strlit("</name>\n\t\t<description>");
    reveal_strlit("</description>\n\t\t<version>");
    reveal_strlit("</version>\n\t\t<date>");
    reveal_strlit("</date>\n\t\t<author>");
    reveal_strlit("</author>\n\t\t<homepage>");
    reveal_strlit("</homepage>\n\t\t<url>");
    reveal_strlit("</url>\n\t</header>\n");
    reveal_strlit("\n\t</header>\n");
    reveal_strlit("<");
    reveal_strlit("/");
    reveal_strlit(">");
    reveal_strlit("\n\t\t");
    reveal_strlit("name");
    reveal_strlit("description");
    reveal_strlit("version");
    reveal_strlit("date");
    reveal_strlit("author");
    reveal_strlit("homepage");
    reveal_strlit("url");
    assert("</name>\n\t\t<description>"@ =~= "<"@ + "/"@ + "name"@ + ">"@ + "\n\t\t"@ + "<"@
        + "description"@ + ">"@);
    assert("</description>\n\t\t<version>"@ =~= "<"@ + "/"@ + "description"@ + ">"@ + "\n\t\t"@
        + "<"@ + "version"@ + ">"@);
    assert("</version>\n\t\t<date>"@ =~= "<"@ + "/"@ + "version"@ + ">"@ + "\n\t\t"@ + "<"@
        + "date"@ + ">"@);
    assert("</date>\n\t\t<author>"@ =~= "<"@ + "/"@ + "date"@ + ">"@ + "\n\t\t"@ + "<"@ + "author"@
        + ">"@);
    assert("</author>\n\t\t<homepage>"@ =~= "<"@ + "/"@ + "author"@ + ">"@ + "\n\t\t"@ + "<"@
        + "homepage"@ + ">"@);
    assert("</homepage>\n\t\t<url>"@ =~= "<"@ + "/"@ + "homepage"@ + ">"@ + "\n\t\t"@ + "<"@
        + "url"@ + ">"@);
    assert("</url>\n\t</header>\n"@ =~= "<"@ + "/"@ + "url"@ + ">"@ + "\n\t</header>\n"@);
}

/// The elements of the head of a DAT give the system, the title, the time, and whom the
/// archive is of, each under its own name.
pub proof fn law_head_reads_back(
    metadata: ArchiveMetadata,
    name: Seq<char>,
    title: Seq<char>,
    ts: Seq<char>,
)
    ensures
        element(archive_service::head_xml(metadata, name, title, ts), "name"@) == Some(archive_service::escaped(name)),
        element(archive_service::head_xml(metadata, name, title, ts), "description"@) == Some(archive_service::escaped(title)),
        element(archive_service::head_xml(metadata, name, title, ts), "version"@) == Some(archive_service::escaped(ts)),
        element(archive_service::head_xml(metadata, name, title, ts), "date"@) == Some(archive_service::escaped(ts)),
        element(archive_service::head_xml(metadata, name, title, ts), "author"@) == Some(archive_service::escaped(metadata.author@)),
        element(archive_service::head_xml(metadata, name, title, ts), "homepage"@) == Some(
            archive_service::escaped(metadata.homepage@),
        ),
        element(archive_service::head_xml(metadata, name, title, ts), "url"@) == Some(archive_service::escaped(metadata.url@)),
{
    lemma_head_shape(metadata, name, title, ts);
    let es = head_elements(metadata, name, title, ts);
    lemma_head_tags();
    law_texts_read_back(name);
    law_texts_read_back(title);
    law_texts_read_back(ts);
    law_texts_read_back(metadata.author@);
    law_texts_read_back(metadata.homepage@);
    law_texts_read_back(metadata.url@);
    assert(es.take(7) =~= es);
    lemma_quiet_start("name"@);
    lemma_quiet_start("description"@);
    lemma_quiet_start("version"@);
    lemma_quiet_start("date"@);
    lemma_quiet_start("author"@);
    lemma_quiet_start("homepage"@);
    lemma_quiet_start("url"@);
    let t = "\n\t</header>\n"@;
    lemma_elements_read(head_start(), es, t, 0, 7);
    lemma_elements_read(head_start(), es, t, 1, 7);
    lemma_elements_read(head_start(), es, t, 2, 7);
    lemma_elements_read(head_start(), es, t, 3, 7);
    lemma_elements_read(head_start(), es, t, 4, 7);
    lemma_elements_read(head_start(), es, t, 5, 7);
    lemma_elements_read(head_start(), es, t, 6, 7);
}

proof fn lemma_head_tags()
    ensures
        is_tag("name"@) && "name"@.len() == 4 && "name"@[0] == 'n',
        is_tag("description"@) && "description"@.len() == 11 && "description"@[0] == 'd',
        is_tag("version"@) && "version"@.len() == 7 && "version"@[0] == 'v',
        is_tag("date"@) && "date"@.len() == 4 && "date"@[0] == 'd',
        is_tag("author"@) && "author"@.len() == 6 && "author"@[0] == 'a',
        is_tag("homepage"@) && "homepage"@.len() == 8 && "homepage"@[0] == 'h',
        is_tag("url"@) && "url"@.len() == 3 && "url"@[0] == 'u',
        "datafile"@.len() == 8 && "datafile"@[0] == 'd',
        "header"@.len() == 6 && "header"@[0] == 'h',
{
    reveal_strlit("name");
    reveal_strlit("description");
    reveal_strlit("version");
    reveal_strlit("date");
    reveal_strlit("author");
    reveal_strlit("homepage");
    reveal_strlit("url");
    reveal_strlit("datafile");
    reveal_strlit("header");
}

} // verus!
