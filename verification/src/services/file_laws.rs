//! What is read of files and of news.

use vstd::prelude::*;

use crate::clock;
use crate::models;
use crate::numbers;
use crate::order;
use crate::services::archive_service;
use crate::services::dat_laws;
use crate::services::disc_match;
use crate::services::disc_update;
use crate::services::news_service::{self, NewsView};
use crate::services::submission_service;
use crate::services::validation;
use crate::text;
use crate::xml::{self, XmlView};

verus! {

// ── Files ──────────────────────────────────────────────────────────────────

proof fn lemma_hex_trimmed(s: Seq<char>)
    requires
        text::all_hex(s),
    ensures
        text::trim(s) == s,
{
    let k = text::lemma_trim_start_skip(s);
    if k > 0 {
        assert(text::is_space(s[0]));
        assert(text::is_hex(s[0]));
    }
    assert(s.skip(0) =~= s);
    let m = text::lemma_trim_end_take(s);
    if m < s.len() {
        assert(text::is_space(s[s.len() - 1]));
        assert(text::is_hex(s[s.len() - 1]));
    }
    assert(s.take(m) =~= s);
}

/// A file that a DAT lists is read back from its line with its size and its hashes, in small
/// letters where it is looked for and as they are where it is stored.
pub proof fn law_listed_files_read_back(
    name: Seq<char>,
    size: i64,
    crc: Seq<char>,
    md5: Seq<char>,
    sha1: Seq<char>,
    is_cue: bool,
)
    requires
        dat_laws::is_nameable(name),
        text::all_hex(crc),
        text::all_hex(md5),
        text::all_hex(sha1),
    ensures
        ({
            let line = text::trim(
                archive_service::rom_xml(
                    crate::services::archive_service::RomView {
                        name,
                        size: size as int,
                        crc,
                        md5,
                        sha1,
                        is_cue,
                    },
                ),
            );
            let found = disc_match::rom_of_line(line);
            let stored = disc_update::file_row(line);
            &&& found.size == size
            &&& found.crc32 == text::lower_text(crc)
            &&& found.md5 == text::lower_text(md5)
            &&& found.sha1 == text::lower_text(sha1)
            &&& found.track_number == models::track_of_name(archive_service::escaped(name))
            &&& stored.size == size
            &&& stored.crc32 == crc
            &&& stored.md5 == md5
            &&& stored.sha1 == sha1
            &&& stored.track_number == models::track_of_name(archive_service::escaped(name))
        }),
{
    let r = crate::services::archive_service::RomView {
        name,
        size: size as int,
        crc,
        md5,
        sha1,
        is_cue,
    };
    dat_laws::lemma_hex_plain(crc);
    dat_laws::lemma_hex_plain(md5);
    dat_laws::lemma_hex_plain(sha1);
    dat_laws::lemma_trimmed_attributes(r);
    lemma_hex_trimmed(crc);
    lemma_hex_trimmed(md5);
    lemma_hex_trimmed(sha1);
    numbers::law_int_text_reads_back(size);
}

/// The hash of every file of a DAT is collected.
pub proof fn law_hashes_are_collected(ls: Seq<Seq<char>>, i: int, h: Seq<char>)
    requires
        0 <= i < ls.len(),
        text::starts_with(text::trim(ls[i]), "<rom "@),
        validation::attribute(text::trim(ls[i]), "sha1"@) == Some(h),
    ensures
        submission_service::sha1_attributes(ls).contains(h),
    decreases ls.len(),
{
    let front = ls.drop_last();
    let before = submission_service::sha1_attributes(front);
    let all = submission_service::sha1_attributes(ls);
    if i == ls.len() - 1 {
        assert(all.last() == h);
    } else {
        assert(front[i] == ls[i]);
        law_hashes_are_collected(front, i, h);
        let k = choose|k: int| 0 <= k < before.len() && before[k] == h;
        assert(all[k] == h);
    }
}

// ── News ───────────────────────────────────────────────────────────────────

/// A rule across the page at the end of a text is left out, in each way of writing it.
pub proof fn law_rules_are_left_out(s: Seq<char>)
    ensures
        news_service::without_rule(s + "<hr />"@) == text::trim_end(s),
        news_service::without_rule(s + "<hr/>"@) == text::trim_end(s),
        news_service::without_rule(s + "<hr>"@) == text::trim_end(s),
        news_service::without_rule(s + "<HR>"@) == text::trim_end(s),
{
    reveal_strlit("<hr />");
    reveal_strlit("<hr/>");
    reveal_strlit("<hr>");
    reveal_strlit("<HR>");
    let a = s + "<hr />"@;
    assert(text::lower_text(a).skip(a.len() - 6) =~= "<hr />"@);
    assert(a.take(a.len() - 6) =~= s);
    let b = s + "<hr/>"@;
    assert(text::lower_text(b).skip(b.len() - 5) =~= "<hr/>"@);
    assert(b.take(b.len() - 5) =~= s);
    assert(text::lower_text(b)[b.len() - 2] == '/');
    if text::ends_with(text::lower_text(b), "<hr />"@) {
        assert(text::lower_text(b).skip(b.len() - 6)[3] == text::lower_text(b)[b.len() - 3]);
        assert(text::lower_text(b)[b.len() - 3] == 'r');
    }
    let c = s + "<hr>"@;
    assert(text::lower_text(c).skip(c.len() - 4) =~= "<hr>"@);
    assert(c.take(c.len() - 4) =~= s);
    assert(text::lower_text(c)[c.len() - 2] == 'r');
    if text::ends_with(text::lower_text(c), "<hr />"@) {
        assert(text::lower_text(c).skip(c.len() - 6)[4] == text::lower_text(c)[c.len() - 2]);
    }
    if text::ends_with(text::lower_text(c), "<hr/>"@) {
        assert(text::lower_text(c).skip(c.len() - 5)[3] == text::lower_text(c)[c.len() - 2]);
    }
    let d = s + "<HR>"@;
    assert(text::lower_text(d).skip(d.len() - 4) =~= "<hr>"@);
    assert(d.take(d.len() - 4) =~= s);
    assert(text::lower_text(d)[d.len() - 2] == 'r');
    if text::ends_with(text::lower_text(d), "<hr />"@) {
        assert(text::lower_text(d).skip(d.len() - 6)[4] == text::lower_text(d)[d.len() - 2]);
    }
    if text::ends_with(text::lower_text(d), "<hr/>"@) {
        assert(text::lower_text(d).skip(d.len() - 5)[3] == text::lower_text(d)[d.len() - 2]);
    }
}

/// A text that does not end with a rule keeps its end.
pub proof fn law_other_ends_stay(s: Seq<char>)
    requires
        s.len() == 0 || s.last() != '>',
    ensures
        news_service::without_rule(s) == s,
        news_service::without_statistics(s) == s,
{
    reveal_strlit("<hr />");
    reveal_strlit("<hr/>");
    reveal_strlit("<hr>");
    reveal_strlit("</p>");
    let l = text::lower_text(s);
    if s.len() > 0 {
        let n = s.len() - 1;
        assert(l[n] == text::lower(s[n]));
        if 'A' <= s[n] <= 'Z' {
            assert(l[n] == (s[n] as int + 32) as char);
        }
        assert(l[n] != '>');
        if text::ends_with(l, "<hr />"@) {
            assert(l.skip(l.len() - 6)[5] == l[n]);
        }
        if text::ends_with(l, "<hr/>"@) {
            assert(l.skip(l.len() - 5)[4] == l[n]);
        }
        if text::ends_with(l, "<hr>"@) {
            assert(l.skip(l.len() - 4)[3] == l[n]);
        }
        if text::ends_with(l, "</p>"@) {
            assert(l.skip(l.len() - 4)[3] == l[n]);
        }
    }
}

/// An address in a page stays where it is empty or points into the page, and is made absolute
/// where it can be.
pub proof fn law_addresses_are_made_absolute(base: Seq<char>, v: Seq<char>, u: Seq<char>)
    ensures
        text::trim(v).len() == 0 ==> news_service::resolved(base, v) == v,
        text::trim(v).len() > 0 && text::trim(v)[0] == '#' ==> news_service::resolved(base, v) == v,
        text::trim(v).len() > 0 && text::trim(v)[0] != '#' && news_service::joined_url(base, text::trim(v)) == Some(u)
            ==> news_service::resolved(base, v) == u,
        news_service::joined_url(base, text::trim(v)) is None ==> news_service::resolved(base, v) == v,
{
}

/// A page without addresses stays as it is; the address of its only link or picture is made
/// absolute, and the text around it stays.
pub proof fn law_pages_keep_their_text(
    pre: Seq<char>,
    v: Seq<char>,
    post: Seq<char>,
    base: Seq<char>,
)
    requires
        forall|i: int| 0 <= i < pre.len() ==> #[trigger] pre[i] != '"',
        forall|i: int| 0 <= i < v.len() ==> #[trigger] v[i] != '"',
        forall|i: int| 0 <= i < post.len() ==> #[trigger] post[i] != '"',
    ensures
        news_service::absolutized(pre, base) == pre,
        news_service::absolutized(pre + "href=\""@ + v + "\""@ + post, base) == pre + "href=\""@ + news_service::resolved(
            base,
            v,
        ) + "\""@ + post,
        news_service::absolutized(pre + "src=\""@ + v + "\""@ + post, base) == pre + "src=\""@ + news_service::resolved(base, v)
            + "\""@ + post,
{
    lemma_no_address(pre, base);
    lemma_no_address(post, base);
    lemma_one_address(pre, "href=\""@, v, post, base);
    lemma_one_address(pre, "src=\""@, v, post, base);
}

proof fn lemma_no_address(s: Seq<char>, base: Seq<char>)
    requires
        forall|i: int| 0 <= i < s.len() ==> #[trigger] s[i] != '"',
    ensures
        news_service::absolutized(s, base) == s,
{
    reveal_strlit("href=\"");
    reveal_strlit("src=\"");
    text::lemma_find_from(s, "href=\""@, 0);
    text::lemma_find_from(s, "src=\""@, 0);
    if let Some(h) = text::find(s, "href=\""@) {
        assert(s.subrange(h, h + 6)[5] == s[h + 5]);
    }
    if let Some(h) = text::find(s, "src=\""@) {
        assert(s.subrange(h, h + 5)[4] == s[h + 4]);
    }
}

proof fn lemma_one_address(
    pre: Seq<char>,
    w: Seq<char>,
    v: Seq<char>,
    post: Seq<char>,
    base: Seq<char>,
)
    requires
        w == "href=\""@ || w == "src=\""@,
        forall|i: int| 0 <= i < pre.len() ==> #[trigger] pre[i] != '"',
        forall|i: int| 0 <= i < v.len() ==> #[trigger] v[i] != '"',
        forall|i: int| 0 <= i < post.len() ==> #[trigger] post[i] != '"',
        news_service::absolutized(post, base) == post,
    ensures
        news_service::absolutized(pre + w + v + "\""@ + post, base) == pre + w + news_service::resolved(base, v) + "\""@ + post,
{
    reveal_strlit("href=\"");
    reveal_strlit("src=\"");
    reveal_strlit("\"");
    let html = pre + w + v + "\""@ + post;
    let n = (pre.len() + w.len()) as int;
    assert(html[n - 1] == '"');
    assert(html[n + v.len()] == '"');
    assert forall|i: int| 0 <= i < html.len() && #[trigger] html[i] == '"' implies i == n - 1 || i
        == n + v.len() by {
        if i < pre.len() {
            assert(html[i] == pre[i]);
        } else if i < n - 1 {
            assert(html[i] == w[i - pre.len()]);
        } else if n <= i < n + v.len() {
            assert(html[i] == v[i - n]);
        } else if i > n + v.len() {
            assert(html[i] == post[i - n - v.len() - 1]);
        }
    }
    text::lemma_find_from(html, "href=\""@, 0);
    text::lemma_find_from(html, "src=\""@, 0);
    assert(html.subrange(pre.len() as int, n) =~= w);
    assert(text::stands_at(html, w, pre.len() as int));
    if let Some(h) = text::find(html, "href=\""@) {
        assert(html.subrange(h, h + 6)[5] == html[h + 5]);
        assert(html.subrange(h, h + 6)[4] == html[h + 4]);
        assert(html.subrange(h, h + 6)[3] == html[h + 3]);
    }
    if let Some(h) = text::find(html, "src=\""@) {
        assert(html.subrange(h, h + 5)[4] == html[h + 4]);
        assert(html.subrange(h, h + 5)[3] == html[h + 3]);
        assert(html.subrange(h, h + 5)[2] == html[h + 2]);
    }
    assert(html[n - 2] == '=');
    assert(w[w.len() - 3] == html[n - 3]);
    lemma_first_address(html, n, w);
    text::lemma_index_from(html, '"', n);
    let q = text::index_from(html, '"', n);
    assert(q == n + v.len());
    assert(html.take(n) =~= pre + w);
    assert(html.subrange(n, q) =~= v);
    assert(html.skip(q + 1) =~= post);
    assert(seq!['"'] =~= "\""@);
    assert(news_service::absolutized(html, base) =~= pre + w + news_service::resolved(base, v) + "\""@ + post);
}

/// The one address of a page is the next, unless an equals sign and a quote end it.
proof fn lemma_first_address(html: Seq<char>, n: int, w: Seq<char>)
    requires
        w == "href=\""@ || w == "src=\""@,
        w.len() <= n <= html.len(),
        text::stands_at(html, w, n - w.len()),
        text::find(html, "href=\""@) matches Some(h) ==> h + 6 == n || h + 5 >= n,
        text::find(html, "src=\""@) matches Some(h) ==> h + 5 == n || h + 4 >= n,
        forall|j: int| 0 <= j < n - w.len() ==> !#[trigger] text::stands_at(html, w, j),
        w == "href=\""@ ==> text::find(html, "href=\""@) == Some(n - 6),
        w == "src=\""@ ==> text::find(html, "src=\""@) == Some(n - 5),
        text::find(html, "href=\""@) matches Some(h) ==> text::stands_at(html, "href=\""@, h),
        text::find(html, "src=\""@) matches Some(h) ==> text::stands_at(html, "src=\""@, h),
    ensures
        news_service::next_address(html) == Some(n),
{
    reveal_strlit("href=\"");
    reveal_strlit("src=\"");
    if let Some(h) = text::find(html, "href=\""@) {
        if let Some(s) = text::find(html, "src=\""@) {
            assert(html.subrange(h, h + 6)[3] == html[h + 3]);
            assert(html.subrange(s, s + 5)[2] == html[s + 2]);
        }
    }
}

/// An item of news has the title, the author and the address of its entry, the time when it
/// was published or else changed, and its content or else its summary; an entry without a
/// title or an address is none.
pub proof fn law_items_of_entries(ns: Seq<XmlView>, e: int, title: Seq<char>, url: Seq<char>)
    requires
        xml::child_text(ns, e, "title"@) == Some(title),
        news_service::entry_address(ns, e) == Some(url),
    ensures
        title.len() == 0 || url.len() == 0 ==> news_service::entry_item(ns, e) is None,
        title.len() > 0 && url.len() > 0 ==> (news_service::entry_item(ns, e) matches Some(n) && {
            &&& n.title == title
            &&& n.url == url
            &&& n.author == news_service::entry_author(ns, e)
            &&& xml::child_text(ns, e, "published"@) matches Some(t) ==> n.published_at == clock::moment_of(
                clock::rfc3339_moment(text::trim(t)),
            )
            &&& xml::child_text(ns, e, "published"@) is None && xml::child_text(ns, e, "updated"@) is Some
                ==> n.published_at == clock::moment_of(
                clock::rfc3339_moment(text::trim(xml::child_text(ns, e, "updated"@)->0)),
            )
            &&& xml::child_text(ns, e, "published"@) is None && xml::child_text(ns, e, "updated"@) is None
                ==> n.published_at is None && n.published_date.len() == 0
            &&& xml::child_text(ns, e, "content"@) matches Some(c) ==> n.content_html == news_service::clean_content(
                c,
                url,
            )
            &&& xml::child_text(ns, e, "content"@) is None && xml::child_text(ns, e, "summary"@) is Some
                ==> n.content_html == news_service::clean_content(xml::child_text(ns, e, "summary"@)->0, url)
            &&& xml::child_text(ns, e, "content"@) is None && xml::child_text(ns, e, "summary"@) is None
                ==> n.content_html.len() == 0
        }),
{
}

proof fn lemma_first_link(ns: Seq<XmlView>, entry: int, from: int, k: int)
    requires
        0 <= from <= k < ns.len(),
        xml::is_child(ns[k], entry, "link"@),
        xml::attribute_value(ns[k].attributes, "href"@) is Some,
        forall|j: int| 0 <= j < k ==> !xml::is_child(#[trigger] ns[j], entry, "link"@),
    ensures
        news_service::link_from(ns, entry, from) == Some(
            text::trim(xml::attribute_value(ns[k].attributes, "href"@)->0),
        ),
    decreases k - from,
{
    if from < k {
        assert(!xml::is_child(ns[from], entry, "link"@));
        lemma_first_link(ns, entry, from + 1, k);
    }
}

/// The address of an entry is where its first link points to, and its author the name that
/// stands under its author.
pub proof fn law_links_and_authors(ns: Seq<XmlView>, entry: int, k: int, href: Seq<char>)
    ensures
        0 <= k < ns.len() && xml::is_child(ns[k], entry, "link"@) && xml::attribute_value(
            ns[k].attributes,
            "href"@,
        ) == Some(href) && text::trim(href).len() > 0 && (forall|j: int|
            0 <= j < k ==> !xml::is_child(#[trigger] ns[j], entry, "link"@)) ==> news_service::entry_address(ns, entry)
            == Some(text::trim(href)),
        xml::child_from(ns, entry, "author"@, 0) matches Some(a) ==> (xml::child_text(ns, a, "name"@) matches
            Some(n) ==> news_service::entry_author(ns, entry) == n),
        xml::child_from(ns, entry, "author"@, 0) is None ==> news_service::entry_author(ns, entry).len() == 0,
{
    if 0 <= k < ns.len() && xml::is_child(ns[k], entry, "link"@) && xml::attribute_value(
        ns[k].attributes,
        "href"@,
    ) == Some(href) && (forall|j: int|
        0 <= j < k ==> !xml::is_child(#[trigger] ns[j], entry, "link"@)) {
        lemma_first_link(ns, entry, 0, k);
    }
}

/// News of the same time stand with the later address first, and those of one address in the
/// order of their titles.
pub proof fn law_news_of_one_time(a: NewsView, b: NewsView)
    requires
        a.published_at == b.published_at,
    ensures
        order::text_less(b.url, a.url) ==> news_service::news_before(a, b),
        a.url == b.url && order::text_less(a.title, b.title) ==> news_service::news_before(a, b),
{
    order::lemma_text_less_irreflexive(a.url);
}

} // verus!
