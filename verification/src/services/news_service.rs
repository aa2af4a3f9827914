//! The news of the front page, read from a feed.

use vstd::prelude::*;

use crate::clock::{self, DAY, Moment, is_before, read_rfc3339, write_time};
use crate::order::{self, str_less};
use crate::text::{
    self, cat2, chars_end_with, chars_eq, chars_find, chars_index_from, chars_lower, chars_of,
    chars_start_with, chars_trim, chars_trim_end, chars_trim_start, copy_chars, push_chars,
    push_str, str_eq, str_trim, string_of,
};
use crate::xml::{self, XmlNode, XmlView, find_child, read_attribute, read_child_text, read_xml};

verus! {

/// How many items of news are shown.
pub const NEWS_ITEM_LIMIT: usize = 5;

/// An item of news.
#[derive(Clone, Debug, PartialEq, Eq)]
pub struct NewsItem {
    pub title: String,
    pub author: String,
    pub url: String,
    pub published_date: String,
    pub published_at: Option<Moment>,
    pub content_html: String,
}

/// An item of news.
pub struct NewsView {
    pub title: Seq<char>,
    pub author: Seq<char>,
    pub url: Seq<char>,
    pub published_date: Seq<char>,
    pub published_at: Option<Moment>,
    pub content_html: Seq<char>,
}

impl View for NewsItem {
    type V = NewsView;

    open spec fn view(&self) -> NewsView {
        NewsView {
            title: self.title@,
            author: self.author@,
            url: self.url@,
            published_date: self.published_date@,
            published_at: self.published_at,
            content_html: self.content_html@,
        }
    }
}

/// Items of news.
pub open spec fn news_views(v: Seq<NewsItem>) -> Seq<NewsView> {
    v.map_values(|n: NewsItem| n@)
}

/// Why there is no news.
#[derive(Debug, PartialEq, Eq)]
pub enum NewsError {
    Request(String),
    HttpStatus(String),
    Xml(String),
    Message(String),
}

/// The message of an error.
pub open spec fn news_error_text(e: NewsError) -> Seq<char> {
    match e {
        NewsError::Request(m) => "news feed request failed: "@ + m@,
        NewsError::HttpStatus(m) => "news feed returned HTTP "@ + m@,
        NewsError::Xml(m) => "news feed XML is invalid: "@ + m@,
        NewsError::Message(m) => m@,
    }
}

impl NewsError {
    /// The message of an error.
    pub fn text(&self) -> (r: String)
        ensures
            r@ == news_error_text(*self),
    {
        match self {
            NewsError::Request(m) => cat2("news feed request failed: ", m.as_str()),
            NewsError::HttpStatus(m) => cat2("news feed returned HTTP ", m.as_str()),
            NewsError::Xml(m) => cat2("news feed XML is invalid: ", m.as_str()),
            NewsError::Message(m) => m.clone(),
        }
    }
}

// ── Addresses ──────────────────────────────────────────────────────────────

/// A text is an address that others can be relative to.
pub uninterp spec fn is_url(text: Seq<char>) -> bool;

/// `reqwest::Url::parse`: whether a text is an address is a function of the text.
#[verifier::external_body]
fn url_parses(text: &str) -> (r: bool)
    ensures
        r == is_url(text@),
{
    reqwest::Url::parse(text).is_ok()
}

/// The address that a relative one is, from another; none where it is no address.
pub uninterp spec fn joined_url(base: Seq<char>, relative: Seq<char>) -> Option<Seq<char>>;

/// `reqwest::Url::join`: the address that a relative one is, if any, is a function of
/// the two texts.
#[verifier::external_body]
fn join_url(base: &str, relative: &str) -> (r: Option<String>)
    requires
        is_url(base@),
    ensures
        text::opt_text(r) == joined_url(base@, relative@),
{
    match reqwest::Url::parse(base) {
        Ok(b) => b.join(relative).ok().map(|u| u.to_string()),
        Err(_) => None,
    }
}

/// An address in a page: made absolute unless it is empty or points into the page.
pub open spec fn resolved(base: Seq<char>, value: Seq<char>) -> Seq<char> {
    let t = text::trim(value);
    if t.len() == 0 || t[0] == '#' {
        value
    } else {
        match joined_url(base, t) {
            Some(u) => u,
            None => value,
        }
    }
}

fn resolve_html_url(base: &str, value: &[char]) -> (r: String)
    requires
        is_url(base@),
    ensures
        r@ == resolved(base@, value@),
{
    let t = chars_trim(value);
    if t.len() == 0 || t[0] == '#' {
        return string_of(value);
    }
    match join_url(base, string_of(t).as_str()) {
        Some(u) => u,
        None => string_of(value),
    }
}

/// Where the first address in a page begins.
pub open spec fn next_address(html: Seq<char>) -> Option<int> {
    match (text::find(html, "href=\""@), text::find(html, "src=\""@)) {
        (Some(h), Some(s)) => if h <= s {
            Some(h + 6)
        } else {
            Some(s + 5)
        },
        (Some(h), None) => Some(h + 6),
        (None, Some(s)) => Some(s + 5),
        (None, None) => None,
    }
}

fn next_url_attr(html: &[char]) -> (r: Option<usize>)
    ensures
        match r {
            Some(k) => next_address(html@) == Some(k as int) && 0 < k <= html@.len(),
            None => next_address(html@) is None,
        },
{
    proof {
        reveal_strlit("href=\"");
        reveal_strlit("src=\"");
    }
    let _len: usize = html.len();
    match (chars_find(html, "href=\""), chars_find(html, "src=\"")) {
        (Some(h), Some(s)) => if h <= s {
            Some(h + 6)
        } else {
            Some(s + 5)
        },
        (Some(h), None) => Some(h + 6),
        (None, Some(s)) => Some(s + 5),
        (None, None) => None,
    }
}

/// A page with its addresses made absolute.
pub open spec fn absolutized(html: Seq<char>, base: Seq<char>) -> Seq<char>
    decreases html.len(),
{
    match next_address(html) {
        None => html,
        Some(v) => {
            let q = text::index_from(html, '"', v);
            if v < 0 || v > html.len() || q < v || q >= html.len() {
                html
            } else {
                html.take(v) + resolved(base, html.subrange(v, q)) + seq!['"'] + absolutized(
                    html.skip(q + 1),
                    base,
                )
            }
        },
    }
}

/// A page with its addresses made absolute, where it is known what they are relative to.
pub open spec fn absolute_page(html: Seq<char>, base: Seq<char>) -> Seq<char> {
    if is_url(base) {
        absolutized(html, base)
    } else {
        html
    }
}

fn absolutize_html_urls(html: &[char], base_url: &str) -> (r: Vec<char>)
    ensures
        r@ == absolute_page(html@, base_url@),
{
    if !url_parses(base_url) {
        return copy_chars(html);
    }
    let mut out: Vec<char> = Vec::new();
    let mut at: usize = 0;
    let n: usize = html.len();
    assert(html@.skip(0) =~= html@);
    assert(out@ + absolutized(html@, base_url@) =~= absolutized(html@, base_url@));
    while at < n
        invariant
            n == html@.len(),
            at <= n,
            is_url(base_url@),
            out@ + absolutized(html@.skip(at as int), base_url@) == absolutized(
                html@,
                base_url@,
            ),
        decreases n - at,
    {
        let rest = &html[at..n];
        assert(rest@ =~= html@.skip(at as int));
        match next_url_attr(rest) {
            None => {
                push_chars(&mut out, rest);
                return out;
            },
            Some(v) => {
                let q = chars_index_from(rest, '"', v);
                proof {
                    text::lemma_index_from(rest@, '"', v as int);
                }
                if q >= rest.len() {
                    push_chars(&mut out, rest);
                    return out;
                }
                let ghost before = out@;
                let value = &rest[v..q];
                assert(value@ =~= rest@.subrange(v as int, q as int));
                let head = &rest[0..v];
                assert(head@ =~= rest@.take(v as int));
                push_chars(&mut out, head);
                let url = resolve_html_url(base_url, value);
                push_str(&mut out, url.as_str());
                out.push('"');
                proof {
                    let tail = absolutized(rest@.skip(q + 1), base_url@);
                    let piece = rest@.take(v as int) + resolved(
                        base_url@,
                        rest@.subrange(v as int, q as int),
                    ) + seq!['"'];
                    assert(out@ =~= before + piece);
                    assert(absolutized(rest@, base_url@) == piece + tail);
                    assert(rest@.skip(q + 1) =~= html@.skip(at + q + 1));
                    assert(out@ + tail =~= before + (piece + tail));
                }
                at = at + q + 1;
            },
        }
    }
    assert(html@.skip(n as int) =~= Seq::<char>::empty());
    proof {
        lemma_nothing_to_resolve(base_url@);
    }
    assert(out@ + Seq::<char>::empty() =~= out@);
    out
}

proof fn lemma_nothing_to_resolve(base: Seq<char>)
    ensures
        absolutized(Seq::empty(), base) == Seq::<char>::empty(),
{
    reveal_strlit("href=\"");
    reveal_strlit("src=\"");
    text::lemma_find_from(Seq::<char>::empty(), "href=\""@, 0);
    text::lemma_find_from(Seq::<char>::empty(), "src=\""@, 0);
}

// ── Content ────────────────────────────────────────────────────────────────

/// A text without a rule across the page at its end.
pub open spec fn without_rule(s: Seq<char>) -> Seq<char> {
    let l = text::lower_text(s);
    if text::ends_with(l, "<hr />"@) {
        text::trim_end(s.take(s.len() - 6))
    } else if text::ends_with(l, "<hr/>"@) {
        text::trim_end(s.take(s.len() - 5))
    } else if text::ends_with(l, "<hr>"@) {
        text::trim_end(s.take(s.len() - 4))
    } else {
        s
    }
}

fn strip_trailing_hr(s: &[char]) -> (r: &[char])
    ensures
        r@ == without_rule(s@),
{
    proof {
        reveal_strlit("<hr />");
        reveal_strlit("<hr/>");
        reveal_strlit("<hr>");
    }
    let l = chars_lower(s);
    let n: usize = s.len();
    let k: usize = if chars_end_with(&l, "<hr />") {
        6
    } else if chars_end_with(&l, "<hr/>") {
        5
    } else if chars_end_with(&l, "<hr>") {
        4
    } else {
        return s;
    };
    let head = &s[0..n - k];
    assert(head@ =~= s@.take(n - k));
    chars_trim_end(head)
}

/// The last place up to `i` where a text stands in another.
pub open spec fn last_place(s: Seq<char>, p: Seq<char>, i: int) -> Option<int>
    decreases i + 1,
{
    if i < 0 {
        None
    } else if text::stands_at(s, p, i) {
        Some(i)
    } else {
        last_place(s, p, i - 1)
    }
}

/// The last place where a text stands in another.
pub open spec fn find_last(s: Seq<char>, p: Seq<char>) -> Option<int> {
    last_place(s, p, s.len() - p.len())
}

fn chars_find_last(s: &[char], p: &str) -> (r: Option<usize>)
    ensures
        match r {
            Some(k) => find_last(s@, p@) == Some(k as int) && k + p@.len() <= s@.len(),
            None => find_last(s@, p@) is None,
        },
{
    let pc = chars_of(p);
    let n: usize = s.len();
    let m: usize = pc.len();
    if n < m {
        return None;
    }
    let mut i: usize = n - m;
    let end = &s[i..n];
    assert(end@ =~= s@.subrange(i as int, i + m));
    if chars_eq(end, &pc) {
        return Some(i);
    }
    while i > 0
        invariant
            n == s@.len(),
            m == p@.len(),
            pc@ == p@,
            m <= n,
            i <= n - m,
            last_place(s@, p@, i - 1) == find_last(s@, p@),
        decreases i,
    {
        i = i - 1;
        let part = &s[i..i + m];
        assert(part@ =~= s@.subrange(i as int, i + m));
        if chars_eq(part, &pc) {
            return Some(i);
        }
    }
    None
}

/// A text without the last paragraph where that tells statistics.
pub open spec fn without_statistics(s: Seq<char>) -> Seq<char> {
    let l = text::lower_text(s);
    if !text::ends_with(l, "</p>"@) {
        s
    } else {
        match find_last(l, "<p>"@) {
            None => s,
            Some(k) => if text::starts_with(text::trim_start(s.skip(k + 3)), "Statistics:"@) {
                text::trim_end(s.take(k))
            } else {
                s
            },
        }
    }
}

fn strip_trailing_statistics(s: &[char]) -> (r: &[char])
    ensures
        r@ == without_statistics(s@),
{
    let l = chars_lower(s);
    if !chars_end_with(&l, "</p>") {
        return s;
    }
    proof {
        reveal_strlit("<p>");
    }
    let n: usize = s.len();
    match chars_find_last(&l, "<p>") {
        None => s,
        Some(k) => {
            let tail = &s[k + 3..n];
            assert(tail@ =~= s@.skip(k + 3));
            if chars_start_with(chars_trim_start(tail), "Statistics:") {
                let head = &s[0..k];
                assert(head@ =~= s@.take(k as int));
                chars_trim_end(head)
            } else {
                s
            }
        },
    }
}

/// The content of an item of news: without the statistics and the rule that the forum
/// puts at its end, and with absolute addresses.
pub open spec fn clean_content(raw: Seq<char>, base: Seq<char>) -> Seq<char> {
    absolute_page(text::trim(without_statistics(without_rule(text::trim(raw)))), base)
}

/// The content of an item of news.
pub fn clean_phpbb_feed_content(raw: &str, base_url: &str) -> (r: String)
    ensures
        r@ == clean_content(raw@, base_url@),
{
    let chars = chars_of(raw);
    let without_separator = strip_trailing_hr(chars_trim(&chars));
    let bare = chars_trim(strip_trailing_statistics(without_separator));
    string_of(&absolutize_html_urls(bare, base_url))
}

// ── Entries ────────────────────────────────────────────────────────────────

/// The first link of an entry that tells an address.
pub open spec fn link_from(ns: Seq<XmlView>, entry: int, from: int) -> Option<Seq<char>>
    decreases ns.len() - from,
{
    if from < 0 || from >= ns.len() {
        None
    } else if xml::is_child(ns[from], entry, "link"@) && xml::attribute_value(
        ns[from].attributes,
        "href"@,
    ) is Some {
        Some(text::trim(xml::attribute_value(ns[from].attributes, "href"@)->0))
    } else {
        link_from(ns, entry, from + 1)
    }
}

/// The address of an entry: that of its link, or else its identifier.
pub open spec fn entry_address(ns: Seq<XmlView>, entry: int) -> Option<Seq<char>> {
    match link_from(ns, entry, 0) {
        Some(h) => if h.len() > 0 {
            Some(h)
        } else {
            xml::child_text(ns, entry, "id"@)
        },
        None => xml::child_text(ns, entry, "id"@),
    }
}

proof fn lemma_link_skip(ns: Seq<XmlView>, entry: int, i: int)
    requires
        0 <= i <= ns.len(),
    ensures
        match xml::child_from(ns, entry, "link"@, i) {
            None => link_from(ns, entry, i) is None,
            Some(k) => i <= k < ns.len() && xml::is_child(ns[k], entry, "link"@) && link_from(
                ns,
                entry,
                i,
            ) == link_from(ns, entry, k),
        },
    decreases ns.len() - i,
{
    if i < ns.len() && !xml::is_child(ns[i], entry, "link"@) {
        lemma_link_skip(ns, entry, i + 1);
    }
}

fn find_link(nodes: &Vec<XmlNode>, entry: usize) -> (r: Option<String>)
    ensures
        text::opt_text(r) == link_from(xml::node_views(nodes@), entry as int, 0),
{
    let ghost ns = xml::node_views(nodes@);
    let mut i: usize = 0;
    while i < nodes.len()
        invariant
            ns == xml::node_views(nodes@),
            i <= nodes@.len(),
            link_from(ns, entry as int, 0) == link_from(ns, entry as int, i as int),
        decreases nodes@.len() - i,
    {
        proof {
            lemma_link_skip(ns, entry as int, i as int);
        }
        match find_child(nodes, entry, "link", i) {
            None => {
                return None;
            },
            Some(k) => {
                assert(ns[k as int] == nodes@[k as int]@);
                match read_attribute(&nodes[k].attributes, "href") {
                    Some(h) => {
                        return Some(str_trim(h.as_str()));
                    },
                    None => {},
                }
                i = k + 1;
            },
        }
    }
    None
}

fn entry_link(nodes: &Vec<XmlNode>, entry: usize) -> (r: Option<String>)
    ensures
        text::opt_text(r) == entry_address(xml::node_views(nodes@), entry as int),
{
    match find_link(nodes, entry) {
        Some(h) => {
            if !h.as_str().is_empty() {
                return Some(h);
            }
        },
        None => {},
    }
    read_child_text(nodes, entry, "id")
}

/// When an entry was published, or else changed.
pub open spec fn entry_moment(ns: Seq<XmlView>, entry: int) -> Option<Moment> {
    match first_of(xml::child_text(ns, entry, "published"@), xml::child_text(ns, entry, "updated"@)) {
        Some(t) => clock::moment_of(clock::rfc3339_moment(text::trim(t))),
        None => None,
    }
}

/// The first value, or else the second.
pub open spec fn first_of(a: Option<Seq<char>>, b: Option<Seq<char>>) -> Option<Seq<char>> {
    if a is Some {
        a
    } else {
        b
    }
}

/// A text that may be missing.
pub open spec fn or_empty(t: Option<Seq<char>>) -> Seq<char> {
    match t {
        Some(s) => s,
        None => Seq::empty(),
    }
}

/// The author of an entry.
pub open spec fn entry_author(ns: Seq<XmlView>, entry: int) -> Seq<char> {
    match xml::child_from(ns, entry, "author"@, 0) {
        Some(k) => or_empty(xml::child_text(ns, k, "name"@)),
        None => Seq::empty(),
    }
}

/// The item of news that an entry is; none for an entry without a title or an address.
pub open spec fn entry_item(ns: Seq<XmlView>, entry: int) -> Option<NewsView> {
    let title = or_empty(xml::child_text(ns, entry, "title"@));
    let url = or_empty(entry_address(ns, entry));
    if title.len() == 0 || url.len() == 0 {
        None
    } else {
        let at = entry_moment(ns, entry);
        Some(
            NewsView {
                title,
                author: entry_author(ns, entry),
                url,
                published_date: match at {
                    Some(t) => clock::time_text(t.seconds as int, DAY@),
                    None => Seq::empty(),
                },
                published_at: at,
                content_html: match first_of(
                    xml::child_text(ns, entry, "content"@),
                    xml::child_text(ns, entry, "summary"@),
                ) {
                    Some(c) => clean_content(c, url),
                    None => Seq::empty(),
                },
            },
        )
    }
}

fn or_else_text(a: Option<String>, b: Option<String>) -> (r: Option<String>)
    ensures
        text::opt_text(r) == first_of(text::opt_text(a), text::opt_text(b)),
{
    match a {
        Some(s) => Some(s),
        None => b,
    }
}

fn text_or_empty(t: Option<String>) -> (r: String)
    ensures
        r@ == or_empty(text::opt_text(t)),
{
    match t {
        Some(s) => s,
        None => String::new(),
    }
}

fn read_entry_moment(nodes: &Vec<XmlNode>, entry: usize) -> (r: Option<Moment>)
    ensures
        r == entry_moment(xml::node_views(nodes@), entry as int),
{
    let date = or_else_text(
        read_child_text(nodes, entry, "published"),
        read_child_text(nodes, entry, "updated"),
    );
    match date {
        Some(d) => read_rfc3339(str_trim(d.as_str()).as_str()),
        None => None,
    }
}

fn read_entry_author(nodes: &Vec<XmlNode>, entry: usize) -> (r: String)
    ensures
        r@ == entry_author(xml::node_views(nodes@), entry as int),
{
    match find_child(nodes, entry, "author", 0) {
        Some(k) => text_or_empty(read_child_text(nodes, k, "name")),
        None => String::new(),
    }
}

/// An item of news that there may be.
pub open spec fn opt_news(n: Option<NewsItem>) -> Option<NewsView> {
    match n {
        Some(i) => Some(i@),
        None => None,
    }
}

/// The item of news that an entry is.
pub fn read_entry(nodes: &Vec<XmlNode>, entry: usize) -> (r: Option<NewsItem>)
    ensures
        opt_news(r) == entry_item(xml::node_views(nodes@), entry as int),
{
    let title = text_or_empty(read_child_text(nodes, entry, "title"));
    let url = text_or_empty(entry_link(nodes, entry));
    if title.as_str().is_empty() || url.as_str().is_empty() {
        return None;
    }
    let published_at = read_entry_moment(nodes, entry);
    let published_date = match published_at {
        Some(t) => write_time(t.seconds, DAY),
        None => String::new(),
    };
    let content = or_else_text(
        read_child_text(nodes, entry, "content"),
        read_child_text(nodes, entry, "summary"),
    );
    let content_html = match content {
        Some(c) => clean_phpbb_feed_content(c.as_str(), url.as_str()),
        None => String::new(),
    };
    let author = read_entry_author(nodes, entry);
    Some(NewsItem { title, author, url, published_date, published_at, content_html })
}

/// The items of the entries among the first `n` nodes.
pub open spec fn entry_items(ns: Seq<XmlView>, n: int) -> Seq<NewsView>
    decreases n,
{
    if n <= 0 {
        Seq::empty()
    } else {
        let before = entry_items(ns, n - 1);
        if ns[n - 1].is_element && ns[n - 1].name == "entry"@ {
            match entry_item(ns, n - 1) {
                Some(i) => before.push(i),
                None => before,
            }
        } else {
            before
        }
    }
}

fn read_entries(nodes: &Vec<XmlNode>) -> (r: Vec<NewsItem>)
    ensures
        news_views(r@) == entry_items(xml::node_views(nodes@), nodes@.len() as int),
{
    let ghost ns = xml::node_views(nodes@);
    let mut out: Vec<NewsItem> = Vec::new();
    assert(news_views(out@) =~= Seq::<NewsView>::empty());
    for i in 0..nodes.len()
        invariant
            ns == xml::node_views(nodes@),
            news_views(out@) == entry_items(ns, i as int),
    {
        assert(ns[i as int] == nodes@[i as int]@);
        if nodes[i].is_element && str_eq(nodes[i].name.as_str(), "entry") {
            if let Some(item) = read_entry(nodes, i) {
                let ghost before = out@;
                out.push(item);
                assert(news_views(out@) =~= news_views(before).push(item@));
            }
        }
    }
    out
}

// ── The order of the news ──────────────────────────────────────────────────

/// A time is before another; no time is before every time.
pub open spec fn opt_moment_less(a: Option<Moment>, b: Option<Moment>) -> bool {
    match (a, b) {
        (None, Some(_)) => true,
        (Some(x), Some(y)) => clock::moment_less(x, y),
        _ => false,
    }
}

/// An item comes before another: it is newer; or else its address comes later; or else
/// its title comes first.
pub open spec fn news_before(a: NewsView, b: NewsView) -> bool {
    if a.published_at != b.published_at {
        opt_moment_less(b.published_at, a.published_at)
    } else if a.url != b.url {
        order::text_less(b.url, a.url)
    } else {
        order::text_less(a.title, b.title)
    }
}

fn opt_is_before(a: Option<Moment>, b: Option<Moment>) -> (r: bool)
    ensures
        r == opt_moment_less(a, b),
{
    match (a, b) {
        (None, Some(_)) => true,
        (Some(x), Some(y)) => is_before(x, y),
        _ => false,
    }
}

fn is_news_before(a: &NewsItem, b: &NewsItem) -> (r: bool)
    ensures
        r == news_before(a@, b@),
{
    if opt_is_before(b.published_at, a.published_at) {
        return true;
    }
    if opt_is_before(a.published_at, b.published_at) {
        return false;
    }
    if !str_eq(a.url.as_str(), b.url.as_str()) {
        return str_less(b.url.as_str(), a.url.as_str());
    }
    str_less(a.title.as_str(), b.title.as_str())
}

/// Items with another in its place: behind those that it does not come before.
pub open spec fn with_item(s: Seq<NewsView>, x: NewsView) -> Seq<NewsView>
    decreases s.len(),
{
    if s.len() > 0 && news_before(x, s.last()) {
        with_item(s.drop_last(), x).push(s.last())
    } else {
        s.push(x)
    }
}

/// Items in the order of the news.
pub open spec fn in_order(s: Seq<NewsView>) -> Seq<NewsView>
    decreases s.len(),
{
    if s.len() == 0 {
        s
    } else {
        with_item(in_order(s.drop_last()), s.last())
    }
}

/// The news: the first items in their order.
pub open spec fn front_page(s: Seq<NewsView>) -> Seq<NewsView> {
    let o = in_order(s);
    if o.len() > NEWS_ITEM_LIMIT {
        o.take(NEWS_ITEM_LIMIT as int)
    } else {
        o
    }
}

fn insert_item(out: &mut Vec<NewsItem>, item: NewsItem)
    ensures
        news_views(final(out)@) == with_item(news_views(old(out)@), item@),
{
    let ghost all = news_views(out@);
    let mut p: usize = out.len();
    assert(all.take(all.len() as int) =~= all);
    assert(with_item(all, item@) =~= with_item(all, item@) + all.skip(all.len() as int));
    while p > 0 && is_news_before(&item, &out[p - 1])
        invariant
            p <= out@.len(),
            all == news_views(out@),
            with_item(all, item@) == with_item(all.take(p as int), item@) + all.skip(p as int),
        decreases p,
    {
        proof {
            let t = all.take(p as int);
            assert(t.last() == out@[p - 1]@);
            assert(t.drop_last() =~= all.take(p - 1));
            assert(with_item(t, item@) == with_item(all.take(p - 1), item@).push(t.last()));
            assert(with_item(all.take(p - 1), item@).push(t.last()) + all.skip(p as int)
                =~= with_item(all.take(p - 1), item@) + all.skip(p - 1));
        }
        p = p - 1;
    }
    proof {
        let t = all.take(p as int);
        if p > 0 {
            assert(t.last() == out@[p - 1]@);
        }
        assert(with_item(t, item@) == t.push(item@));
        assert(t.push(item@) + all.skip(p as int) =~= all.insert(p as int, item@));
    }
    let ghost x = item@;
    out.insert(p, item);
    assert(news_views(out@) =~= all.insert(p as int, x));
}

/// The news among items.
pub fn order_news(items: Vec<NewsItem>) -> (r: Vec<NewsItem>)
    ensures
        news_views(r@) == front_page(news_views(items@)),
{
    let ghost all = news_views(items@);
    let mut rest = items;
    let mut back: Vec<NewsItem> = Vec::new();
    let n: usize = rest.len();
    // Reverse, so that the first item can be taken from the end.
    while rest.len() > 0
        invariant
            n == all.len(),
            rest@.len() + back@.len() == n,
            news_views(rest@) == all.take(rest@.len() as int),
            forall|k: int|
                0 <= k < back@.len() ==> (#[trigger] back@[k])@ == all[n - 1 - k],
        decreases rest@.len(),
    {
        let ghost before = rest@;
        let ghost old_back = back@;
        match rest.pop() {
            Some(x) => {
                assert(x@ == news_views(before)[before.len() - 1]);
                back.push(x);
                assert(news_views(rest@) =~= news_views(before).drop_last());
                assert(all.take(before.len() as int).drop_last() =~= all.take(before.len() - 1));
                assert forall|k: int| 0 <= k < back@.len() implies (#[trigger] back@[k])@ == all[n
                    - 1 - k] by {
                    if k < old_back.len() {
                        assert(back@[k] == old_back[k]);
                    }
                }
            },
            None => {},
        }
    }
    let mut out: Vec<NewsItem> = Vec::new();
    assert(all.take(0) =~= Seq::<NewsView>::empty());
    assert(news_views(out@) =~= Seq::<NewsView>::empty());
    let mut i: usize = 0;
    while back.len() > 0
        invariant
            n == all.len(),
            i + back@.len() == n,
            news_views(out@) == in_order(all.take(i as int)),
            forall|k: int|
                0 <= k < back@.len() ==> (#[trigger] back@[k])@ == all[n - 1 - k],
        decreases back@.len(),
    {
        let ghost before = back@;
        match back.pop() {
            Some(x) => {
                assert(x@ == all[i as int]) by {
                    assert(before[before.len() - 1]@ == all[n - 1 - (before.len() - 1)]);
                }
                assert(all.take(i + 1).drop_last() =~= all.take(i as int));
                assert forall|k: int| 0 <= k < back@.len() implies (#[trigger] back@[k])@ == all[n
                    - 1 - k] by {
                    assert(back@[k] == before[k]);
                }
                insert_item(&mut out, x);
                i = i + 1;
            },
            None => {},
        }
    }
    assert(all.take(n as int) =~= all);
    let ghost ordered = out@;
    if out.len() > NEWS_ITEM_LIMIT {
        out.truncate(NEWS_ITEM_LIMIT);
        assert(news_views(out@) =~= news_views(ordered).take(NEWS_ITEM_LIMIT as int));
    }
    out
}

// ── The feed ───────────────────────────────────────────────────────────────

/// The news of a document.
pub open spec fn news_of(ns: Seq<XmlView>) -> Seq<NewsView> {
    front_page(entry_items(ns, ns.len() as int))
}

/// The news of a document.
pub fn read_news(nodes: &Vec<XmlNode>) -> (r: Vec<NewsItem>)
    ensures
        news_views(r@) == news_of(xml::node_views(nodes@)),
{
    order_news(read_entries(nodes))
}

/// The news of a feed.
pub fn parse_news_feed(xml: &str) -> (r: Result<Vec<NewsItem>, NewsError>)
    ensures
        match (xml::xml_nodes(xml@), r) {
            (Ok(ns), Ok(v)) => news_views(v@) == news_of(ns),
            (Err(m), Err(e)) => e matches NewsError::Xml(t) && t@ == m,
            _ => false,
        },
{
    match read_xml(xml) {
        Ok(nodes) => Ok(read_news(&nodes)),
        Err(m) => Err(NewsError::Xml(m)),
    }
}

// ── Laws ───────────────────────────────────────────────────────────────────

proof fn lemma_news_order(a: NewsView, b: NewsView, c: NewsView)
    ensures
        !news_before(a, a),
        news_before(a, b) ==> !news_before(b, a),
        news_before(a, b) && !news_before(c, b) ==> news_before(a, c),
{
    order::lemma_text_less_irreflexive(a.title);
    order::lemma_text_less_irreflexive(a.url);
    if a.url != b.url {
        order::lemma_text_less_total(a.url, b.url);
    }
    order::lemma_text_less_total(c.url, b.url);
    order::lemma_text_less_total(a.url, c.url);
    order::lemma_text_less_total(a.title, b.title);
    order::lemma_text_less_total(c.title, b.title);
    order::lemma_text_less_total(a.title, c.title);
    order::lemma_text_less_irreflexive(b.url);
    order::lemma_text_less_irreflexive(b.title);
    if order::text_less(a.url, b.url) && order::text_less(b.url, a.url) {
        order::lemma_text_less_transitive(a.url, b.url, a.url);
    }
    if order::text_less(a.title, b.title) && order::text_less(b.title, a.title) {
        order::lemma_text_less_transitive(a.title, b.title, a.title);
    }
    if order::text_less(c.url, b.url) && order::text_less(b.url, a.url) {
        order::lemma_text_less_transitive(c.url, b.url, a.url);
    }
    if order::text_less(a.title, b.title) && order::text_less(b.title, c.title) {
        order::lemma_text_less_transitive(a.title, b.title, c.title);
    }
    if order::text_less(c.url, b.url) && order::text_less(b.url, c.url) {
        order::lemma_text_less_transitive(c.url, b.url, c.url);
    }
    if order::text_less(c.title, b.title) && order::text_less(b.title, c.title) {
        order::lemma_text_less_transitive(c.title, b.title, c.title);
    }
}

/// Items stand in the order of the news.
pub open spec fn is_in_order(s: Seq<NewsView>) -> bool {
    forall|i: int, j: int|
        0 <= i < j < s.len() ==> !news_before(#[trigger] s[j], #[trigger] s[i])
}

proof fn lemma_with_item(s: Seq<NewsView>, x: NewsView)
    requires
        is_in_order(s),
    ensures
        is_in_order(with_item(s, x)),
        with_item(s, x).to_multiset() == s.to_multiset().insert(x),
        with_item(s, x).len() == s.len() + 1,
    decreases s.len(),
{
    broadcast use vstd::seq_lib::group_to_multiset_ensures;

    if s.len() > 0 && news_before(x, s.last()) {
        let d = s.drop_last();
        assert(d.push(s.last()) =~= s);
        lemma_with_item(d, x);
        let w = with_item(d, x);
        let r = w.push(s.last());
        assert(r.to_multiset() =~= s.to_multiset().insert(x));
        assert forall|i: int, j: int| 0 <= i < j < r.len() implies !news_before(
            #[trigger] r[j],
            #[trigger] r[i],
        ) by {
            if j == r.len() - 1 {
                assert(w.contains(w[i]));
                assert(w.to_multiset().count(w[i]) > 0);
                if w[i] == x {
                    lemma_news_order(x, s.last(), x);
                } else {
                    assert(d.to_multiset().count(w[i]) > 0);
                    assert(d.contains(w[i]));
                    let k = choose|k: int| 0 <= k < d.len() && d[k] == w[i];
                    assert(s[k] == d[k]);
                    assert(!news_before(s[s.len() - 1], s[k]));
                }
            } else {
                assert(r[i] == w[i] && r[j] == w[j]);
            }
        }
    } else {
        let r = s.push(x);
        assert forall|i: int, j: int| 0 <= i < j < r.len() implies !news_before(
            #[trigger] r[j],
            #[trigger] r[i],
        ) by {
            if j == r.len() - 1 {
                assert(r[i] == s[i]);
                if news_before(x, s[i]) {
                    lemma_news_order(x, s[i], s.last());
                    lemma_news_order(s.last(), s.last(), s.last());
                    if i < s.len() - 1 {
                        assert(!news_before(s[s.len() - 1], s[i]));
                    }
                }
            } else {
                assert(r[i] == s[i] && r[j] == s[j]);
            }
        }
    }
}

/// Ordering the news keeps every item, and puts none behind one that it comes before.
pub proof fn law_news_are_in_order(s: Seq<NewsView>)
    ensures
        is_in_order(in_order(s)),
        in_order(s).to_multiset() == s.to_multiset(),
    decreases s.len(),
{
    broadcast use vstd::seq_lib::group_to_multiset_ensures;

    if s.len() > 0 {
        law_news_are_in_order(s.drop_last());
        lemma_with_item(in_order(s.drop_last()), s.last());
        assert(s.drop_last().push(s.last()) =~= s);
    }
}

proof fn lemma_entries_are_named(ns: Seq<XmlView>, n: int)
    requires
        n <= ns.len(),
    ensures
        forall|i: int|
            0 <= i < entry_items(ns, n).len() ==> (#[trigger] entry_items(ns, n)[i]).title.len() > 0
                && entry_items(ns, n)[i].url.len() > 0,
    decreases n,
{
    if n > 0 {
        lemma_entries_are_named(ns, n - 1);
    }
}

/// The news are at most the number that is shown, newest first, and each has a title and
/// an address.
pub proof fn law_news_of_a_feed(ns: Seq<XmlView>)
    ensures
        news_of(ns).len() <= NEWS_ITEM_LIMIT,
        is_in_order(news_of(ns)),
        forall|i: int|
            0 <= i < news_of(ns).len() ==> (#[trigger] news_of(ns)[i]).title.len() > 0
                && news_of(ns)[i].url.len() > 0,
{
    broadcast use vstd::seq_lib::group_to_multiset_ensures;

    let s = entry_items(ns, ns.len() as int);
    law_news_are_in_order(s);
    lemma_entries_are_named(ns, ns.len() as int);
    let o = in_order(s);
    assert forall|i: int| 0 <= i < o.len() implies (#[trigger] o[i]).title.len() > 0
        && o[i].url.len() > 0 by {
        assert(o.contains(o[i]));
        assert(o.to_multiset().count(o[i]) > 0);
        assert(s.contains(o[i]));
    }
}

} // verus!
