use vgindex::clock::Moment;
use vgindex::services::cache::{after_refresh, is_fresh, Refreshed};
use vgindex::services::news_service::{
    clean_phpbb_feed_content, order_news, parse_news_feed, NewsError, NewsItem,
};

fn item(title: &str, url: &str, seconds: Option<i64>) -> NewsItem {
    NewsItem {
        title: title.to_string(),
        author: String::new(),
        url: url.to_string(),
        published_date: String::new(),
        published_at: seconds.map(|seconds| Moment { seconds, nanos: 0 }),
        content_html: String::new(),
    }
}

#[test]
fn parses_atom_news_entries_and_limits_to_five() {
    let mut entries = String::new();
    for day in 1..=6 {
        entries.push_str(&format!(
            r#"
                <entry>
                    <author><name><![CDATA[Author {day}]]></name></author>
                    <published>2026-05-{day:02}T12:00:00+00:00</published>
                    <updated>2026-05-{day:02}T12:30:00+00:00</updated>
                    <id>https://forum.example/viewtopic.php?p={day}#p{day}</id>
                    <link href="https://forum.example/viewtopic.php?p={day}#p{day}" />
                    <title type="html"><![CDATA[News {day}]]></title>
                    <content type="html"><![CDATA[
                        <p>Body {day}</p><a href="/viewtopic.php?t={day}">Thread</a><p>Statistics: Posted by Author</p><hr />
                    ]]></content>
                </entry>
                "#
        ));
    }
    let xml = format!(r#"<feed xmlns="http://www.w3.org/2005/Atom">{entries}</feed>"#);

    let items = parse_news_feed(&xml).unwrap();

    assert_eq!(items.len(), 5);
    assert_eq!(items[0].title, "News 6");
    assert_eq!(items[0].author, "Author 6");
    assert_eq!(items[0].published_date, "2026-05-06");
    assert_eq!(items[0].url, "https://forum.example/viewtopic.php?p=6#p6");
    assert_eq!(
        items[0].content_html,
        r#"<p>Body 6</p><a href="https://forum.example/viewtopic.php?t=6">Thread</a>"#
    );
    assert_eq!(items[4].title, "News 2");
}

#[test]
fn falls_back_to_updated_when_published_is_missing() {
    let xml = r#"
            <feed xmlns="http://www.w3.org/2005/Atom">
                <entry>
                    <author><name>Alice</name></author>
                    <updated>2026-03-04T05:06:07+00:00</updated>
                    <link href="https://forum.example/viewtopic.php?p=1#p1" />
                    <title>Updated only</title>
                    <content><![CDATA[<p>Body</p>]]></content>
                </entry>
            </feed>
        "#;

    let items = parse_news_feed(xml).unwrap();

    assert_eq!(items[0].published_date, "2026-03-04");
}

#[test]
fn cache_returns_fresh_items_without_refreshing() {
    assert!(!is_fresh(None, 5, 60));
    assert!(is_fresh(Some(5), 64, 60));
    assert!(!is_fresh(Some(5), 65, 60));
    assert!(matches!(
        after_refresh::<&str, &str>(Ok("first"), None),
        Refreshed::Loaded("first")
    ));
}

#[test]
fn cache_serves_stale_items_when_refresh_fails() {
    assert!(!is_fresh(Some(5), 5, 0));
    assert!(matches!(
        after_refresh(Err("refresh failed"), Some("stale")),
        Refreshed::Stale("stale")
    ));
}

#[test]
fn cache_returns_error_without_stale_items() {
    match after_refresh::<&str, NewsError>(Err(NewsError::Message("no feed".to_string())), None) {
        Refreshed::Failed(e) => assert_eq!(e.text(), "no feed"),
        _ => unreachable!(),
    }
}

#[test]
fn broken_feeds_are_refused() {
    match parse_news_feed("<feed>") {
        Err(NewsError::Xml(m)) => {
            assert!(!m.is_empty());
            assert!(NewsError::Xml(m).text().starts_with("news feed XML is invalid: "));
        }
        _ => unreachable!(),
    }
    assert_eq!(parse_news_feed("<feed><entry/></feed>"), Ok(Vec::new()));
    assert_eq!(NewsError::HttpStatus("404 Not Found".to_string()).text(), "news feed returned HTTP 404 Not Found");
    assert_eq!(NewsError::Request("x".to_string()).text(), "news feed request failed: x");
}

#[test]
fn entries_fall_back_to_identifiers_and_summaries() {
    let xml = r#"<feed>
        <entry><title>A</title><link href="  "/><id> https://a.example/x </id><summary>S &lt;hr&gt;</summary></entry>
        <entry><title>B</title></entry>
        <entry><link href="https://b.example/"/></entry>
    </feed>"#;
    let items = parse_news_feed(xml).unwrap();
    assert_eq!(items.len(), 1);
    assert_eq!(items[0].url, "https://a.example/x");
    assert_eq!(items[0].content_html, "S");
    assert_eq!(items[0].published_at, None);
    assert_eq!(items[0].published_date, "");
}

#[test]
fn news_are_ordered_by_time_address_and_title() {
    let items = order_news(vec![
        item("none", "z", None),
        item("b", "a", Some(1)),
        item("a", "a", Some(1)),
        item("c", "b", Some(1)),
        item("d", "a", Some(2)),
    ]);
    let titles: Vec<&str> = items.iter().map(|i| i.title.as_str()).collect();
    assert_eq!(titles, vec!["d", "c", "a", "b", "none"]);
}

#[test]
fn content_is_cleaned() {
    let base = "https://forum.example/viewtopic.php?t=1";
    assert_eq!(
        clean_phpbb_feed_content("<img src=\"./a.png\"><a href=\"#top\">x</a> <HR/>", base),
        "<img src=\"https://forum.example/a.png\"><a href=\"#top\">x</a>"
    );
    assert_eq!(clean_phpbb_feed_content("<p>Statistics: none</P>", base), "");
    assert_eq!(clean_phpbb_feed_content("<a href=\"b\">", "no address"), "<a href=\"b\">");
    assert_eq!(clean_phpbb_feed_content("<a href=\"b", base), "<a href=\"b");
}
