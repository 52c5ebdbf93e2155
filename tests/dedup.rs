use rssdeduper::feed::{find_build_marker, DedupError, Feed};
use rssdeduper::registry::DedupRegistry;
use rssdeduper::retention::check_pub_date_not_older_than;

// 2024-01-01T12:00:00Z
const NOW: i64 = 1704110400;

fn item(title: &str, link: &str) -> String {
    format!("<item><title>{}</title><link>{}</link></item>", title, link)
}

fn dated_item(title: &str, link: &str, date: &str) -> String {
    format!(
        "<item><title>{}</title><link>{}</link><pubDate>{}</pubDate></item>",
        title, link, date
    )
}

fn feed_text(channel: &str, marker: &str, items: &[String]) -> String {
    format!(
        "<?xml version=\"1.0\" encoding=\"UTF-8\"?>\n<rss version=\"2.0\">\n<channel>\n<title>t</title>\n<link>{}</link>\n<lastBuildDate>{}</lastBuildDate>\n{}\n</channel>\n</rss>\n",
        channel,
        marker,
        items.join("\n")
    )
}

fn item_count(text: &str) -> usize {
    text.matches("<item>").count()
}

fn feed_with(url: &str, text: String) -> Feed {
    let mut feed = Feed::new(url, "out.rss");
    feed.read(text);
    feed
}

#[test]
fn first_writer_wins_across_channels() {
    let mut registry = DedupRegistry::new();
    let mut a = feed_with(
        "https://x/news",
        feed_text("https://x/news", "m1", &[item("shared", "https://x/a/story-111111.html")]),
    );
    let mut b = feed_with(
        "https://x/headlines",
        feed_text(
            "https://x/headlines",
            "m1",
            &[item("shared elsewhere", "https://x/b/other-111111.html")],
        ),
    );
    assert!(a.remove_duplicates(&mut registry, 0, NOW).is_ok());
    assert!(b.remove_duplicates(&mut registry, 0, NOW).is_ok());
    assert_eq!(item_count(a.content()), 1);
    assert!(a.content().contains("<title>shared</title>"));
    assert_eq!(item_count(b.content()), 0);
    assert_eq!(registry.len(), 1);

    // a later pass over the owning channel gets the registered content back
    let mut again = feed_with(
        "https://x/news",
        feed_text(
            "https://x/news",
            "m2",
            &[item("shared, edited", "https://x/a/story-111111.html")],
        ),
    );
    assert!(again.remove_duplicates(&mut registry, 0, NOW).is_ok());
    assert_eq!(item_count(again.content()), 1);
    assert!(again.content().contains("<title>shared</title>"));
    assert!(!again.content().contains("edited"));
    assert_eq!(registry.len(), 1);
}

#[test]
fn end_to_end_two_feeds() {
    let mut registry = DedupRegistry::new();
    let mut a = feed_with(
        "https://x/news",
        feed_text(
            "https://x/news",
            "m",
            &[
                item("u1", "https://x/2024/01/u1-100001.html"),
                item("u2", "https://x/2024/01/u2-100002.html"),
            ],
        ),
    );
    let mut b = feed_with(
        "https://x/headlines",
        feed_text(
            "https://x/headlines",
            "m",
            &[
                item("u1 again", "https://x/top/u1-100001.html"),
                item("u3", "https://x/top/u3-100003.html"),
            ],
        ),
    );
    assert!(a.remove_duplicates(&mut registry, 0, NOW).is_ok());
    assert!(b.remove_duplicates(&mut registry, 0, NOW).is_ok());
    assert_eq!(item_count(a.content()), 2);
    assert!(a.content().contains("u1-100001"));
    assert!(a.content().contains("u2-100002"));
    assert_eq!(item_count(b.content()), 1);
    assert!(b.content().contains("u3-100003"));
    assert!(!b.content().contains("u1-100001"));
    assert_eq!(registry.len(), 3);
}

#[test]
fn repeated_item_in_one_channel_converges() {
    let mut registry = DedupRegistry::new();
    let mut a = feed_with(
        "https://x/news",
        feed_text(
            "https://x/news",
            "m",
            &[
                item("first", "https://x/a/story-123456.html"),
                item("second", "https://x/b/story-123456.html"),
            ],
        ),
    );
    assert!(a.remove_duplicates(&mut registry, 0, NOW).is_ok());
    assert_eq!(item_count(a.content()), 2);
    assert_eq!(a.content().matches("<title>first</title>").count(), 2);
    assert!(!a.content().contains("second"));
}

#[test]
fn old_items_go_with_a_small_max_age() {
    let text = feed_text(
        "https://x/news",
        "m",
        &[dated_item(
            "old",
            "https://x/a/story-555555.html",
            "Mon, 01 Jan 2024 10:00:00 +0000",
        )],
    );
    let mut registry = DedupRegistry::new();
    let mut small = feed_with("https://x/news", text.clone());
    assert!(small.remove_duplicates(&mut registry, 1, NOW).is_ok());
    assert_eq!(item_count(small.content()), 0);
    // an expired item never reaches the registry
    assert_eq!(registry.len(), 0);

    let mut unlimited = feed_with("https://x/news", text.clone());
    assert!(unlimited.remove_duplicates(&mut registry, 0, NOW).is_ok());
    assert_eq!(item_count(unlimited.content()), 1);

    let mut registry = DedupRegistry::new();
    let mut large = feed_with("https://x/news", text);
    assert!(large.remove_duplicates(&mut registry, u32::MAX as u64, NOW).is_ok());
    assert_eq!(item_count(large.content()), 1);
}

#[test]
fn unreadable_date_keeps_the_item() {
    let mut registry = DedupRegistry::new();
    let mut feed = feed_with(
        "https://x/news",
        feed_text(
            "https://x/news",
            "m",
            &[dated_item("undated", "https://x/a/story-777777.html", "yesterday")],
        ),
    );
    assert!(feed.remove_duplicates(&mut registry, 1, NOW).is_ok());
    assert_eq!(item_count(feed.content()), 1);
}

#[test]
fn retention_boundaries() {
    let date = "Mon, 01 Jan 2024 10:00:00 +0000";
    assert!(!check_pub_date_not_older_than(date, 1, NOW));
    assert!(check_pub_date_not_older_than(date, 2, NOW));
    assert!(check_pub_date_not_older_than(date, 0, NOW));
    assert!(check_pub_date_not_older_than("not a date", 1, NOW));
    assert!(check_pub_date_not_older_than("", 1, NOW));
}

#[test]
fn missing_channel_link_fails_and_leaves_state() {
    let mut registry = DedupRegistry::new();
    let mut a = feed_with(
        "https://x/news",
        feed_text("https://x/news", "m", &[item("one", "https://x/a/story-111111.html")]),
    );
    assert!(a.remove_duplicates(&mut registry, 0, NOW).is_ok());
    assert_eq!(registry.len(), 1);

    let text = "<rss><channel><title>no link</title><item><link>https://x/a/story-222222.html</link></item></channel></rss>".to_string();
    let mut broken = feed_with("https://x/broken", text.clone());
    match broken.remove_duplicates(&mut registry, 0, NOW) {
        Err(DedupError::MissingChannelLink { feed, .. }) => assert_eq!(feed, "https://x/broken"),
        _ => panic!("expected a missing channel link"),
    }
    assert_eq!(registry.len(), 1);
    assert_eq!(broken.content(), &text);
}

#[test]
fn second_channel_without_link_rolls_back() {
    let mut registry = DedupRegistry::new();
    let text = "<rss><channel><link>https://x/one</link><item><link>https://x/a/story-222222.html</link></item></channel><channel><title>none</title></channel></rss>".to_string();
    let mut feed = feed_with("https://x/two-channels", text);
    assert!(feed.remove_duplicates(&mut registry, 0, NOW).is_err());
    assert_eq!(registry.len(), 0);
}

#[test]
fn malformed_document_is_a_parse_error() {
    let mut registry = DedupRegistry::new();
    let mut feed = feed_with("https://x/bad", "<rss><channel>".to_string());
    let err = feed.remove_duplicates(&mut registry, 0, NOW).unwrap_err();
    assert!(matches!(err, DedupError::Parse { .. }));
    assert_eq!(err.feed(), "https://x/bad");
    assert!(err.message().contains("https://x/bad"));
    assert_eq!(registry.len(), 0);
}

#[test]
fn test_rss_with_atom_link() {
    let text = "<rss xmlns:atom=\"http://www.w3.org/2005/Atom\"><channel><atom:link href=\"http://arduino-praxis.ch/feed/\" rel=\"self\"/><link>http://arduino-praxis.ch</link><item><link>http://arduino-praxis.ch/2023/01/post-987654/</link></item></channel></rss>".to_string();
    let mut registry = DedupRegistry::new();
    let mut feed = feed_with("http://arduino-praxis.ch/feed/", text);
    assert!(feed.remove_duplicates(&mut registry, 0, NOW).is_ok());
    assert_eq!(item_count(feed.content()), 1);
    assert!(feed.content().contains("atom:link"));
}

#[test]
fn rewriting_is_deterministic() {
    let text = feed_text(
        "https://x/news",
        "m",
        &[item("a", "https://x/a/story-111111.html"), item("b", "https://x/a/story-222222.html")],
    );
    let mut r1 = DedupRegistry::new();
    let mut r2 = DedupRegistry::new();
    let mut f1 = feed_with("https://x/news", text.clone());
    let mut f2 = feed_with("https://x/news", text);
    assert!(f1.remove_duplicates(&mut r1, 0, NOW).is_ok());
    assert!(f2.remove_duplicates(&mut r2, 0, NOW).is_ok());
    assert_eq!(f1.content(), f2.content());
    assert!(f1.content().contains("\n    <channel>"));
}

#[test]
fn same_build_marker_reports_unchanged() {
    let text = feed_text("https://x/news", "Mon, 01 Jan 2024 00:00:00 +0000", &[]);
    let mut feed = Feed::new("https://x/news", "out.rss");
    assert!(feed.read(text.clone()));
    assert!(!feed.read(text.clone()));
    assert_eq!(feed.last_build_date(), "<lastBuildDate>Mon, 01 Jan 2024 00:00:00 +0000</lastBuildDate>");
    let newer = feed_text("https://x/news", "Tue, 02 Jan 2024 00:00:00 +0000", &[]);
    assert!(feed.read(newer));
}

#[test]
fn missing_build_marker_always_changed() {
    let text = "<rss><channel><link>https://x</link></channel></rss>".to_string();
    let mut feed = Feed::new("https://x/news", "out.rss");
    assert!(feed.read(text.clone()));
    assert!(feed.read(text));
    assert_eq!(feed.last_build_date(), "");
}

#[test]
fn build_marker_is_trimmed_line() {
    assert_eq!(
        find_build_marker("<rss>\n   <lastBuildDate>x</lastBuildDate>  \r\n</rss>"),
        Some(String::from("<lastBuildDate>x</lastBuildDate>"))
    );
    assert_eq!(find_build_marker("<a><lastBuildDate>x</lastBuildDate></a>"), None);
    assert_eq!(find_build_marker(""), None);
}

#[test]
fn unchanged_fetch_runs_no_pass() {
    let mut registry = DedupRegistry::new();
    let text = feed_text("https://x/news", "m", &[item("one", "https://x/a/story-111111.html")]);
    let mut feed = Feed::new("https://x/news", "out.rss");
    assert_eq!(feed.update(text.clone(), &mut registry, 0, NOW).unwrap(), true);
    assert_eq!(registry.len(), 1);
    let mut other = DedupRegistry::new();
    assert_eq!(feed.update(text.clone(), &mut other, 0, NOW).unwrap(), false);
    assert_eq!(other.len(), 0);
    assert_eq!(feed.content(), &text);
}

#[test]
fn registry_clear_starts_a_new_generation() {
    let mut registry = DedupRegistry::new();
    let mut a = feed_with(
        "https://x/news",
        feed_text("https://x/news", "m", &[item("one", "https://x/a/story-111111.html")]),
    );
    assert!(a.remove_duplicates(&mut registry, 0, NOW).is_ok());
    registry.clear();
    assert_eq!(registry.len(), 0);
    let mut b = feed_with(
        "https://x/headlines",
        feed_text("https://x/headlines", "m", &[item("one", "https://x/b/story-111111.html")]),
    );
    assert!(b.remove_duplicates(&mut registry, 0, NOW).is_ok());
    assert_eq!(item_count(b.content()), 1);
}

#[test]
fn temp_filename_is_a_sibling() {
    let feed = Feed::new("https://x/news", "/var/www/rss/news.rss");
    assert_eq!(feed.temp_filename(), "/var/www/rss/news.rss.tmp");
    assert_eq!(feed.filename(), "/var/www/rss/news.rss");
    assert_eq!(feed.url(), "https://x/news");
}

#[test]
fn item_without_link_is_kept_and_not_registered() {
    let mut registry = DedupRegistry::new();
    let text = "<rss><channel><link>https://x/news</link><item><title>plain</title></item></channel></rss>".to_string();
    let mut a = feed_with("https://x/news", text.clone());
    let mut b = feed_with("https://x/other", text.replace("https://x/news", "https://x/other"));
    assert!(a.remove_duplicates(&mut registry, 0, NOW).is_ok());
    assert!(b.remove_duplicates(&mut registry, 0, NOW).is_ok());
    assert_eq!(item_count(a.content()), 1);
    assert_eq!(item_count(b.content()), 1);
    assert_eq!(registry.len(), 0);
}

#[test]
fn cdata_link_counts_as_text() {
    let mut registry = DedupRegistry::new();
    let mut a = feed_with(
        "https://x/news",
        feed_text(
            "https://x/news",
            "m",
            &["<item><title>c</title><link><![CDATA[https://x/a/story-313131.html]]></link></item>".to_string()],
        ),
    );
    let mut b = feed_with(
        "https://x/headlines",
        feed_text("https://x/headlines", "m", &[item("c again", "https://x/b/story-313131.html")]),
    );
    assert!(a.remove_duplicates(&mut registry, 0, NOW).is_ok());
    assert!(b.remove_duplicates(&mut registry, 0, NOW).is_ok());
    assert_eq!(item_count(a.content()), 1);
    assert_eq!(item_count(b.content()), 0);
}

#[test]
fn nested_channel_is_scoped_on_its_own() {
    let mut registry = DedupRegistry::new();
    let text = "<rss><channel><link>https://x/a</link>\
        <item><link>https://x/a/one-111111.html</link></item>\
        <channel><link>https://x/b</link><item><link>https://x/b/one-111111.html</link></item></channel>\
        <item><link>https://x/a/two-222222.html</link></item>\
        </channel></rss>"
        .to_string();
    let mut feed = feed_with("https://x/a", text);
    assert!(feed.remove_duplicates(&mut registry, 0, NOW).is_ok());
    // the nested channel loses the article the outer one owns
    assert_eq!(item_count(feed.content()), 2);
    assert!(!feed.content().contains("https://x/b/one-111111.html"));
    // the item after the nested channel belongs to the outer channel
    let mut later = feed_with(
        "https://x/a",
        feed_text("https://x/a", "m", &[item("two", "https://x/a/two-222222.html")]),
    );
    assert!(later.remove_duplicates(&mut registry, 0, NOW).is_ok());
    assert_eq!(item_count(later.content()), 1);
}
