use my_daily_newspaper::wire::{
    bing_search_url, cached_channel, channel_feed_url, channel_id_from_html, channel_missing_note, clean_text,
    dedupe_by_url, feed_failed_note, feed_kind, google_search_url, host_label, merge_outcomes, news_failed_note,
    feed_from_nodes, news_items, news_outcome, news_query, normalize_date, og_image_from_html, parse_date, og_image_link, parse_feed, truncate,
    unwrap_redirect, video_items, within_days, youtube_id, youtube_thumb, FeedKind, FeedOutcome,
};
use my_daily_newspaper::model::WireItem;

const YT: &str = r#"<?xml version="1.0" encoding="UTF-8"?>
<feed xmlns:yt="http://www.youtube.com/xml/schemas/2015" xmlns:media="http://search.yahoo.com/mrss/" xmlns="http://www.w3.org/2005/Atom">
 <link rel="self" href="http://www.youtube.com/feeds/videos.xml?channel_id=UCzQUP1qoWDoEbmsQxvdjxgQ"/>
 <title>PowerfulJRE</title>
 <entry>
  <id>yt:video:abcdefghijk</id>
  <yt:videoId>abcdefghijk</yt:videoId>
  <yt:channelId>UCzQUP1qoWDoEbmsQxvdjxgQ</yt:channelId>
  <title>Joe Rogan Experience #9999 - Somebody &amp; Friends</title>
  <link rel="alternate" href="https://www.youtube.com/watch?v=abcdefghijk"/>
  <author><name>PowerfulJRE</name><uri>https://www.youtube.com/channel/UCzQUP1qoWDoEbmsQxvdjxgQ</uri></author>
  <published>2026-09-17T17:00:12+00:00</published>
  <updated>2026-09-17T19:00:00+00:00</updated>
  <media:group>
   <media:title>Joe Rogan Experience #9999</media:title>
   <media:content url="https://www.youtube.com/v/abcdefghijk?version=3" type="application/x-shockwave-flash" width="640" height="390"/>
   <media:thumbnail url="https://i2.ytimg.com/vi/abcdefghijk/hqdefault.jpg" width="480" height="360"/>
   <media:description>A long talk.
With line breaks.</media:description>
  </media:group>
 </entry>
</feed>"#;

const BING: &str = r#"<?xml version="1.0" encoding="utf-8" ?>
<rss version="2.0" xmlns:News="https://www.bing.com/news/search?q=x&amp;format=rss"><channel><title>x - BingNews</title>
<item><title>Starship flies again</title>
<link>http://www.bing.com/news/apiclick.aspx?ref=FexRss&amp;aid=&amp;tid=abc&amp;url=https%3a%2f%2fwww.example.com%2fspace%2fstarship%3fa%3d1&amp;c=123&amp;mkt=en-us</link>
<description>The &lt;b&gt;rocket&lt;/b&gt; went up &amp;amp; came down.</description>
<pubDate>Thu, 17 Sep 2026 14:05:00 GMT</pubDate>
<News:Source>Example News</News:Source>
<News:Image>http://www.bing.com/th?id=OVFT.abc&amp;pid=News</News:Image>
</item></channel></rss>"#;

const GOOGLE: &str = r##"<?xml version="1.0" encoding="UTF-8" standalone="yes"?>
<rss version="2.0" xmlns:media="http://search.yahoo.com/mrss/"><channel><title>q - Google News</title>
<item><title>Dodgers clinch the West - Los Angeles Times</title>
<link>https://news.google.com/rss/articles/CBMiabc?oc=5</link>
<guid isPermaLink="false">CBMiabc</guid>
<pubDate>Wed, 16 Sep 2026 05:12:00 GMT</pubDate>
<description>&lt;a href="https://news.google.com/rss/articles/CBMiabc"&gt;Dodgers clinch the West&lt;/a&gt;&amp;nbsp;&amp;nbsp;&lt;font color="#6f6f6f"&gt;Los Angeles Times&lt;/font&gt;</description>
<source url="https://www.latimes.com">Los Angeles Times</source></item></channel></rss>"##;

/// 2026-09-18T00:00:00Z
const NOW: i64 = 1_789_689_600;

#[test]
fn parses_youtube_atom() {
    let e = parse_feed(YT);
    assert_eq!(e.len(), 1);
    assert_eq!(e[0].video_id.as_deref(), Some("abcdefghijk"));
    assert_eq!(e[0].title, "Joe Rogan Experience #9999 - Somebody & Friends");
    assert_eq!(e[0].link, "https://www.youtube.com/watch?v=abcdefghijk");
    assert_eq!(e[0].author.as_deref(), Some("PowerfulJRE"));
    assert_eq!(e[0].published.as_deref(), Some("2026-09-17T17:00:12Z"));
    assert_eq!(e[0].summary.as_deref(), Some("A long talk. With line breaks."));
    assert!(e[0].image.as_deref().unwrap().contains("hqdefault"));
}

#[test]
fn parses_bing_rss_and_unwraps_link() {
    let e = parse_feed(BING);
    assert_eq!(e.len(), 1);
    assert_eq!(e[0].source.as_deref(), Some("Example News"));
    assert_eq!(e[0].summary.as_deref(), Some("The rocket went up & came down."));
    assert_eq!(unwrap_redirect(&e[0].link), "https://www.example.com/space/starship?a=1");
    assert!(e[0].image.is_some());
    assert_eq!(e[0].published.as_deref(), Some("2026-09-17T14:05:00Z"));
}

#[test]
fn parses_google_news_rss() {
    let e = parse_feed(GOOGLE);
    assert_eq!(e.len(), 1);
    assert_eq!(e[0].source.as_deref(), Some("Los Angeles Times"));
    assert!(e[0].link.starts_with("https://news.google.com/"));
}

#[test]
fn youtube_ids() {
    assert_eq!(youtube_id("https://www.youtube.com/watch?v=abcdefghijk&t=3s").as_deref(), Some("abcdefghijk"));
    assert_eq!(youtube_id("https://www.youtube.com/watch?app=desktop&v=abcdefghijk").as_deref(), Some("abcdefghijk"));
    assert_eq!(youtube_id("https://youtu.be/abcdefghijk?si=x").as_deref(), Some("abcdefghijk"));
    assert_eq!(youtube_id("https://www.youtube.com/shorts/abcdefghijk").as_deref(), Some("abcdefghijk"));
    assert_eq!(youtube_id("https://example.com/watch?v=abcdefghijk"), None);
}

#[test]
fn channel_id_extraction() {
    let html = r#"<link rel="canonical" href="https://www.youtube.com/channel/UCzQUP1qoWDoEbmsQxvdjxgQ"><script>{"externalId":"UCzQUP1qoWDoEbmsQxvdjxgQ"}</script>"#;
    assert_eq!(channel_id_from_html(html).as_deref(), Some("UCzQUP1qoWDoEbmsQxvdjxgQ"));
    assert_eq!(channel_id_from_html("<html>nothing</html>"), None);
}

#[test]
fn og_image_both_attribute_orders() {
    let a = r#"<meta property="og:image" content="https://x.test/a.jpg?w=1&amp;h=2">"#;
    let b = r#"<meta content='https://x.test/b.jpg' name='twitter:image'/>"#;
    assert_eq!(og_image_from_html(a).as_deref(), Some("https://x.test/a.jpg?w=1&h=2"));
    assert_eq!(og_image_from_html(b).as_deref(), Some("https://x.test/b.jpg"));
    assert_eq!(og_image_from_html("<meta name='description' content='x'>"), None);
}

#[test]
fn truncates_on_char_boundaries() {
    assert_eq!(truncate("héllo wörld", 6), "héllo…");
    assert_eq!(truncate("short", 10), "short");
}

#[test]
fn truncation_drops_trailing_space_before_the_ellipsis() {
    assert_eq!(truncate("ab cd", 4), "ab…");
    assert_eq!(truncate("abc", 0), "…");
    assert_eq!(truncate("abc", 3), "abc");
}

#[test]
fn thumbnails_and_host_labels() {
    assert_eq!(youtube_thumb("abcdefghijk"), "https://i.ytimg.com/vi/abcdefghijk/hqdefault.jpg");
    assert_eq!(host_label("https://www.example.com/a"), "example.com");
    assert_eq!(host_label("https://www.www.example.com/a"), "example.com");
    assert_eq!(host_label("not a url"), "");
    assert_eq!(unwrap_redirect("https://a.test/x"), "https://a.test/x");
}

#[test]
fn clean_text_strips_tags_and_entities() {
    assert_eq!(clean_text("  <p>Fish &amp; chips</p>\n\n&quot;hot&quot; "), "Fish & chips \"hot\"");
    assert_eq!(clean_text("a&nbsp;b &#39;c&apos;"), "a b 'c'");
}

#[test]
fn dates_normalise_to_utc() {
    assert_eq!(normalize_date(" 2026-09-17T10:00:00-07:00 ").as_deref(), Some("2026-09-17T17:00:00Z"));
    assert_eq!(normalize_date("Thu, 17 Sep 2026 14:05:00 GMT").as_deref(), Some("2026-09-17T14:05:00Z"));
    assert_eq!(normalize_date("yesterday"), None);
}

#[test]
fn unknown_dates_are_fresh() {
    assert!(within_days(None, 5, NOW, 0));
    assert!(within_days(Some("three days ago"), 5, NOW, 0));
    assert!(within_days(Some("2026-09-13T00:00:00Z"), 5, NOW, 0));
    assert!(within_days(Some("2026-09-12T00:00:01Z"), 5, NOW, 0));
    assert!(!within_days(Some("2026-09-12T00:00:00Z"), 5, NOW, 0));
}

#[test]
fn channel_feeds_become_video_copy() {
    let e = parse_feed(YT);
    let items = video_items(&e, "Joe Rogan", NOW, 0);
    assert_eq!(items.len(), 1);
    assert_eq!(items[0].kind, "video");
    assert_eq!(items[0].url, "https://www.youtube.com/watch?v=abcdefghijk");
    assert_eq!(items[0].source, "YouTube");
    assert_eq!(items[0].image.as_deref(), Some("https://i.ytimg.com/vi/abcdefghijk/hqdefault.jpg"));
    assert_eq!(items[0].beat, "Joe Rogan");
    // Eleven days later the video is too old for the wire.
    assert!(video_items(&e, "Joe Rogan", NOW + 11 * 86400, 0).is_empty());
}

#[test]
fn news_feeds_become_article_copy() {
    let e = parse_feed(GOOGLE);
    let items = news_items(&e, "Dodgers", NOW, 0);
    assert_eq!(items.len(), 1);
    assert_eq!(items[0].kind, "article");
    assert_eq!(items[0].title, "Dodgers clinch the West");
    assert_eq!(items[0].source, "Los Angeles Times");
    let b = news_items(&parse_feed(BING), "Space", NOW, 0);
    assert_eq!(b[0].url, "https://www.example.com/space/starship?a=1");
    assert_eq!(b[0].summary.as_deref(), Some("The rocket went up & came down."));
}

#[test]
fn wire_copy_keeps_the_first_of_each_link() {
    let w = |url: &str, beat: &str| WireItem { url: url.into(), beat: beat.into(), ..Default::default() };
    let out = dedupe_by_url(&vec![w("a", "1"), w("b", "1"), w("a", "2"), w("c", "2"), w("b", "3")]);
    let got: Vec<(String, String)> = out.iter().map(|i| (i.url.clone(), i.beat.clone())).collect();
    assert_eq!(got, vec![("a".into(), "1".into()), ("b".into(), "1".into()), ("c".into(), "2".into())]);
}

#[test]
fn interests_pick_their_wire() {
    assert!(matches!(feed_kind("youtube_channel"), FeedKind::YouTube));
    assert!(matches!(feed_kind("topic"), FeedKind::News));
    assert!(matches!(feed_kind("person"), FeedKind::News));
    assert!(matches!(feed_kind("x_account"), FeedKind::Nothing));
}

#[test]
fn channels_are_remembered_by_their_handle() {
    let cache = vec![("@a".to_string(), "UC1".to_string()), ("@b".to_string(), "UC2".to_string())];
    assert_eq!(cached_channel(&cache, " @b ").as_deref(), Some("UC2"));
    assert_eq!(cached_channel(&cache, "@c"), None);
    assert_eq!(channel_feed_url("UC1"), "https://www.youtube.com/feeds/videos.xml?channel_id=UC1");
    assert_eq!(channel_missing_note("JRE", "@x"), "Couldn't find the YouTube channel \"JRE\" (@x). Fix the handle in Edit Interests.");
    assert_eq!(feed_failed_note("JRE", "timed out"), "YouTube feed for \"JRE\" failed: timed out");
}

#[test]
fn news_searches_are_built_from_the_query() {
    assert_eq!(news_query("  ", "Rockets"), "Rockets");
    assert_eq!(news_query(" SpaceX launch ", "Rockets"), "SpaceX launch");
    assert_eq!(
        bing_search_url("a&b c").as_deref(),
        Some("https://www.bing.com/news/search?q=a%26b+c&format=rss&setlang=en-US&cc=US")
    );
    assert_eq!(
        google_search_url("Rockets").as_deref(),
        Some("https://news.google.com/rss/search?q=Rockets+when%3A5d&hl=en-US&gl=US&ceid=US%3Aen")
    );
    assert_eq!(
        news_failed_note("Rockets", &["bing: timed out".to_string(), "google: HTTP 503".to_string()]),
        "News wire for \"Rockets\" failed (bing: timed out; google: HTTP 503)"
    );
}

#[test]
fn share_images_resolve_against_the_page() {
    let html = r#"<meta property="og:image" content="/img/a.jpg">"#;
    assert_eq!(og_image_link("https://n.test/story/1", html).as_deref(), Some("https://n.test/img/a.jpg"));
    assert_eq!(og_image_link("https://n.test/story/1", "<p>none</p>"), None);
}

#[test]
fn outcomes_are_merged_and_the_cache_grows() {
    let w = |url: &str| WireItem { url: url.into(), ..Default::default() };
    let cache = vec![("@a".to_string(), "UC1".to_string())];
    let outcomes = vec![
        FeedOutcome { items: vec![w("https://1"), w("https://2")], note: None, resolved: Some(("@b".into(), "UC2".into())) },
        FeedOutcome { items: vec![], note: Some("failed".into()), resolved: None },
        FeedOutcome { items: vec![w("https://2"), w("https://3")], note: None, resolved: Some(("@a".into(), "UC9".into())) },
    ];
    let (result, saved) = merge_outcomes(&cache, outcomes);
    let urls: Vec<&str> = result.items.iter().map(|i| i.url.as_str()).collect();
    assert_eq!(urls, vec!["https://1", "https://2", "https://3"]);
    assert_eq!(result.notes, vec!["failed"]);
    assert_eq!(saved, Some(vec![("@a".to_string(), "UC9".to_string()), ("@b".to_string(), "UC2".to_string())]));

    let only_old = vec![FeedOutcome { items: vec![], note: None, resolved: Some(("@a".into(), "UC7".into())) }];
    let (_, saved) = merge_outcomes(&cache, only_old);
    assert_eq!(saved, None);
}

#[test]
fn feed_dates_are_read_in_either_form() {
    let a = parse_date(" 2026-09-17T07:05:00-07:00 ").unwrap();
    assert_eq!((a.secs, a.nanos), (1_789_653_900, 0));
    assert_eq!(a.rfc3339, "2026-09-17T14:05:00Z");
    let b = parse_date("Thu, 17 Sep 2026 14:05:00 +0000").unwrap();
    assert_eq!(b.secs, 1_789_653_900);
    assert_eq!(b.rfc3339, "2026-09-17T14:05:00Z");
    assert!(parse_date("yesterday").is_none());
}

fn node(element: bool, name: &str, text: Option<&str>, children: Vec<usize>) -> my_daily_newspaper::xml::XmlNode {
    my_daily_newspaper::xml::XmlNode {
        element,
        name: name.to_string(),
        attrs: vec![],
        text: text.map(|t| t.to_string()),
        children,
    }
}

#[test]
fn entries_are_read_from_parsed_nodes() {
    // 0 root, 1 rss, 2 item, 3 title, 4 link, 5 item without link, 6 title
    let nodes = vec![
        node(false, "", None, vec![1]),
        node(true, "rss", None, vec![2, 5]),
        node(true, "item", None, vec![3, 4]),
        node(true, "title", Some("Launch"), vec![]),
        node(true, "link", Some("https://a.test/x"), vec![]),
        node(true, "item", None, vec![6]),
        node(true, "title", Some("No link"), vec![]),
    ];
    let entries = feed_from_nodes(&nodes);
    assert_eq!(entries.len(), 1);
    assert_eq!(entries[0].title, "Launch");
    assert_eq!(entries[0].link, "https://a.test/x");
}

#[test]
fn a_news_search_that_failed_everywhere_leaves_a_note() {
    let none: Vec<my_daily_newspaper::wire::FeedEntry> = vec![];
    let o = news_outcome("Rockets", &none, &["bing: timed out".to_string(), "google: HTTP 503".to_string()], 0, 0);
    assert!(o.items.is_empty());
    assert_eq!(o.note.as_deref(), Some("News wire for \"Rockets\" failed (bing: timed out; google: HTTP 503)"));
    let quiet = news_outcome("Rockets", &none, &[], 0, 0);
    assert!(quiet.items.is_empty() && quiet.note.is_none());
}
