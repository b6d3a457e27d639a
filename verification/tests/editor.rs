use my_daily_newspaper::editor::{
    build_prompt, cards_from_json, explain_failure, extract_edition, extract_json, looks_like_rejected_flag,
    min_chars, repair_json, short_cards, tidy_story,
};
use my_daily_newspaper::json::JsonValue;
use my_daily_newspaper::model::{Card, Interest, WireItem};

fn parse(text: &str) -> JsonValue {
    extract_json(text).expect("test JSON")
}

fn member<'a>(v: &'a JsonValue, key: &str) -> &'a JsonValue {
    v.get(key).expect("member")
}

fn item(v: &JsonValue, i: usize) -> &JsonValue {
    &v.as_array().expect("array")[i]
}

fn text(v: &JsonValue) -> String {
    v.as_str().expect("string").clone()
}

#[test]
fn extracts_json_from_messy_replies() {
    assert!(extract_json(r#"{"a":1}"#).is_some());
    assert!(extract_json("Here you go:\n```json\n{\"a\":{\"b\":[1,2]}}\n```\nEnjoy!").is_some());
    assert!(member(&extract_json("log {not json} then {\"ok\":true} trailing }").unwrap(), "ok").as_bool().unwrap());
    assert!(extract_json("no json here").is_none());
    assert!(extract_json("[1,2,3]").is_none());
}

#[test]
fn builds_cards_leniently() {
    let v = parse(
        r#"{"tagline":"All the news that fits","sections":["Video Desk","Front Page","Ghost Section"],
        "cards":[
          {"kind":"article","size":"feature","section":"Front Page","headline":"A","dek":"d","source":"S","url":"https://a.test/1"},
          {"kind":"article","size":"lead","section":"Front Page","headline":"B","dek":"d","url":"https://www.b.test/2","published":"Thu, 17 Sep 2026 14:05:00 GMT"},
          {"kind":"article","size":"lead","section":"Tech","headline":"Second lead","dek":"d","url":"https://c.test/3"},
          {"kind":"article","size":"brief","section":"Video Desk","headline":"Vid","url":"https://youtu.be/abcdefghijk"},
          {"kind":"video","size":"brief","section":"Video Desk","headline":"Not a video","url":"https://d.test/v"},
          {"kind":"article","headline":"dupe","url":"https://a.test/1"},
          {"kind":"article","headline":"bad url","url":"javascript:alert(1)"},
          {"kind":"article","url":"https://e.test/no-headline"},
          "not an object"
        ]}"#,
    );
    let (tagline, sections, cards) = cards_from_json(&v);
    assert_eq!(tagline.as_deref(), Some("All the news that fits"));
    assert_eq!(cards.len(), 5);
    assert_eq!(cards.iter().filter(|c| c.size == "lead").count(), 1);
    assert_eq!(cards[1].size, "lead");
    assert_eq!(cards[1].source, "b.test");
    assert_eq!(cards[1].published.as_deref(), Some("2026-09-17T14:05:00Z"));
    assert_eq!(cards[2].size, "feature");
    assert_eq!(cards[3].kind, "video");
    assert_eq!(cards[4].kind, "article");
    assert_eq!(sections, vec!["Front Page", "Video Desk", "Tech"]);
}

#[test]
fn keeps_story_paragraphs() {
    let v = parse(
        r#"{"cards":[{"headline":"A","size":"lead","url":"https://a.test/1","story":"First para\nwraps here.\n\n\n  Second para.  \r\n\r\nThird."},{"headline":"B","url":"https://a.test/2"}]}"#,
    );
    let (_, _, cards) = cards_from_json(&v);
    assert_eq!(cards[0].story.as_deref(), Some("First para wraps here.\n\nSecond para.\n\nThird."));
    assert_eq!(cards[1].story, None);
}

#[test]
fn second_links_are_validated() {
    let v = parse(
        r#"{"cards":[
          {"headline":"Article about a video","size":"lead","url":"https://a.test/1","video_url":"https://www.youtube.com/watch?v=abcdefghijk","article_url":"https://ignored.test/x"},
          {"headline":"Article, bogus video link","url":"https://a.test/2","video_url":"https://a.test/not-youtube"},
          {"headline":"Video with a recap","url":"https://youtu.be/abcdefghijk","article_url":"https://recap.test/ep","video_url":"https://www.youtube.com/watch?v=zzzzzzzzzzz"},
          {"headline":"Video, bad recap link","url":"https://www.youtube.com/watch?v=bbbbbbbbbbb","article_url":"javascript:alert(1)"}
        ]}"#,
    );
    let (_, _, cards) = cards_from_json(&v);
    assert_eq!(cards[0].video_url.as_deref(), Some("https://www.youtube.com/watch?v=abcdefghijk"));
    assert_eq!(cards[0].article_url, None);
    assert_eq!(cards[1].video_url, None);
    assert_eq!(cards[2].kind, "video");
    assert_eq!(cards[2].article_url.as_deref(), Some("https://recap.test/ep"));
    assert_eq!(cards[2].video_url, None);
    assert_eq!(cards[3].article_url, None);
}

fn mk(kind: &str, size: &str, chars: usize) -> Card {
    Card {
        id: "x".into(),
        kind: kind.into(),
        size: size.into(),
        section: "S".into(),
        headline: "H".into(),
        dek: String::new(),
        story: Some("a".repeat(chars)),
        source: "s".into(),
        author: None,
        url: "https://a.test".into(),
        video_url: None,
        article_url: None,
        image: None,
        published: None,
        why: None,
    }
}

#[test]
fn finds_stories_that_leave_a_hole() {
    let cards = vec![
        mk("article", "lead", 1600),   // fine
        mk("article", "brief", 200),   // short
        mk("article", "brief", 480),   // within the 10% grace
        mk("post", "brief", 100),      // short
        mk("article", "feature", 700), // short
    ];
    assert_eq!(short_cards(&cards), vec![1, 3, 4]);
}

#[test]
fn promotes_a_lead_when_none_given() {
    let v = parse(
        r#"{"cards":[{"headline":"A","url":"https://a.test/1","section":"Tech"},{"headline":"B","size":"feature","url":"https://a.test/2","section":"Tech"}]}"#,
    );
    let (_, sections, cards) = cards_from_json(&v);
    assert_eq!(cards[1].size, "lead");
    assert_eq!(cards[1].section, "Front Page");
    assert_eq!(sections[0], "Front Page");
}

#[test]
fn mends_straight_quotes_inside_stories() {
    let broken = r#"{"tagline":"t","sections":["Front Page"],"cards":[{"kind":"video","size":"lead","section":"Front Page","headline":"Drake's "FOMO" lands","dek":"d","story":"It premiered as a "not so short film" running an hour, he said "no", then left.
Second line.","source":"S","url":"https://example.com/a"}]}"#;
    assert!(serde_json::from_str::<serde_json::Value>(broken).is_err());
    let v = extract_edition(broken).expect("mended");
    let card = item(member(&v, "cards"), 0);
    let story = text(member(card, "story"));
    assert!(story.contains("\"not so short film\""));
    assert!(story.contains("said \"no\", then left."));
    assert_eq!(text(member(card, "headline")), "Drake's \"FOMO\" lands");
    assert_eq!(text(member(card, "url")), "https://example.com/a");
}

#[test]
fn repair_leaves_good_json_alone() {
    let good = r#"{"a":"x \"quoted\" y","b":["1","2"],"c":{"d":"e"}}"#;
    assert_eq!(repair_json(good), good);
}

#[test]
fn salvages_the_cards_that_parse() {
    // second card has a stray bare word: unfixable, so it is dropped alone
    let t = r#"{"tagline":"hello","sections":["Front Page"],"cards":[{"headline":"one","url":"https://example.com/1"},{"headline":"two" oops,"url":"https://example.com/2"},{"headline":"three","url":"https://example.com/3"}]}"#;
    let v = extract_edition(t).expect("salvaged");
    let cards = member(&v, "cards").as_array().unwrap();
    assert_eq!(cards.len(), 2);
    assert_eq!(text(member(&cards[1], "headline")), "three");
    assert_eq!(text(member(&v, "tagline")), "hello");
}

#[test]
fn spots_a_cli_that_rejected_a_flag() {
    assert!(looks_like_rejected_flag("The editor exited (code 1) without an edition. - error: unknown option '--include-partial-messages'"));
    assert!(looks_like_rejected_flag("error: unexpected argument '--strict-mcp-config' found"));
    assert!(!looks_like_rejected_flag("The editor CLI isn't signed in."));
    assert!(!looks_like_rejected_flag("The editor ran past the 600-second limit."));
}

#[test]
fn minimums_follow_kind_then_size() {
    assert_eq!(min_chars(&mk("post", "lead", 0)), 240);
    assert_eq!(min_chars(&mk("article", "lead", 0)), 1500);
    assert_eq!(min_chars(&mk("video", "feature", 0)), 900);
    assert_eq!(min_chars(&mk("article", "whatever", 0)), 520);
}

#[test]
fn failures_are_explained_in_plain_words() {
    assert_eq!(
        explain_failure("Error: Not logged in", ""),
        "The editor CLI isn't signed in. Open PowerShell, run the editor CLI, then `/login`, and hit Refresh again."
    );
    assert_eq!(
        explain_failure("  Rate limit hit  ", ""),
        "The editor says you've hit a usage limit: Rate limit hit"
    );
    assert_eq!(explain_failure(" boom ", " tail "), "boom - tail");
    assert_eq!(explain_failure("boom", "   "), "boom");
}

#[test]
fn tidies_line_endings_and_blank_runs() {
    assert_eq!(tidy_story("a\r\nb\n\n\n\nc  d"), "a b\n\nc d");
    assert_eq!(tidy_story("   \n\n  "), "");
}

#[test]
fn repair_escapes_stray_quotes_and_breaks() {
    assert_eq!(repair_json("{\"a\":\"say \"hi\" now\"}"), "{\"a\":\"say \\\"hi\\\" now\"}");
    assert_eq!(repair_json("{\"a\":\"x\ny\"}"), "{\"a\":\"x\\ny\"}");
    assert_eq!(repair_json("{\"a\":\"x\ty\r\"}"), "{\"a\":\"x y\"}");
}

#[test]
fn editions_without_cards_are_not_editions() {
    assert!(extract_edition(r#"{"tagline":"x"}"#).is_none());
    let v = extract_edition(r#"noise {"cards":[]} more"#).expect("edition");
    assert!(member(&v, "cards").as_array().unwrap().is_empty());
}

fn interest(id: &str, name: &str, kind: &str, value: &str, notes: &str, enabled: bool) -> Interest {
    Interest {
        id: id.into(),
        name: name.into(),
        kind: kind.into(),
        value: value.into(),
        notes: notes.into(),
        enabled,
    }
}

fn wire_item(kind: &str, title: &str, url: &str, source: &str, beat: &str) -> WireItem {
    WireItem {
        kind: kind.into(),
        title: title.into(),
        url: url.into(),
        source: source.into(),
        author: None,
        published: None,
        summary: None,
        image: None,
        beat: beat.into(),
    }
}

#[test]
fn prompt_mentions_beats_and_wire() {
    let interests = vec![
        interest("a", "Rockets", "topic", "", "big ones", true),
        interest("b", "Hidden", "topic", "", "", false),
    ];
    let wire = vec![wire_item("video", "Launch", "https://www.youtube.com/watch?v=abcdefghijk", "YouTube", "Rockets")];
    let p = build_prompt(&interests, &wire, &[], Some("Grok CLI not installed"), "Friday, September 18, 2026", 30, "Priya\u{2019}s Daily");
    assert!(p.contains("editor-in-chief of \"Priya\u{2019}s Daily\""));
    assert!(!p.contains("Richard"));
    assert!(p.contains("brief    520-800 characters"));
    assert!(p.contains("1. Rockets [topic] - big ones"));
    assert!(!p.contains("Hidden"));
    assert!(p.contains("watch?v=abcdefghijk"));
    assert!(p.contains("Grok CLI not installed"));
    assert!(p.contains("15 to 30"));
}

#[test]
fn prompt_lists_beats_and_wire_as_json() {
    let interests = vec![
        interest("a", "Off", "topic", "", "", false),
        interest("b", "Ana", "youtube_channel", " @ana ", "  ", true),
        interest("c", "Bo", "person", "query", "", true),
    ];
    let mut article = wire_item("article", "Say \"hi\"", "https://n.test/1", "N", "Bo");
    article.author = Some("Al".into());
    let wire = vec![wire_item("video", "V", "https://y.test/v", "Y", "Ana"), article];
    let posts = vec![wire_item("post", "P", "https://x.com/a/status/1", "X", "Bo")];
    let p = build_prompt(&interests, &wire, &posts, None, "Today", 10, "Paper");
    assert!(p.contains("THE READER'S BEATS (priority order; disabled beats are already removed):\n1. Ana [youtube_channel: @ana]\n2. Bo [person]\n\nWIRE COPY"));
    assert!(p.contains("VIDEOS (YouTube channel feeds):\n[{\"kind\":\"video\",\"title\":\"V\",\"url\":\"https://y.test/v\",\"source\":\"Y\",\"beat\":\"Ana\"}]\n\nNEWS"));
    assert!(p.contains("may contain junk):\n[{\"kind\":\"article\",\"title\":\"Say \\\"hi\\\"\",\"url\":\"https://n.test/1\",\"source\":\"N\",\"author\":\"Al\",\"beat\":\"Bo\"}]\n\nX POSTS"));
    assert!(p.contains("X search):\n[{\"kind\":\"post\",\"title\":\"P\",\"url\":\"https://x.com/a/status/1\",\"source\":\"X\",\"beat\":\"Bo\"}]\n\nYOUR JOB"));
    assert!(p.contains("Select the best 8 to 10 items"));
    assert!(p.starts_with("You are the editor-in-chief of \"Paper\", a personal newspaper with exactly one reader. Today is Today.\n"));
}

#[test]
fn prompt_says_why_the_x_wire_is_empty() {
    let p = build_prompt(&[], &[], &[], None, "Today", 40, "Paper");
    assert!(p.contains("X search):\n(none - the X wire was unavailable this run) If your own searching"));
    assert!(p.contains("VIDEOS (YouTube channel feeds):\n[]\n\nNEWS"));
    assert!(p.contains("Select the best 20 to 40 items"));
}

#[test]
fn lines_of_white_space_are_blank_lines() {
    assert_eq!(tidy_story("One.\n \nTwo."), "One.\n\nTwo.");
    assert_eq!(tidy_story("One\r\n\t\r\n\r\n two\nthree  \n\n"), "One\n\ntwo three");
    assert_eq!(tidy_story(" \n\n "), "");
}

#[test]
fn tidying_keeps_the_words_in_order() {
    let text = "  Lead\u{a0}in,\r\nstill lead.\n \t\nSecond\tpart\n\n\nthird ";
    let tidy = tidy_story(text);
    assert_eq!(tidy, "Lead in, still lead.\n\nSecond part\n\nthird");
    let before: Vec<&str> = text.split_whitespace().collect();
    let after: Vec<&str> = tidy.split_whitespace().collect();
    assert_eq!(before, after);
}

#[test]
fn tidying_twice_is_tidying_once() {
    for text in ["  a\n\n\n b  c\r\n\r\nd\t", "", " \n ", "One.\n \nTwo.\nthree"] {
        let once = tidy_story(text);
        assert_eq!(tidy_story(&once), once);
    }
}
