use my_daily_newspaper::desk::{apply_rewrites, build_rewrite_prompt, rewrite_args_exec, REWRITE_HEAD, REWRITE_TAIL};
use my_daily_newspaper::editor::short_cards;
use my_daily_newspaper::model::Card;

fn card(kind: &str, size: &str, headline: &str, story: Option<&str>) -> Card {
    Card {
        id: "c".into(),
        kind: kind.into(),
        size: size.into(),
        section: "Front Page".into(),
        headline: headline.into(),
        dek: "d".into(),
        story: story.map(|s| s.to_string()),
        source: "S".into(),
        author: None,
        url: "https://a.test".into(),
        video_url: None,
        article_url: None,
        image: None,
        published: None,
        why: None,
    }
}

#[test]
fn bounced_stories_are_listed_as_pretty_json() {
    let cards = vec![
        card("article", "lead", "Long", Some(&"x".repeat(1600))),
        card("post", "brief", "A \"post\"", Some("short")),
        card("article", "brief", "Brief", None),
    ];
    let short = short_cards(&cards);
    assert_eq!(short, vec![1, 2]);
    let p = build_rewrite_prompt(&cards, &short);
    let expected = format!(
        "{REWRITE_HEAD}[\n  {{\n    \"current_characters\": 5,\n    \"current_story\": \"short\",\n    \"headline\": \"A \\\"post\\\"\",\n    \"key\": \"1\",\n    \"minimum_characters\": 240,\n    \"size\": \"post\"\n  }},\n  {{\n    \"current_characters\": 0,\n    \"current_story\": \"\",\n    \"headline\": \"Brief\",\n    \"key\": \"2\",\n    \"minimum_characters\": 520,\n    \"size\": \"brief\"\n  }}\n]{REWRITE_TAIL}"
    );
    assert_eq!(p, expected);
}

#[test]
fn only_longer_rewrites_are_taken() {
    let mut cards = vec![
        card("article", "brief", "A", Some("one two")),
        card("article", "brief", "B", Some("a much longer story than its rewrite")),
        card("article", "brief", "C", Some("c")),
    ];
    let short = vec![0, 1, 2];
    let reply = r#"{"0":"One line\nwrapped.\n\n\nSecond para.","1":"short now","3":"not asked"}"#;
    let envelope = format!("{{\"type\":\"result\",\"result\":{}}}", serde_quote(reply));
    let fixed = apply_rewrites(&mut cards, &short, &envelope);
    assert_eq!(fixed, 1);
    assert_eq!(cards[0].story.as_deref(), Some("One line wrapped.\n\nSecond para."));
    assert_eq!(cards[1].story.as_deref(), Some("a much longer story than its rewrite"));
    assert_eq!(cards[2].story.as_deref(), Some("c"));
    assert_eq!(apply_rewrites(&mut cards, &short, "no json at all"), 0);
}

#[test]
fn a_bare_reply_object_also_works() {
    let mut cards = vec![card("article", "brief", "A", None)];
    let fixed = apply_rewrites(&mut cards, &[0], r#"{"0":"Now there is a story."}"#);
    assert_eq!(fixed, 1);
    assert_eq!(cards[0].story.as_deref(), Some("Now there is a story."));
}

#[test]
fn the_rewrite_resumes_the_session() {
    assert_eq!(rewrite_args_exec("sid", ""), vec!["-p", "--resume", "sid", "--output-format", "json", "--model", "sonnet"]);
    assert_eq!(rewrite_args_exec("sid", "default"), vec!["-p", "--resume", "sid", "--output-format", "json"]);
}

fn serde_quote(s: &str) -> String {
    serde_json::to_string(s).unwrap()
}

#[test]
fn stories_are_quoted_as_json_strings() {
    let cards = vec![card("article", "brief", "Tab\there", Some("Line\nbreak \\ \u{1}"))];
    let p = build_rewrite_prompt(&cards, &[0]);
    assert!(p.contains("\"current_story\": \"Line\\nbreak \\\\ \\u0001\""));
    assert!(p.contains("\"headline\": \"Tab\\there\""));
}
