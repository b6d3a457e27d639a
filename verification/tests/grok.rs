use my_daily_newspaper::grok::{
    build_prompt as grok_prompt, grok_args_exec, grok_timeout_note, is_post_url, outcome_of, parse_posts,
    rejected_a_flag,
};
use my_daily_newspaper::model::Interest;

#[test]
fn parses_envelope_with_fenced_reply() {
    let stdout = r#"some log line
{"text":"```json\n{\"posts\":[{\"author\":\"Elon Musk\",\"handle\":\"elonmusk\",\"text\":\"Starship flight 12 is go\",\"url\":\"https://x.com/elonmusk/status/1234567890\",\"posted_at\":\"2h ago\",\"beat\":\"Elon Musk\",\"why\":\"Launch day\"},{\"author\":\"Bad\",\"text\":\"x\",\"url\":\"https://x.com/home\"}]}\n```","stopReason":"end_turn","sessionId":"s","requestId":"r"}"#;
    let posts = parse_posts(stdout);
    assert_eq!(posts.len(), 1);
    assert_eq!(posts[0].author.as_deref(), Some("Elon Musk (@elonmusk)"));
    assert_eq!(posts[0].url, "https://x.com/elonmusk/status/1234567890");
    assert_eq!(posts[0].kind, "post");
}

#[test]
fn post_url_validation() {
    assert!(is_post_url("https://x.com/a/status/123"));
    assert!(is_post_url("https://twitter.com/a/status/123?s=20"));
    assert!(!is_post_url("https://x.com/a"));
    assert!(!is_post_url("https://x.com/a/status/abc"));
    assert!(!is_post_url("https://evil.com/a/status/123"));
    assert!(!is_post_url("http://x.com/a/status/123"));
}

#[test]
fn garbage_is_empty_not_a_panic() {
    assert!(parse_posts("").is_empty());
    assert!(parse_posts("error: not logged in").is_empty());
    assert!(parse_posts(r#"{"text":"sorry, no posts"}"#).is_empty());
}

#[test]
fn twitter_links_become_x_links() {
    let posts = parse_posts(r#"{"posts":[{"handle":"@@a","text":"  hi  ","url":" https://twitter.com/a/status/9 "},{"handle":"b","text":"yo","url":"https://mobile.twitter.com/b/status/8"}]}"#);
    assert_eq!(posts.len(), 2);
    assert_eq!(posts[0].url, "https://x.com/a/status/9");
    assert_eq!(posts[1].url, "https://mobile.twitter.com/b/status/8");
    assert_eq!(posts[0].author.as_deref(), Some("@a"));
    assert_eq!(posts[0].title, "hi");
    assert_eq!(posts[0].source, "X");
}

fn interest(name: &str, kind: &str, value: &str, notes: &str, enabled: bool) -> Interest {
    Interest { id: name.into(), name: name.into(), kind: kind.into(), value: value.into(), notes: notes.into(), enabled }
}

#[test]
fn correspondent_prompt_lists_beats_and_accounts() {
    let interests = vec![
        interest("Rockets", "topic", "", " big ones ", true),
        interest("Off", "topic", "", "", false),
        interest("Elon", "x_account", " @@elonmusk ", "", true),
        interest("Nobody", "x_account", "@", "", true),
    ];
    let p = grok_prompt(&interests, "Friday");
    assert!(p.starts_with("Today is Friday. You are the X (Twitter) correspondent"));
    assert!(p.contains("in priority order:\n- Rockets: big ones\n- Elon\n- Nobody\n\nCheck these accounts first: @elonmusk\n\nWhat makes a good pick"));
    assert!(!p.contains("Off"));
    let q = grok_prompt(&interests[..2], "Friday");
    assert!(q.contains("in priority order:\n- Rockets: big ones\n\nWhat makes a good pick"));
}

#[test]
fn basic_flags_for_old_clis() {
    let full = grok_args_exec("ask", false);
    assert_eq!(full[..5], ["-p", "ask", "--output-format", "json", "--always-approve"]);
    assert_eq!(full.len(), 13);
    assert!(full[8].starts_with("run_terminal_cmd,run_terminal_command,"));
    assert!(full[8].ends_with(",scheduler_list"));
    assert_eq!(grok_args_exec("ask", true).len(), 5);
    assert!(rejected_a_flag(b"error: Unexpected argument '--sandbox'"));
    assert!(!rejected_a_flag(b"boom"));
}

#[test]
fn no_posts_leave_a_note() {
    let o = outcome_of(b"", b"Please LOGIN first", false);
    assert!(o.posts.is_empty());
    assert_eq!(o.note.as_deref(), Some("X wire: Grok isn't signed in. Run `grok login` in PowerShell once."));
    let o = outcome_of(b"", b"one\r\ntwo\nthree\nfour\n", false);
    assert_eq!(o.note.as_deref(), Some("X wire: Grok exited with an error: two | three | four"));
    let o = outcome_of(b"{\"text\":\"nothing today\"}", b"", true);
    assert_eq!(o.note.as_deref(), Some("X wire: Grok answered but returned no usable posts."));
    let o = outcome_of(br#"{"posts":[{"text":"hi","url":"https://x.com/a/status/1"}]}"#, b"", true);
    assert_eq!(o.posts.len(), 1);
    assert!(o.note.is_none());
    assert_eq!(grok_timeout_note(240), "X wire: Grok took longer than 240s, skipped it this edition.");
}
