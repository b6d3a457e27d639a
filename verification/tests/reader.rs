use my_daily_newspaper::adblock::script_config;
use my_daily_newspaper::links::ParsedUrl;
use my_daily_newspaper::model::Settings;
use my_daily_newspaper::reader::{
    fullscreen_plan, navigate, open_state, page_loaded, reader_label, reader_target, reader_title, ReaderAction,
};

fn link(scheme: &str, host: Option<&str>, path: &str) -> ParsedUrl {
    ParsedUrl {
        scheme: scheme.to_string(),
        host: host.map(|h| h.to_string()),
        path: path.to_string(),
        segments: None,
        query: vec![],
        port: None,
        text: format!("{scheme}://{}{path}", host.unwrap_or("")),
    }
}

#[test]
fn config_is_valid_javascript_data() {
    let cfg = script_config(true);
    assert!(cfg.starts_with("window.__rdAdblock = { on: true, hosts: [\"doubleclick.net\""));
    assert!(cfg.trim_end().ends_with("};"));
    assert!(cfg.contains(", exempt: [\"youtube.com\",\"youtu.be\",\"youtube-nocookie.com\",\"x.com\",\"twitter.com\"] };\n"));
    assert!(script_config(false).starts_with("window.__rdAdblock = { on: false, hosts: ["));
}

#[test]
fn links_are_opened_over_https_where_they_can_be() {
    assert_eq!(reader_target("  http://example.com/a?b=1 "), Ok("https://example.com/a?b=1".to_string()));
    assert_eq!(reader_target("https://example.com/"), Ok("https://example.com/".to_string()));
    assert_eq!(reader_target("http://localhost/x"), Ok("http://localhost/x".to_string()));
    assert_eq!(reader_target("http://example.com:8080/"), Ok("http://example.com:8080/".to_string()));
    assert_eq!(reader_target("ftp://example.com/"), Err("Only http and https links can be opened.".to_string()));
    assert_eq!(reader_target("not a link"), Err("That link isn't a valid URL.".to_string()));
}

#[test]
fn window_title_and_label() {
    let s = Settings::default();
    assert_eq!(reader_title(Some("  A story "), &s, None), "A story");
    assert_eq!(reader_title(Some("   "), &s, Some("Sam")), "Sam\u{2019}s Daily");
    assert_eq!(reader_title(None, &s, None), "My Daily");
    assert_eq!(reader_label(7), "reader-7");
}

#[test]
fn navigations_are_screened() {
    let mut st = open_state(true, &link("https", Some("www.example.com"), "/"));
    let v = navigate(&mut st, &link("file", None, "/etc/passwd"));
    assert!(!v.allow);
    let v = navigate(&mut st, &link("https", Some("securepubads.g.doubleclick.net"), "/ad"));
    assert!(!v.allow);
    let v = navigate(&mut st, &link("https", Some("www.example.com"), "/next"));
    assert!(v.allow);

    // On YouTube the blocker stands aside.
    page_loaded(&mut st, &link("https", Some("www.youtube.com"), "/watch"));
    assert!(navigate(&mut st, &link("https", Some("doubleclick.net"), "/")).allow);

    // The page's buttons.
    page_loaded(&mut st, &link("https", Some("www.example.com"), "/"));
    let v = navigate(&mut st, &link("https", Some("reader.my-daily.invalid"), "/ads-off/"));
    assert!(!v.allow);
    assert!(matches!(v.action, ReaderAction::Nothing));
    assert!(!st.blocking);
    assert!(navigate(&mut st, &link("https", Some("doubleclick.net"), "/")).allow);
    navigate(&mut st, &link("https", Some("reader.my-daily.invalid"), "/ads-on"));
    assert!(st.blocking);
    assert!(matches!(navigate(&mut st, &link("https", Some("reader.my-daily.invalid"), "/close")).action, ReaderAction::Close));
    assert!(matches!(navigate(&mut st, &link("https", Some("reader.my-daily.invalid"), "fullscreen")).action, ReaderAction::Fullscreen));

    // With ads allowed in the settings, "on" cannot switch the blocker on.
    let mut off = open_state(false, &link("https", Some("www.example.com"), "/"));
    navigate(&mut off, &link("https", Some("reader.my-daily.invalid"), "/ads-on"));
    assert!(!off.blocking);
}

#[test]
fn full_screen_drops_the_float() {
    let p = fullscreen_plan(false, true);
    assert_eq!((p.on_top_before, p.fullscreen, p.on_top_after), (Some(false), true, None));
    let p = fullscreen_plan(true, true);
    assert_eq!((p.on_top_before, p.fullscreen, p.on_top_after), (None, false, Some(true)));
}
