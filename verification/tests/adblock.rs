use my_daily_newspaper::adblock::{is_ad_host, is_ad_url, is_exempt_page};
use my_daily_newspaper::links::ParsedUrl;

fn parsed(scheme: &str, host: Option<&str>) -> ParsedUrl {
    ParsedUrl {
        scheme: scheme.to_string(),
        host: host.map(|h| h.to_string()),
        path: "/".to_string(),
        segments: Some(vec![String::new()]),
        query: vec![],
        port: None,
        text: format!("{scheme}://{}/", host.unwrap_or("")),
    }
}

#[test]
fn matches_domains_and_subdomains_only() {
    assert!(is_ad_host("doubleclick.net"));
    assert!(is_ad_host("securepubads.g.doubleclick.net"));
    assert!(is_ad_host("TPC.GoogleSyndication.com."));
    assert!(!is_ad_host("notdoubleclick.net"));
    assert!(!is_ad_host("doubleclick.net.evil.example"));
    assert!(!is_ad_host("www.nytimes.com"));
    assert!(!is_ad_host("www.googletagmanager.com"));
    assert!(!is_ad_host("i.ytimg.com"));
}

#[test]
fn urls_and_exemptions() {
    let url = |s: &str| ParsedUrl::parse(s).expect("a URL");
    assert!(is_ad_url(&url("https://googleads.g.doubleclick.net/pagead/ads?x=1")));
    assert!(!is_ad_url(&url("https://www.theverge.com/ads-are-bad")));
    assert!(!is_ad_url(&url("about:blank")));
    assert!(is_exempt_page("www.youtube.com"));
    assert!(is_exempt_page("x.com"));
    assert!(!is_exempt_page("www.espn.com"));
}

#[test]
fn ad_urls_need_a_web_scheme() {
    assert!(!is_ad_url(&parsed("ftp", Some("doubleclick.net"))));
    assert!(is_ad_url(&parsed("http", Some("ADNXS.com"))));
}

#[test]
fn trailing_dots_and_case_do_not_hide_a_host() {
    assert!(is_ad_host("Taboola.com.."));
    assert!(is_exempt_page("WWW.YOUTUBE.COM."));
    assert!(!is_ad_host(""));
}
