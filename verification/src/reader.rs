//! The reader: a floating window that loads an article, video or post
//! directly. The library decides which link it opens, what the window is
//! called, which navigations go through (ad blocking, nothing into the app's
//! own schemes) and what the on-page buttons do; opening and steering the
//! window is the caller's.

use vstd::prelude::*;

use crate::adblock::{host_in, is_ad_url, is_exempt_page, spec_is_ad_url, texts, EXEMPT_PAGES};
use crate::links::{parse_url, spec_parse_url, spec_with_https, with_https, ParsedUrl, UrlParts};
use crate::model::Settings;
use crate::store::{opt_str_view, owner_name, paper_name, spec_owner_name, spec_paper_name};
use crate::text::{
    chars_of, decimal, decimal_u64, owned, str_concat, str_eq, str_trim, string_of, trim,
    trim_end_char, trim_end_char_vec, trim_start_char, trim_start_char_vec,
};

verus! {

/// The host of the links the on-page buttons navigate to; never loaded.
pub const SENTINEL_HOST: &'static str = "reader.my-daily.invalid";

pub const NOT_A_URL: &'static str = "That link isn't a valid URL.";

pub const NOT_WEB: &'static str = "Only http and https links can be opened.";

pub open spec fn is_loopback(host: Option<Seq<char>>) -> bool {
    host == Some("localhost"@) || host == Some("127.0.0.1"@) || host == Some("[::1]"@)
}

/// The link a reader opens: the trimmed link when it is a web link, over
/// https when it is plain http without a port and not to this machine (as a
/// browser does; macOS refuses plain-http page loads inside apps). An error
/// for anything else.
pub open spec fn spec_reader_target(url: Seq<char>) -> Result<Seq<char>, Seq<char>> {
    match spec_parse_url(trim(url)) {
        None => Err(NOT_A_URL@),
        Some(p) => if p.scheme != "http"@ && p.scheme != "https"@ {
            Err(NOT_WEB@)
        } else if p.scheme == "http"@ && p.port is None && !is_loopback(p.host) {
            match spec_with_https(p.text) {
                Some(t) => Ok(t),
                None => Ok(p.text),
            }
        } else {
            Ok(p.text)
        },
    }
}

pub open spec fn result_view(r: Result<String, String>) -> Result<Seq<char>, Seq<char>> {
    match r {
        Ok(s) => Ok(s@),
        Err(e) => Err(e@),
    }
}

pub fn reader_target(url: &str) -> (r: Result<String, String>)
    ensures
        result_view(r) == spec_reader_target(url@),
{
    let t = str_trim(url);
    let p = match parse_url(t.as_str()) {
        Some(p) => p,
        None => return Err(owned(NOT_A_URL)),
    };
    let http = str_eq(p.scheme.as_str(), "http");
    if !http && !str_eq(p.scheme.as_str(), "https") {
        return Err(owned(NOT_WEB));
    }
    let loopback = match &p.host {
        Some(h) => str_eq(h.as_str(), "localhost") || str_eq(h.as_str(), "127.0.0.1") || str_eq(h.as_str(), "[::1]"),
        None => false,
    };
    if http && p.port.is_none() && !loopback {
        match with_https(p.text.as_str()) {
            Some(s) => return Ok(s),
            None => {},
        }
    }
    Ok(p.text)
}

/// The window's title: the story's title when it has one, else the paper's
/// name.
pub open spec fn spec_reader_title(title: Option<Seq<char>>, settings_owner: Seq<char>, built_for: Option<Seq<char>>) -> Seq<char> {
    match title {
        Some(t) if trim(t).len() > 0 => trim(t),
        _ => spec_paper_name(spec_owner_name(settings_owner, built_for)),
    }
}

pub fn reader_title(title: Option<&str>, settings: &Settings, built_for: Option<&str>) -> (r: String)
    ensures
        r@ == spec_reader_title(opt_str_view(title), settings.owner_name@, opt_str_view(built_for)),
{
    match title {
        Some(t) => {
            let tt = str_trim(t);
            if !tt.as_str().is_empty() {
                return tt;
            }
        },
        None => {},
    }
    let owner = owner_name(settings, built_for);
    paper_name(owner.as_str())
}

/// The window's label: "reader-<n>".
pub fn reader_label(n: u32) -> (r: String)
    ensures
        r@ == "reader-"@ + decimal(n as nat),
{
    str_concat("reader-", decimal_u64(n as u64).as_str())
}

// ------------------------------------------------------------- navigation

/// What a reader window keeps between navigations.
pub struct ReaderState {
    /// The blocker is on in this window (its button flips it).
    pub blocking: bool,
    /// The blocker setting the window opened with.
    pub block_ads: bool,
    /// The host of the page the window is on.
    pub page_host: String,
}

/// What the on-page buttons ask for.
pub enum ReaderAction {
    Close,
    Fullscreen,
    Nothing,
}

pub struct Verdict {
    /// Let the navigation happen.
    pub allow: bool,
    /// What to do once the navigation is turned down.
    pub action: ReaderAction,
}

/// A window opens on a page with the blocker as the settings have it.
pub fn open_state(block_ads: bool, page: &ParsedUrl) -> (r: ReaderState)
    ensures
        r.blocking == block_ads,
        r.block_ads == block_ads,
        r.page_host@ == match page@.host {
            Some(h) => h,
            None => Seq::empty(),
        },
{
    let page_host = match &page.host {
        Some(h) => owned(h.as_str()),
        None => String::new(),
    };
    ReaderState { blocking: block_ads, block_ads, page_host }
}

/// A page finished loading: the window is now on its host.
pub fn page_loaded(state: &mut ReaderState, page: &ParsedUrl)
    ensures
        final(state).blocking == old(state).blocking,
        final(state).block_ads == old(state).block_ads,
        final(state).page_host@ == match page@.host {
            Some(h) => h,
            None => Seq::empty(),
        },
{
    state.page_host = match &page.host {
        Some(h) => owned(h.as_str()),
        None => String::new(),
    };
}

/// The button's name in a sentinel link: its path without slashes around it.
pub open spec fn button_of(path: Seq<char>) -> Seq<char> {
    trim_end_char(trim_start_char(path, '/'), '/')
}

/// The app's own schemes and the local disk are off limits to a web page.
pub open spec fn forbidden_scheme(scheme: Seq<char>) -> bool {
    scheme == "tauri"@ || scheme == "asset"@ || scheme == "ipc"@ || scheme == "file"@
}

/// A navigation: refused into the app's own schemes; an ordinary link goes
/// through unless the blocker is on, it leads to ad-tech, and the page is
/// not exempt; a sentinel link is a button press: the ad buttons switch this
/// window's blocker (on only as far as the setting allows), and the close
/// and full-screen buttons are acted on; it is never loaded.
pub open spec fn spec_navigate(blocking: bool, block_ads: bool, page_host: Seq<char>, u: ParsedUrl) -> (
    bool,
    bool,
    ReaderAction,
) {
    if forbidden_scheme(u.scheme@) {
        (blocking, false, ReaderAction::Nothing)
    } else if u@.host != Some(SENTINEL_HOST@) {
        let blocked = blocking && spec_is_ad_url(u) && !host_in(page_host, texts(EXEMPT_PAGES@));
        (blocking, !blocked, ReaderAction::Nothing)
    } else {
        let b = button_of(u.path@);
        let now_blocking = if b == "ads-off"@ {
            false
        } else if b == "ads-on"@ {
            block_ads
        } else {
            blocking
        };
        let action = if b == "close"@ {
            ReaderAction::Close
        } else if b == "fullscreen"@ {
            ReaderAction::Fullscreen
        } else {
            ReaderAction::Nothing
        };
        (now_blocking, false, action)
    }
}

pub fn navigate(state: &mut ReaderState, u: &ParsedUrl) -> (v: Verdict)
    ensures
        final(state).block_ads == old(state).block_ads,
        final(state).page_host == old(state).page_host,
        (final(state).blocking, v.allow, v.action) == spec_navigate(
            old(state).blocking,
            old(state).block_ads,
            old(state).page_host@,
            *u,
        ),
{
    let s = u.scheme.as_str();
    if str_eq(s, "tauri") || str_eq(s, "asset") || str_eq(s, "ipc") || str_eq(s, "file") {
        return Verdict { allow: false, action: ReaderAction::Nothing };
    }
    let sentinel = match &u.host {
        Some(h) => str_eq(h.as_str(), SENTINEL_HOST),
        None => false,
    };
    if !sentinel {
        let blocked = state.blocking && is_ad_url(u) && !is_exempt_page(state.page_host.as_str());
        return Verdict { allow: !blocked, action: ReaderAction::Nothing };
    }
    let p = chars_of(u.path.as_str());
    let a = trim_start_char_vec(p.as_slice(), '/');
    let b = trim_end_char_vec(a.as_slice(), '/');
    let button = string_of(b.as_slice());
    if str_eq(button.as_str(), "ads-off") {
        state.blocking = false;
    } else if str_eq(button.as_str(), "ads-on") {
        state.blocking = state.block_ads;
    }
    let action = if str_eq(button.as_str(), "close") {
        ReaderAction::Close
    } else if str_eq(button.as_str(), "fullscreen") {
        ReaderAction::Fullscreen
    } else {
        ReaderAction::Nothing
    };
    Verdict { allow: false, action }
}

/// Full screen on or off. A floating window cannot go full screen cleanly:
/// it stops floating on the way in, and floats again as the settings say on
/// the way out.
pub struct FullscreenPlan {
    /// Set "always on top" to this before the switch.
    pub on_top_before: Option<bool>,
    pub fullscreen: bool,
    /// Set "always on top" to this after the switch.
    pub on_top_after: Option<bool>,
}

pub fn fullscreen_plan(is_fullscreen: bool, keep_on_top: bool) -> (r: FullscreenPlan)
    ensures
        r.fullscreen == !is_fullscreen,
        r.on_top_before == if is_fullscreen { None } else { Some(false) },
        r.on_top_after == if is_fullscreen { Some(keep_on_top) } else { None },
{
    if is_fullscreen {
        FullscreenPlan { on_top_before: None, fullscreen: false, on_top_after: Some(keep_on_top) }
    } else {
        FullscreenPlan { on_top_before: Some(false), fullscreen: true, on_top_after: None }
    }
}

} // verus!
