//! Ad blocking for the reader windows: which hosts are ad-tech, and which
//! pages switch the blocker off.
//!
//! The list is deliberately short and boring: big ad-tech domains only. No
//! analytics, no tag managers, no CDNs - blocking those breaks sites.
//! YouTube and X are left completely alone: their ads are first-party, and
//! YouTube stops playing video when it thinks it is being blocked.

use vstd::prelude::*;

use crate::json::{json_quote, spec_json_quote};
use crate::links::ParsedUrl;
use crate::text::{
    chars_of, concat_vec, ends_with, ends_with_exec, join, lower, lower_vec, owned, seq_eq, str_eq,
    trim_end_char, trim_end_char_vec,
};

verus! {

pub const AD_HOSTS: [&'static str; 64] = [
    // Google ad stack
    "doubleclick.net",
    "googlesyndication.com",
    "googleadservices.com",
    "googletagservices.com",
    "adservice.google.com",
    "2mdn.net",
    // Amazon
    "amazon-adsystem.com",
    // exchanges, SSPs, DSPs
    "adnxs.com",
    "adsrvr.org",
    "rubiconproject.com",
    "pubmatic.com",
    "openx.net",
    "criteo.com",
    "criteo.net",
    "casalemedia.com",
    "indexww.com",
    "3lift.com",
    "triplelift.com",
    "sharethrough.com",
    "smartadserver.com",
    "teads.tv",
    "yieldmo.com",
    "media.net",
    "bidswitch.net",
    "adform.net",
    "advertising.com",
    "serving-sys.com",
    "mathtag.com",
    "gumgum.com",
    "sonobi.com",
    "lijit.com",
    "sovrn.com",
    "contextweb.com",
    "spotxchange.com",
    "spotx.tv",
    "springserve.com",
    "tremorhub.com",
    "adroll.com",
    "nativo.com",
    "adsymptotic.com",
    // "around the web" boxes
    "taboola.com",
    "outbrain.com",
    "zergnet.com",
    "revcontent.com",
    "mgid.com",
    // autoplay video ad units
    "connatix.com",
    "primis.tech",
    "vidazoo.com",
    "aniview.com",
    // ad management wrappers
    "adthrive.com",
    "mediavine.com",
    "pub.network",
    "htlbid.com",
    // ad verification / audience trackers that ride along with the ads
    "moatads.com",
    "adsafeprotected.com",
    "doubleverify.com",
    "scorecardresearch.com",
    "quantserve.com",
    "bluekai.com",
    "krxd.net",
    "rlcdn.com",
    "agkn.com",
    "liadm.com",
    "id5-sync.com",
];

/// Pages where the blocker switches itself off entirely.
pub const EXEMPT_PAGES: [&'static str; 5] = ["youtube.com", "youtu.be", "youtube-nocookie.com", "x.com", "twitter.com"];

/// The texts of a list of string slices.
pub open spec fn texts(list: Seq<&str>) -> Seq<Seq<char>> {
    list.map_values(|d: &str| d@)
}

/// A host, as compared: trailing dots dropped, ASCII letters in lower case.
pub open spec fn normal_host(host: Seq<char>) -> Seq<char> {
    lower(trim_end_char(host, '.'))
}

/// `host` is the domain `d` itself or one of its subdomains.
pub open spec fn under_domain(host: Seq<char>, d: Seq<char>) -> bool {
    host == d || ends_with(host, seq!['.'] + d)
}

/// `host` (normalised) is one of `domains` or a subdomain of one.
pub open spec fn host_in(host: Seq<char>, domains: Seq<Seq<char>>) -> bool {
    exists|i: int| 0 <= i < domains.len() && under_domain(normal_host(host), #[trigger] domains[i])
}

fn under_domain_exec(h: &[char], d: &str) -> (r: bool)
    ensures
        r == under_domain(h@, d@),
{
    let dv = chars_of(d);
    if seq_eq(h, dv.as_slice()) {
        return true;
    }
    let dot: [char; 1] = ['.'];
    let suffix = concat_vec(dot.as_slice(), dv.as_slice());
    assert(dot@ =~= seq!['.']);
    ends_with_exec(h, suffix.as_slice())
}

fn matches_list(host: &str, list: &[&str]) -> (r: bool)
    ensures
        r == host_in(host@, texts(list@)),
{
    let hv = chars_of(host);
    let trimmed = trim_end_char_vec(hv.as_slice(), '.');
    let h = lower_vec(trimmed.as_slice());
    let mut i: usize = 0;
    while i < list.len()
        invariant
            i <= list@.len(),
            h@ == normal_host(host@),
            forall|k: int| 0 <= k < i ==> !under_domain(h@, #[trigger] texts(list@)[k]),
        decreases list@.len() - i,
    {
        if under_domain_exec(h.as_slice(), list[i]) {
            assert(under_domain(normal_host(host@), texts(list@)[i as int]));
            return true;
        }
        i = i + 1;
    }
    false
}

/// Is this host one of the ad-tech domains, or a subdomain of one?
pub fn is_ad_host(host: &str) -> (r: bool)
    ensures
        r == host_in(host@, texts(AD_HOSTS@)),
{
    matches_list(host, AD_HOSTS.as_slice())
}

/// A web link (http or https) whose host is ad-tech.
pub open spec fn spec_is_ad_url(u: ParsedUrl) -> bool {
    (u.scheme@ == "http"@ || u.scheme@ == "https"@) && match u.host {
        Some(h) => host_in(h@, texts(AD_HOSTS@)),
        None => false,
    }
}

/// Should a navigation to this link be cancelled by the blocker?
pub fn is_ad_url(u: &ParsedUrl) -> (r: bool)
    ensures
        r == spec_is_ad_url(*u),
{
    let web = str_eq(&u.scheme, "http") || str_eq(&u.scheme, "https");
    if !web {
        return false;
    }
    match &u.host {
        Some(h) => is_ad_host(h),
        None => false,
    }
}

/// Is this page one where the blocker stays off (YouTube, X)?
pub fn is_exempt_page(host: &str) -> (r: bool)
    ensures
        r == host_in(host@, texts(EXEMPT_PAGES@)),
{
    matches_list(host, EXEMPT_PAGES.as_slice())
}


/// A list of names as a JSON array of strings.
pub open spec fn quoted_list(list: Seq<&str>) -> Seq<char> {
    "["@ + join(list.map_values(|d: &str| spec_json_quote(d@)), ","@) + "]"@
}

fn quoted_list_exec(list: &[&str]) -> (r: String)
    ensures
        r@ == quoted_list(list@),
{
    let ghost parts = list@.map_values(|d: &str| spec_json_quote(d@));
    let mut body = String::new();
    let mut k: usize = 0;
    assert(parts.take(0) =~= Seq::<Seq<char>>::empty());
    while k < list.len()
        invariant
            k <= list@.len(),
            parts == list@.map_values(|d: &str| spec_json_quote(d@)),
            body@ == join(parts.take(k as int), ","@),
        decreases list@.len() - k,
    {
        assert(parts.take(k + 1).drop_last() =~= parts.take(k as int));
        let q = json_quote(list[k]);
        assert(parts.take(k + 1).last() == q@);
        if k > 0 {
            body.append(",");
        }
        body.append(q.as_str());
        assert(body@ =~= join(parts.take(k + 1), ","@));
        k = k + 1;
    }
    assert(parts.take(k as int) =~= parts);
    let mut out = owned("[");
    out.append(body.as_str());
    out.append("]");
    out
}

/// The settings object the script injected into reader windows reads:
/// whether blocking is on, the ad hosts and the exempt pages.
pub open spec fn spec_script_config(enabled: bool) -> Seq<char> {
    "window.__rdAdblock = { on: "@ + (if enabled {
        "true"@
    } else {
        "false"@
    }) + ", hosts: "@ + quoted_list(AD_HOSTS@) + ", exempt: "@ + quoted_list(EXEMPT_PAGES@) + " };\n"@
}

pub fn script_config(enabled: bool) -> (r: String)
    ensures
        r@ == spec_script_config(enabled),
{
    let mut out = owned("window.__rdAdblock = { on: ");
    if enabled {
        out.append("true");
    } else {
        out.append("false");
    }
    out.append(", hosts: ");
    out.append(quoted_list_exec(AD_HOSTS.as_slice()).as_str());
    out.append(", exempt: ");
    out.append(quoted_list_exec(EXEMPT_PAGES.as_slice()).as_str());
    out.append(" };\n");
    out
}

} // verus!
