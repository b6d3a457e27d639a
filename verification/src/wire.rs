//! The wire service: the deterministic feeds, no AI involved.
//!
//! YouTube channel feeds and news search feeds are free, fast and - unlike a
//! language model - cannot invent a link. This module holds what the wire
//! does with what it fetched: reading feeds, cleaning their text, choosing
//! and shaping the items; the fetching itself is the application's.

use vstd::prelude::*;

pub use crate::dates::parse_date;
use crate::dates::spec_parse_date;
use crate::links::{
    parse_url, spec_parse_url, spec_url_join, spec_url_with_params, url_join, url_with_params, UrlParts,
};
use crate::xml::{parse_xml, spec_parse_xml, XmlAttr, XmlNode};
use crate::model::{interest_views, item_views, Interest, InterestView, WireItem, WireItemView};
use crate::pattern::{capture_group, group, replace_all, spec_captures, spec_replace_all};
use crate::text::{
    chars_of, contains, contains_exec, ends_with, ends_with_exec, lower, owned, replace_seq,
    replace_vec, seq_eq, slice_vec, starts_with, starts_with_exec, str_concat, str_starts_with,
    str_eq, string_of, strip_all_prefix, strip_all_prefix_vec, trim, trim_end, trim_end_index, trim_vec,
};

verus! {

pub const VIDEO_MAX_AGE_DAYS: i64 = 10;
pub const NEWS_MAX_AGE_DAYS: i64 = 5;
pub const VIDEOS_PER_CHANNEL: usize = 4;
pub const NEWS_PER_TOPIC: usize = 6;

// ---------------------------------------------------------------- truncate

/// At most `max` characters: a longer text is cut to `max - 1` characters,
/// trailing white space dropped, and an ellipsis added.
pub open spec fn spec_truncate(s: Seq<char>, max: nat) -> Seq<char> {
    if s.len() <= max {
        s
    } else {
        trim_end(s.take(if max >= 1 { max - 1 } else { 0 })).push('…')
    }
}

/// Shorten a text to at most `max_chars` characters, on character
/// boundaries, marking the cut with an ellipsis.
pub fn truncate(s: &str, max_chars: usize) -> (r: String)
    ensures
        r@ == spec_truncate(s@, max_chars as nat),
{
    let v = chars_of(s);
    if v.len() <= max_chars {
        return string_of(v.as_slice());
    }
    let keep = if max_chars >= 1 { max_chars - 1 } else { 0 };
    let mut cut = slice_vec(v.as_slice(), 0, keep);
    assert(cut@ =~= s@.take(keep as int));
    let j = trim_end_index(cut.as_slice());
    cut.truncate(j);
    cut.push('…');
    string_of(cut.as_slice())
}

// ----------------------------------------------------------------- YouTube

pub const YOUTUBE_ID_PATTERN: &'static str = r"(?:youtube\.com/(?:watch\?(?:[^#]*&)?v=|shorts/|live/|embed/)|youtu\.be/)([0-9A-Za-z_-]{11})";

/// The video id in a YouTube link (watch, shorts, live, embed or youtu.be).
pub open spec fn spec_youtube_id(url: Seq<char>) -> Option<Seq<char>> {
    group(spec_captures(YOUTUBE_ID_PATTERN@, url), 1)
}

pub fn youtube_id(url: &str) -> (r: Option<String>)
    ensures
        r.deep_view() == spec_youtube_id(url@),
{
    capture_group(YOUTUBE_ID_PATTERN, url, 1)
}

pub open spec fn spec_youtube_thumb(id: Seq<char>) -> Seq<char> {
    "https://i.ytimg.com/vi/"@ + id + "/hqdefault.jpg"@
}

/// The large thumbnail of a YouTube video.
pub fn youtube_thumb(id: &str) -> (r: String)
    ensures
        r@ == spec_youtube_thumb(id@),
{
    let a = str_concat("https://i.ytimg.com/vi/", id);
    str_concat(&a, "/hqdefault.jpg")
}

pub const CHANNEL_PATTERNS: [&'static str; 4] = [
    r#"rel="canonical"\s+href="https://www\.youtube\.com/channel/(UC[0-9A-Za-z_-]{22})""#,
    r#""externalId":"(UC[0-9A-Za-z_-]{22})""#,
    r#"feeds/videos\.xml\?channel_id=(UC[0-9A-Za-z_-]{22})"#,
    r#""channelId":"(UC[0-9A-Za-z_-]{22})""#,
];

/// The first of `patterns` (in order) that matches `text`, its group 1.
pub open spec fn first_group(patterns: Seq<&str>, text: Seq<char>) -> Option<Seq<char>>
    decreases patterns.len(),
{
    if patterns.len() == 0 {
        None
    } else {
        match spec_captures(patterns[0]@, text) {
            Some(g) => group(Some(g), 1),
            None => first_group(patterns.drop_first(), text),
        }
    }
}

/// The channel id in a YouTube channel page: the canonical link, then the
/// page's metadata, then the feed link, then any channel id field.
pub fn channel_id_from_html(html: &str) -> (r: Option<String>)
    ensures
        r.deep_view() == first_group(CHANNEL_PATTERNS@, html@),
{
    let mut i: usize = 0;
    assert(CHANNEL_PATTERNS@.skip(0) =~= CHANNEL_PATTERNS@);
    while i < 4
        invariant
            i <= 4,
            CHANNEL_PATTERNS@.len() == 4,
            first_group(CHANNEL_PATTERNS@, html@) == first_group(CHANNEL_PATTERNS@.skip(i as int), html@),
        decreases 4 - i,
    {
        let found = crate::pattern::captures(CHANNEL_PATTERNS[i], html);
        assert(CHANNEL_PATTERNS@.skip(i as int)[0] == CHANNEL_PATTERNS@[i as int]);
        match found {
            Some(mut g) => {
                if 1 < g.len() {
                    let ghost before = g.deep_view();
                    let x = g.swap_remove(1);
                    assert(x.deep_view() == before[1]);
                    return x;
                }
                return None;
            },
            None => {
                assert(CHANNEL_PATTERNS@.skip(i as int).drop_first() =~= CHANNEL_PATTERNS@.skip(i + 1));
            },
        }
        i = i + 1;
    }
    None
}

pub const OG_IMAGE_PATTERNS: [&'static str; 2] = [
    r#"(?is)<meta[^>]+(?:property|name)\s*=\s*["'](?:og:image(?::secure_url)?|twitter:image(?::src)?)["'][^>]*?content\s*=\s*["']([^"']+)["']"#,
    r#"(?is)<meta[^>]+content\s*=\s*["']([^"']+)["'][^>]*?(?:property|name)\s*=\s*["'](?:og:image(?::secure_url)?|twitter:image(?::src)?)["']"#,
];

/// A page's share image (og:image or twitter:image, either attribute
/// order): the first pattern that matches, its link trimmed and `&amp;`
/// decoded; none when that comes out empty.
pub open spec fn spec_og_image(html: Seq<char>) -> Option<Seq<char>> {
    match first_group(OG_IMAGE_PATTERNS@, html) {
        Some(g) => {
            let v = replace_seq(trim(g), "&amp;"@, "&"@);
            if v.len() > 0 {
                Some(v)
            } else {
                None
            }
        },
        None => None,
    }
}

pub fn og_image_from_html(html: &str) -> (r: Option<String>)
    ensures
        r.deep_view() == spec_og_image(html@),
{
    let mut i: usize = 0;
    let mut found: Option<String> = None;
    assert(OG_IMAGE_PATTERNS@.skip(0) =~= OG_IMAGE_PATTERNS@);
    while i < 2
        invariant
            i <= 2,
            OG_IMAGE_PATTERNS@.len() == 2,
            found is None,
            first_group(OG_IMAGE_PATTERNS@, html@) == first_group(OG_IMAGE_PATTERNS@.skip(i as int), html@),
        decreases 2 - i,
    {
        let caps = crate::pattern::captures(OG_IMAGE_PATTERNS[i], html);
        assert(OG_IMAGE_PATTERNS@.skip(i as int)[0] == OG_IMAGE_PATTERNS@[i as int]);
        match caps {
            Some(mut g) => {
                if 1 < g.len() {
                    let ghost before = g.deep_view();
                    let x = g.swap_remove(1);
                    assert(x.deep_view() == before[1]);
                    match x {
                        Some(v) => {
                            let vv = chars_of(&v);
                            let t = trim_vec(vv.as_slice());
                            proof {
                                reveal_strlit("&amp;");
                            }
                            let out = replace_str(t.as_slice(), "&amp;", "&");
                            if out.len() > 0 {
                                return Some(string_of(out.as_slice()));
                            }
                            return None;
                        },
                        None => return None,
                    }
                }
                return None;
            },
            None => {
                assert(OG_IMAGE_PATTERNS@.skip(i as int).drop_first() =~= OG_IMAGE_PATTERNS@.skip(i + 1));
            },
        }
        i = i + 1;
    }
    found
}

/// What to do with the value of a YouTube interest before any network
/// request: it already names a channel id, or its page must be fetched.
pub enum ChannelLookup {
    /// The value holds the channel id itself.
    Known(String),
    /// Fetch this page and read the id from it.
    Page(String),
    /// Nothing to look up.
    Nothing,
}

pub const CHANNEL_ID_PATTERN: &'static str = r"UC[0-9A-Za-z_-]{22}";

pub open spec fn spec_channel_lookup(value: Seq<char>) -> (Seq<char>, u8) {
    let v = trim(value);
    if v.len() == 0 {
        (Seq::empty(), 2)
    } else {
        match group(spec_captures(CHANNEL_ID_PATTERN@, v), 0) {
            Some(m) if starts_with(v, "UC"@) || contains(v, "/channel/"@) => (m, 0),
            _ => if starts_with(v, "http://"@) || starts_with(v, "https://"@) {
                (v, 1)
            } else {
                ("https://www.youtube.com/@"@ + crate::text::trim_start_char(v, '@'), 1)
            },
        }
    }
}

pub open spec fn lookup_view(l: ChannelLookup) -> (Seq<char>, u8) {
    match l {
        ChannelLookup::Known(s) => (s@, 0),
        ChannelLookup::Page(s) => (s@, 1),
        ChannelLookup::Nothing => (Seq::empty(), 2),
    }
}

/// "@handle", a channel URL, or a raw "UC..." id: a channel id that is
/// written in the value is taken as it is; otherwise the channel's page (the
/// URL given, or the handle's page) is where the id will be found.
pub fn channel_lookup(value: &str) -> (r: ChannelLookup)
    ensures
        lookup_view(r) == spec_channel_lookup(value@),
{
    let v = crate::text::str_trim(value);
    if v.as_str().is_empty() {
        return ChannelLookup::Nothing;
    }
    proof {
        assert(v@.len() != 0);
    }
    let m = capture_group(CHANNEL_ID_PATTERN, &v, 0);
    match m {
        Some(id) => {
            if str_starts_with(&v, "UC") || crate::text::str_contains(&v, "/channel/") {
                return ChannelLookup::Known(id);
            }
        },
        None => {},
    }
    if str_starts_with(&v, "http://") || str_starts_with(&v, "https://") {
        ChannelLookup::Page(v)
    } else {
        let vv = chars_of(&v);
        let bare = crate::text::trim_start_char_vec(vv.as_slice(), '@');
        let b = string_of(bare.as_slice());
        ChannelLookup::Page(str_concat("https://www.youtube.com/@", &b))
    }
}

// ------------------------------------------------------------------- links

/// The host of a link, without any leading "www." ("" when it has none).
pub open spec fn spec_host_label(link: Seq<char>) -> Seq<char> {
    match spec_parse_url(link) {
        Some(p) => match p.host {
            Some(h) => strip_all_prefix(h, "www."@),
            None => Seq::empty(),
        },
        None => Seq::empty(),
    }
}

pub fn host_label(link: &str) -> (r: String)
    ensures
        r@ == spec_host_label(link@),
{
    match parse_url(link) {
        Some(p) => match &p.host {
            Some(h) => {
                let hv = chars_of(h);
                let www = chars_of("www.");
                let out = strip_all_prefix_vec(hv.as_slice(), www.as_slice());
                string_of(out.as_slice())
            },
            None => String::new(),
        },
        None => String::new(),
    }
}

/// The value of the first query pair named `key`.
pub open spec fn first_pair(q: Seq<(Seq<char>, Seq<char>)>, key: Seq<char>) -> Option<Seq<char>>
    decreases q.len(),
{
    if q.len() == 0 {
        None
    } else if q[0].0 == key {
        Some(q[0].1)
    } else {
        first_pair(q.drop_first(), key)
    }
}

/// Bing wraps links as .../apiclick.aspx?...&url=<real>: the real link when
/// it is one, the link itself otherwise.
pub open spec fn spec_unwrap_redirect(link: Seq<char>) -> Seq<char> {
    match spec_parse_url(link) {
        Some(p) => {
            let host = match p.host {
                Some(h) => h,
                None => Seq::empty(),
            };
            if ends_with(host, "bing.com"@) && contains(p.path, "apiclick"@) {
                match first_pair(p.query, "url"@) {
                    Some(target) => if starts_with(target, "http"@) {
                        target
                    } else {
                        link
                    },
                    None => link,
                }
            } else {
                link
            }
        },
        None => link,
    }
}

#[verifier::loop_isolation(false)]
pub fn unwrap_redirect(link: &str) -> (r: String)
    ensures
        r@ == spec_unwrap_redirect(link@),
{
    if let Some(u) = parse_url(link) {
        let host = match &u.host {
            Some(h) => chars_of(h),
            None => Vec::new(),
        };
        let path = chars_of(&u.path);
        let bing = chars_of("bing.com");
        let click = chars_of("apiclick");
        if ends_with_exec(host.as_slice(), bing.as_slice()) && contains_exec(path.as_slice(), click.as_slice()) {
            let mut i: usize = 0;
            assert(u.query.deep_view().skip(0) =~= u.query.deep_view());
            while i < u.query.len()
                invariant
                    i <= u.query@.len(),
                    first_pair(u.query.deep_view(), "url"@) == first_pair(u.query.deep_view().skip(i as int), "url"@),
                decreases u.query@.len() - i,
            {
                assert(u.query.deep_view().skip(i as int)[0] == u.query.deep_view()[i as int]);
                if crate::text::str_eq(&u.query[i].0, "url") {
                    if str_starts_with(&u.query[i].1, "http") {
                        return owned(&u.query[i].1);
                    }
                    return owned(link);
                }
                assert(u.query.deep_view().skip(i as int).drop_first() =~= u.query.deep_view().skip(i + 1));
                i = i + 1;
            }
        }
    }
    owned(link)
}

// -------------------------------------------------------------------- text

pub const TAGS_PATTERN: &'static str = r"(?s)<[^>]*>";
pub const SPACES_PATTERN: &'static str = r"\s+";

/// The handful of entities feeds actually use, decoded in this order.
pub open spec fn decode_entities(s: Seq<char>) -> Seq<char> {
    let a = replace_seq(s, "&nbsp;"@, " "@);
    let b = replace_seq(a, "&amp;"@, "&"@);
    let c = replace_seq(b, "&lt;"@, "<"@);
    let d = replace_seq(c, "&gt;"@, ">"@);
    let e = replace_seq(d, "&quot;"@, "\""@);
    let f = replace_seq(e, "&#39;"@, "'"@);
    replace_seq(f, "&apos;"@, "'"@)
}

/// Tags stripped (each replaced by a space), entities decoded, the ends
/// trimmed and every run of white space squeezed to one space.
pub open spec fn spec_clean_text(s: Seq<char>) -> Seq<char> {
    spec_replace_all(
        SPACES_PATTERN@,
        trim(decode_entities(spec_replace_all(TAGS_PATTERN@, s, " "@))),
        " "@,
    )
}

fn replace_str(s: &[char], from: &str, to: &str) -> (r: Vec<char>)
    requires
        from@.len() > 0,
    ensures
        r@ == replace_seq(s@, from@, to@),
{
    let f = chars_of(from);
    let t = chars_of(to);
    replace_vec(s, f.as_slice(), t.as_slice())
}

/// Strip tags, decode the handful of entities feeds actually use, squeeze
/// white space.
pub fn clean_text(s: &str) -> (r: String)
    ensures
        r@ == spec_clean_text(s@),
{
    let no_tags = replace_all(TAGS_PATTERN, s, " ");
    let v = chars_of(&no_tags);
    proof {
        reveal_strlit("&nbsp;");
        reveal_strlit("&amp;");
        reveal_strlit("&lt;");
        reveal_strlit("&gt;");
        reveal_strlit("&quot;");
        reveal_strlit("&#39;");
        reveal_strlit("&apos;");
    }
    let a = replace_str(v.as_slice(), "&nbsp;", " ");
    let b = replace_str(a.as_slice(), "&amp;", "&");
    let c = replace_str(b.as_slice(), "&lt;", "<");
    let d = replace_str(c.as_slice(), "&gt;", ">");
    let e = replace_str(d.as_slice(), "&quot;", "\"");
    let f = replace_str(e.as_slice(), "&#39;", "'");
    let g = replace_str(f.as_slice(), "&apos;", "'");
    let t = trim_vec(g.as_slice());
    let ts = string_of(t.as_slice());
    replace_all(SPACES_PATTERN, &ts, " ")
}

// ------------------------------------------------------------------- dates

/// Any common feed date (RFC 3339 or RFC 2822, white space around it
/// ignored) as RFC 3339 in UTC.
pub open spec fn spec_normalize_date(s: Seq<char>) -> Option<Seq<char>> {
    match spec_parse_date(trim(s)) {
        Some(d) => Some(d.2),
        None => None,
    }
}

pub fn normalize_date(s: &str) -> (r: Option<String>)
    ensures
        r.deep_view() == spec_normalize_date(s@),
{
    match parse_date(s) {
        Some(d) => Some(d.rfc3339),
        None => None,
    }
}

/// Rust's integer division, which rounds toward zero.
pub open spec fn div_toward_zero(a: int, b: int) -> int
    recommends
        b > 0,
{
    if a >= 0 {
        a / b
    } else {
        -((-a) / b)
    }
}

/// Whole days from `then` to `now` as `chrono` counts them
/// (`signed_duration_since(..).num_days()`): the nanosecond difference
/// truncated to whole seconds, then to whole days, both toward zero.
pub open spec fn days_between(now_secs: int, now_nanos: int, then_secs: int, then_nanos: int) -> int {
    let total = (now_secs - then_secs) * 1_000_000_000 + (now_nanos - then_nanos);
    div_toward_zero(div_toward_zero(total, 1_000_000_000), 86400)
}

/// Unknown dates pass: better a stale item the editor can reject than a
/// silent hole in the wire.
pub open spec fn spec_within_days(date: Option<Seq<char>>, days: int, now_secs: int, now_nanos: int) -> bool {
    match date {
        Some(d) => match spec_parse_date(trim(d)) {
            Some(p) => days_between(now_secs, now_nanos, p.0 as int, p.1 as int) <= days,
            None => true,
        },
        None => true,
    }
}

pub fn trunc_div(a: i128, b: i128) -> (r: i128)
    requires
        b > 0,
        a > i128::MIN,
    ensures
        r == div_toward_zero(a as int, b as int),
{
    if a >= 0 {
        a / b
    } else {
        -((-a) / b)
    }
}

/// Is the date no more than `days` whole days before `now`? `now` is the
/// clock reading the caller took (seconds and nanoseconds since the epoch).
pub fn within_days(date: Option<&str>, days: i64, now_secs: i64, now_nanos: u32) -> (r: bool)
    requires
        now_nanos < 2_000_000_000,
    ensures
        r == spec_within_days(
            match date {
                Some(d) => Some(d@),
                None => None,
            },
            days as int,
            now_secs as int,
            now_nanos as int,
        ),
{
    match date {
        Some(d) => {
            match parse_date(d) {
                Some(p) => {
                    let ds = (now_secs as i128) - (p.secs as i128);
                    let dn = (now_nanos as i128) - (p.nanos as i128);
                    assert(-(0x1_0000_0000_0000_0000 as int) <= ds <= 0x1_0000_0000_0000_0000);
                    assert(ds * 1_000_000_000 <= 0x1_0000_0000_0000_0000 * 1_000_000_000) by (nonlinear_arith)
                        requires ds <= 0x1_0000_0000_0000_0000;
                    assert(ds * 1_000_000_000 >= -0x1_0000_0000_0000_0000 * 1_000_000_000) by (nonlinear_arith)
                        requires ds >= -0x1_0000_0000_0000_0000;
                    let total = ds * 1_000_000_000 + dn;
                    let secs = trunc_div(total, 1_000_000_000);
                    let whole_days = trunc_div(secs, 86400);
                    whole_days <= days as i128
                },
                None => true,
            }
        },
        None => true,
    }
}

// ------------------------------------------------------------ feed parsing

#[derive(Debug, Clone)]
pub struct FeedEntry {
    pub title: String,
    pub link: String,
    pub published: Option<String>,
    pub summary: Option<String>,
    pub source: Option<String>,
    pub image: Option<String>,
    pub video_id: Option<String>,
    pub author: Option<String>,
}

pub struct FeedEntryView {
    pub title: Seq<char>,
    pub link: Seq<char>,
    pub published: Option<Seq<char>>,
    pub summary: Option<Seq<char>>,
    pub source: Option<Seq<char>>,
    pub image: Option<Seq<char>>,
    pub video_id: Option<Seq<char>>,
    pub author: Option<Seq<char>>,
}

impl View for FeedEntry {
    type V = FeedEntryView;

    open spec fn view(&self) -> FeedEntryView {
        FeedEntryView {
            title: self.title@,
            link: self.link@,
            published: self.published.deep_view(),
            summary: self.summary.deep_view(),
            source: self.source.deep_view(),
            image: self.image.deep_view(),
            video_id: self.video_id.deep_view(),
            author: self.author.deep_view(),
        }
    }
}

pub open spec fn blank_entry() -> FeedEntryView {
    FeedEntryView {
        title: Seq::empty(),
        link: Seq::empty(),
        published: None,
        summary: None,
        source: None,
        image: None,
        video_id: None,
        author: None,
    }
}

/// A node's text, trimmed ("" when it has none).
pub open spec fn node_text(n: XmlNode) -> Seq<char> {
    match n.text {
        Some(t) => trim(t@),
        None => Seq::empty(),
    }
}

/// `Node::attribute(name)`: the value of the first attribute with that local
/// name and no namespace.
pub open spec fn attr_value(attrs: Seq<XmlAttr>, name: Seq<char>) -> Option<Seq<char>>
    decreases attrs.len(),
{
    if attrs.len() == 0 {
        None
    } else if attrs[0].namespace is None && attrs[0].name@ == name {
        Some(attrs[0].value@)
    } else {
        attr_value(attrs.drop_first(), name)
    }
}

/// The first element among the children `ch` whose local name is `name`.
pub open spec fn first_element_named(nodes: Seq<XmlNode>, ch: Seq<usize>, name: Seq<char>) -> Option<XmlNode>
    decreases ch.len(),
{
    if ch.len() == 0 {
        None
    } else if ch[0] < nodes.len() && nodes[ch[0] as int].element && nodes[ch[0] as int].name@ == name {
        Some(nodes[ch[0] as int])
    } else {
        first_element_named(nodes, ch.drop_first(), name)
    }
}

/// One child of a YouTube `media:group`: its description and thumbnail.
pub open spec fn group_step(e: FeedEntryView, g: XmlNode) -> FeedEntryView {
    if g.name@ == "description"@ {
        match g.text {
            Some(t) => if spec_clean_text(t@).len() > 0 {
                FeedEntryView { summary: Some(spec_clean_text(t@)), ..e }
            } else {
                e
            },
            None => e,
        }
    } else if g.name@ == "thumbnail"@ {
        match attr_value(g.attrs@, "url"@) {
            Some(u) => FeedEntryView { image: Some(u), ..e },
            None => e,
        }
    } else {
        e
    }
}

/// The element children `gch` of a `media:group`, read in order.
pub open spec fn group_fold(e: FeedEntryView, nodes: Seq<XmlNode>, gch: Seq<usize>) -> FeedEntryView
    decreases gch.len(),
{
    if gch.len() == 0 {
        e
    } else {
        let prev = group_fold(e, nodes, gch.drop_last());
        let j = gch.last();
        if j < nodes.len() && nodes[j as int].element {
            group_step(prev, nodes[j as int])
        } else {
            prev
        }
    }
}

/// The author's name: the text of the first `name` element under `author`,
/// else the author element's own text.
pub open spec fn author_of(nodes: Seq<XmlNode>, c: XmlNode, text: Seq<char>) -> Option<Seq<char>> {
    match first_element_named(nodes, c.children@, "name"@) {
        Some(n) if n.text is Some => Some(trim(n.text->0@)),
        _ => if text.len() > 0 {
            Some(text)
        } else {
            None
        },
    }
}

/// One child element of an `item` / `entry`, matched on its local name in
/// lower case.
pub open spec fn child_step(e: FeedEntryView, nodes: Seq<XmlNode>, c: XmlNode) -> FeedEntryView {
    let name = lower(c.name@);
    let text = node_text(c);
    if name == "title"@ {
        FeedEntryView { title: spec_clean_text(text), ..e }
    } else if name == "link"@ {
        match attr_value(c.attrs@, "href"@) {
            Some(href) => {
                let rel = match attr_value(c.attrs@, "rel"@) {
                    Some(r) => r,
                    None => "alternate"@,
                };
                if rel == "alternate"@ || e.link.len() == 0 {
                    FeedEntryView { link: href, ..e }
                } else {
                    e
                }
            },
            None => if text.len() > 0 {
                FeedEntryView { link: text, ..e }
            } else {
                e
            },
        }
    } else if name == "pubdate"@ || name == "published"@ || name == "date"@ {
        FeedEntryView {
            published: Some(
                match spec_normalize_date(text) {
                    Some(d) => d,
                    None => text,
                },
            ),
            ..e
        }
    } else if name == "updated"@ {
        if e.published is None {
            FeedEntryView { published: spec_normalize_date(text), ..e }
        } else {
            e
        }
    } else if name == "description"@ || name == "summary"@ {
        if text.len() > 0 {
            FeedEntryView { summary: Some(spec_clean_text(text)), ..e }
        } else {
            e
        }
    } else if name == "source"@ {
        FeedEntryView { source: Some(spec_clean_text(text)), ..e }
    } else if name == "image"@ {
        if starts_with(text, "http"@) {
            FeedEntryView { image: Some(text), ..e }
        } else {
            e
        }
    } else if name == "videoid"@ {
        FeedEntryView { video_id: Some(text), ..e }
    } else if name == "author"@ {
        FeedEntryView { author: author_of(nodes, c, text), ..e }
    } else if name == "group"@ {
        group_fold(e, nodes, c.children@)
    } else {
        e
    }
}

/// An entry read from its child elements `ch`, in order.
pub open spec fn entry_fold(nodes: Seq<XmlNode>, ch: Seq<usize>) -> FeedEntryView
    decreases ch.len(),
{
    if ch.len() == 0 {
        blank_entry()
    } else {
        let prev = entry_fold(nodes, ch.drop_last());
        let j = ch.last();
        if j < nodes.len() && nodes[j as int].element {
            child_step(prev, nodes, nodes[j as int])
        } else {
            prev
        }
    }
}

pub open spec fn is_entry_node(n: XmlNode) -> bool {
    n.element && (n.name@ == "item"@ || n.name@ == "entry"@)
}

/// The entries among the first `n` nodes, in document order, keeping those
/// with a title and a link.
pub open spec fn feed_fold(nodes: Seq<XmlNode>, n: int) -> Seq<FeedEntryView>
    decreases n,
{
    if n <= 0 {
        Seq::empty()
    } else {
        let prev = feed_fold(nodes, n - 1);
        let nd = nodes[n - 1];
        if is_entry_node(nd) {
            let e = entry_fold(nodes, nd.children@);
            if e.title.len() > 0 && e.link.len() > 0 {
                prev.push(e)
            } else {
                prev
            }
        } else {
            prev
        }
    }
}

/// RSS 2.0 (`item`) and Atom (`entry`) entries, matching on local tag names
/// so namespace prefixes (yt:, media:, News:) don't matter. Not XML: none.
pub open spec fn spec_parse_feed(xml: Seq<char>) -> Seq<FeedEntryView> {
    match spec_parse_xml(crate::text::trim_start_char(xml, '\u{feff}')) {
        Some(nodes) => feed_fold(nodes, nodes.len() as int),
        None => Seq::empty(),
    }
}

pub open spec fn entry_views(v: Seq<FeedEntry>) -> Seq<FeedEntryView> {
    v.map_values(|e: FeedEntry| e@)
}

fn is_lit(v: &[char], lit: &str) -> (r: bool)
    ensures
        r == (v@ == lit@),
{
    let l = chars_of(lit);
    seq_eq(v, l.as_slice())
}

fn opt_string(s: &Option<String>) -> (r: Option<String>)
    ensures
        r.deep_view() == s.deep_view(),
{
    match s {
        Some(x) => Some(owned(x)),
        None => None,
    }
}

fn node_text_exec(n: &XmlNode) -> (r: Vec<char>)
    ensures
        r@ == node_text(*n),
{
    match &n.text {
        Some(t) => {
            let v = chars_of(t);
            trim_vec(v.as_slice())
        },
        None => Vec::new(),
    }
}

fn attr_value_exec(attrs: &Vec<XmlAttr>, name: &str) -> (r: Option<String>)
    ensures
        r.deep_view() == attr_value(attrs@, name@),
{
    let mut i: usize = 0;
    assert(attrs@.skip(0) =~= attrs@);
    while i < attrs.len()
        invariant
            i <= attrs@.len(),
            attr_value(attrs@, name@) == attr_value(attrs@.skip(i as int), name@),
        decreases attrs@.len() - i,
    {
        assert(attrs@.skip(i as int)[0] == attrs@[i as int]);
        if attrs[i].namespace.is_none() && crate::text::str_eq(&attrs[i].name, name) {
            return Some(owned(&attrs[i].value));
        }
        assert(attrs@.skip(i as int).drop_first() =~= attrs@.skip(i + 1));
        i = i + 1;
    }
    None
}

fn first_element_named_exec<'a>(nodes: &'a Vec<XmlNode>, ch: &Vec<usize>, name: &str) -> (r: Option<&'a XmlNode>)
    ensures
        match r {
            Some(n) => first_element_named(nodes@, ch@, name@) == Some(*n),
            None => first_element_named(nodes@, ch@, name@) is None,
        },
{
    let mut i: usize = 0;
    assert(ch@.skip(0) =~= ch@);
    while i < ch.len()
        invariant
            i <= ch@.len(),
            first_element_named(nodes@, ch@, name@) == first_element_named(nodes@, ch@.skip(i as int), name@),
        decreases ch@.len() - i,
    {
        assert(ch@.skip(i as int)[0] == ch@[i as int]);
        let j = ch[i];
        if j < nodes.len() && nodes[j].element && crate::text::str_eq(&nodes[j].name, name) {
            return Some(&nodes[j]);
        }
        assert(ch@.skip(i as int).drop_first() =~= ch@.skip(i + 1));
        i = i + 1;
    }
    None
}

fn apply_group(e: &mut FeedEntry, nodes: &Vec<XmlNode>, gch: &Vec<usize>)
    ensures
        final(e)@ == group_fold(old(e)@, nodes@, gch@),
{
    let ghost start = e@;
    let mut i: usize = 0;
    while i < gch.len()
        invariant
            i <= gch@.len(),
            e@ == group_fold(start, nodes@, gch@.take(i as int)),
        decreases gch@.len() - i,
    {
        let j = gch[i];
        proof {
            assert(gch@.take(i + 1).drop_last() =~= gch@.take(i as int));
        }
        if j < nodes.len() && nodes[j].element {
            let g = &nodes[j];
            let gname = chars_of(&g.name);
            if is_lit(gname.as_slice(), "description") {
                match &g.text {
                    Some(t) => {
                        let c = clean_text(t);
                        if !c.as_str().is_empty() {
                            e.summary = Some(c);
                        }
                    },
                    None => {},
                }
            } else if is_lit(gname.as_slice(), "thumbnail") {
                match attr_value_exec(&g.attrs, "url") {
                    Some(u) => {
                        e.image = Some(u);
                    },
                    None => {},
                }
            }
        }
        i = i + 1;
    }
    assert(gch@.take(gch@.len() as int) =~= gch@);
}

fn apply_child(e: &mut FeedEntry, nodes: &Vec<XmlNode>, c: &XmlNode)
    ensures
        final(e)@ == child_step(old(e)@, nodes@, *c),
{
    let cname = chars_of(&c.name);
    let name = crate::text::lower_vec(cname.as_slice());
    let text_v = node_text_exec(c);
    let text = string_of(text_v.as_slice());
    if is_lit(name.as_slice(), "title") {
        e.title = clean_text(&text);
    } else if is_lit(name.as_slice(), "link") {
        match attr_value_exec(&c.attrs, "href") {
            Some(href) => {
                let rel = match attr_value_exec(&c.attrs, "rel") {
                    Some(r) => r,
                    None => owned("alternate"),
                };
                if crate::text::str_eq(&rel, "alternate") || e.link.as_str().is_empty() {
                    e.link = href;
                }
            },
            None => {
                if !text.as_str().is_empty() {
                    e.link = text;
                }
            },
        }
    } else if is_lit(name.as_slice(), "pubdate") || is_lit(name.as_slice(), "published") || is_lit(
        name.as_slice(),
        "date",
    ) {
        e.published = Some(
            match normalize_date(&text) {
                Some(d) => d,
                None => text,
            },
        );
    } else if is_lit(name.as_slice(), "updated") {
        if e.published.is_none() {
            e.published = normalize_date(&text);
        }
    } else if is_lit(name.as_slice(), "description") || is_lit(name.as_slice(), "summary") {
        if !text.as_str().is_empty() {
            e.summary = Some(clean_text(&text));
        }
    } else if is_lit(name.as_slice(), "source") {
        e.source = Some(clean_text(&text));
    } else if is_lit(name.as_slice(), "image") {
        if str_starts_with(&text, "http") {
            e.image = Some(text);
        }
    } else if is_lit(name.as_slice(), "videoid") {
        e.video_id = Some(text);
    } else if is_lit(name.as_slice(), "author") {
        let nm = match first_element_named_exec(nodes, &c.children, "name") {
            Some(n) => match &n.text {
                Some(t) => Some(crate::text::str_trim(t)),
                None => None,
            },
            None => None,
        };
        e.author = match nm {
            Some(x) => Some(x),
            None => if !text.as_str().is_empty() {
                Some(text)
            } else {
                None
            },
        };
    } else if is_lit(name.as_slice(), "group") {
        apply_group(e, nodes, &c.children);
    }
}

fn read_entry(nodes: &Vec<XmlNode>, ch: &Vec<usize>) -> (e: FeedEntry)
    ensures
        e@ == entry_fold(nodes@, ch@),
{
    let mut e = FeedEntry {
        title: String::new(),
        link: String::new(),
        published: None,
        summary: None,
        source: None,
        image: None,
        video_id: None,
        author: None,
    };
    let mut i: usize = 0;
    while i < ch.len()
        invariant
            i <= ch@.len(),
            e@ == entry_fold(nodes@, ch@.take(i as int)),
        decreases ch@.len() - i,
    {
        let j = ch[i];
        proof {
            assert(ch@.take(i + 1).drop_last() =~= ch@.take(i as int));
        }
        if j < nodes.len() && nodes[j].element {
            apply_child(&mut e, nodes, &nodes[j]);
        }
        i = i + 1;
    }
    assert(ch@.take(ch@.len() as int) =~= ch@);
    e
}

/// The entries of a parsed feed: each `item` (RSS 2.0) or `entry` (Atom)
/// element, matched on its local name so namespace prefixes (yt:, media:,
/// News:) don't matter, that has a title and a link, in document order.
pub fn feed_from_nodes(nodes: &Vec<XmlNode>) -> (r: Vec<FeedEntry>)
    ensures
        entry_views(r@) == feed_fold(nodes@, nodes@.len() as int),
{
    let mut out: Vec<FeedEntry> = Vec::new();
    let mut i: usize = 0;
    while i < nodes.len()
        invariant
            i <= nodes@.len(),
            entry_views(out@) == feed_fold(nodes@, i as int),
        decreases nodes@.len() - i,
    {
        let nd = &nodes[i];
        if nd.element && (crate::text::str_eq(&nd.name, "item") || crate::text::str_eq(&nd.name, "entry")) {
            let e = read_entry(nodes, &nd.children);
            if !e.title.as_str().is_empty() && !e.link.as_str().is_empty() {
                let ghost before = out@;
                out.push(e);
                assert(entry_views(out@) =~= entry_views(before).push(e@));
            }
        }
        i = i + 1;
    }
    out
}

/// Parses both RSS 2.0 (`item`) and Atom (`entry`), matching on local tag
/// names so namespace prefixes (yt:, media:, News:) don't matter. Text that
/// is not XML gives no entries.
pub fn parse_feed(xml: &str) -> (r: Vec<FeedEntry>)
    ensures
        entry_views(r@) == spec_parse_feed(xml@),
{
    let xv = chars_of(xml);
    let body_v = crate::text::trim_start_char_vec(xv.as_slice(), '\u{feff}');
    let body = string_of(body_v.as_slice());
    match parse_xml(&body) {
        Some(nodes) => feed_from_nodes(&nodes),
        None => {
            let out: Vec<FeedEntry> = Vec::new();
            assert(entry_views(out@) =~= Seq::<FeedEntryView>::empty());
            out
        },
    }
}

// ------------------------------------------------------------- wire items

pub open spec fn opt_view(d: Option<Seq<char>>) -> Option<Seq<char>> {
    d
}

/// The entries whose date is unknown or at most `days` days old, in order.
pub open spec fn fresh_entries(es: Seq<FeedEntryView>, days: int, now_secs: int, now_nanos: int) -> Seq<FeedEntryView>
    decreases es.len(),
{
    if es.len() == 0 {
        Seq::empty()
    } else {
        let prev = fresh_entries(es.drop_last(), days, now_secs, now_nanos);
        if spec_within_days(es.last().published, days, now_secs, now_nanos) {
            prev.push(es.last())
        } else {
            prev
        }
    }
}

/// The first `n` items of a sequence (all of them when it is shorter).
pub open spec fn first_n<T>(s: Seq<T>, n: int) -> Seq<T> {
    if s.len() <= n {
        s
    } else {
        s.take(n)
    }
}

/// A YouTube feed entry as wire copy: a video, when it names its video.
pub open spec fn video_item(e: FeedEntryView, beat: Seq<char>) -> Option<WireItemView> {
    let id = match e.video_id {
        Some(v) => Some(v),
        None => spec_youtube_id(e.link),
    };
    match id {
        Some(id) => Some(
            WireItemView {
                kind: "video"@,
                title: e.title,
                url: "https://www.youtube.com/watch?v="@ + id,
                source: "YouTube"@,
                author: e.author,
                published: e.published,
                summary: match e.summary {
                    Some(s) => Some(spec_truncate(s, 700)),
                    None => None,
                },
                image: Some(spec_youtube_thumb(id)),
                beat: beat,
            },
        ),
        None => None,
    }
}

pub open spec fn video_fold(es: Seq<FeedEntryView>, beat: Seq<char>) -> Seq<WireItemView>
    decreases es.len(),
{
    if es.len() == 0 {
        Seq::empty()
    } else {
        let prev = video_fold(es.drop_last(), beat);
        match video_item(es.last(), beat) {
            Some(w) => prev.push(w),
            None => prev,
        }
    }
}

/// A channel's feed as wire copy: of the entries no more than ten days old,
/// the first four, each that names its video.
pub open spec fn spec_video_items(es: Seq<FeedEntryView>, beat: Seq<char>, now_secs: int, now_nanos: int) -> Seq<WireItemView> {
    video_fold(
        first_n(fresh_entries(es, VIDEO_MAX_AGE_DAYS as int, now_secs, now_nanos), VIDEOS_PER_CHANNEL as int),
        beat,
    )
}

fn opt_truncate(s: &Option<String>, max: usize) -> (r: Option<String>)
    ensures
        r.deep_view() == match s.deep_view() {
            Some(x) => Some(spec_truncate(x, max as nat)),
            None => None,
        },
{
    match s {
        Some(x) => Some(truncate(x, max)),
        None => None,
    }
}

fn make_video_item(e: &FeedEntry, beat: &str) -> (r: Option<WireItem>)
    ensures
        match r {
            Some(w) => video_item(e@, beat@) == Some(w@),
            None => video_item(e@, beat@) is None,
        },
{
    let id = match &e.video_id {
        Some(v) => owned(v),
        None => match youtube_id(&e.link) {
            Some(v) => v,
            None => return None,
        },
    };
    Some(WireItem {
        kind: owned("video"),
        title: owned(&e.title),
        url: str_concat("https://www.youtube.com/watch?v=", &id),
        source: owned("YouTube"),
        author: opt_string(&e.author),
        published: opt_string(&e.published),
        summary: opt_truncate(&e.summary, 700),
        image: Some(youtube_thumb(&id)),
        beat: owned(beat),
    })
}

/// A channel's feed entries as wire copy for the beat `beat`: of the entries
/// no more than ten days old at `now`, the first four, each that names its
/// video (its own id, else the id in its link).
pub fn video_items(entries: &Vec<FeedEntry>, beat: &str, now_secs: i64, now_nanos: u32) -> (r: Vec<WireItem>)
    requires
        now_nanos < 2_000_000_000,
    ensures
        item_views(r@) == spec_video_items(entry_views(entries@), beat@, now_secs as int, now_nanos as int),
{
    let ghost es = entry_views(entries@);
    let ghost fresh = fresh_entries(es, VIDEO_MAX_AGE_DAYS as int, now_secs as int, now_nanos as int);
    let mut out: Vec<WireItem> = Vec::new();
    let mut taken: usize = 0;
    let mut i: usize = 0;
    while i < entries.len()
        invariant
            i <= entries@.len(),
            es == entry_views(entries@),
            now_nanos < 2_000_000_000,
            fresh == fresh_entries(es, VIDEO_MAX_AGE_DAYS as int, now_secs as int, now_nanos as int),
            taken <= VIDEOS_PER_CHANNEL,
            taken == first_n(fresh_entries(es.take(i as int), VIDEO_MAX_AGE_DAYS as int, now_secs as int, now_nanos as int), VIDEOS_PER_CHANNEL as int).len(),
            item_views(out@) == video_fold(
                first_n(fresh_entries(es.take(i as int), VIDEO_MAX_AGE_DAYS as int, now_secs as int, now_nanos as int), VIDEOS_PER_CHANNEL as int),
                beat@,
            ),
        decreases entries@.len() - i,
    {
        let ghost pre = fresh_entries(es.take(i as int), VIDEO_MAX_AGE_DAYS as int, now_secs as int, now_nanos as int);
        assert(es.take(i + 1).drop_last() =~= es.take(i as int));
        assert(es.take(i + 1).last() == entries@[i as int]@);
        let e = &entries[i];
        let fresh_e = within_days(
            match &e.published {
                Some(p) => Some(p.as_str()),
                None => None,
            },
            VIDEO_MAX_AGE_DAYS,
            now_secs,
            now_nanos,
        );
        assert(fresh_entries(es.take(i + 1), VIDEO_MAX_AGE_DAYS as int, now_secs as int, now_nanos as int) == if fresh_e {
            pre.push(e@)
        } else {
            pre
        });
        if fresh_e {
            if taken < VIDEOS_PER_CHANNEL {
                assert(first_n(pre.push(e@), VIDEOS_PER_CHANNEL as int) =~= first_n(pre, VIDEOS_PER_CHANNEL as int).push(e@));
                assert(first_n(pre, VIDEOS_PER_CHANNEL as int).push(e@).drop_last() =~= first_n(pre, VIDEOS_PER_CHANNEL as int));
                let w = make_video_item(e, beat);
                match w {
                    Some(w) => {
                        let ghost before = out@;
                        out.push(w);
                        assert(item_views(out@) =~= item_views(before).push(w@));
                    },
                    None => {},
                }
                taken = taken + 1;
            } else {
                assert(first_n(pre.push(e@), VIDEOS_PER_CHANNEL as int) =~= first_n(pre, VIDEOS_PER_CHANNEL as int));
            }
        }
        i = i + 1;
    }
    assert(es.take(entries@.len() as int) =~= es);
    out
}

/// A news feed entry as wire copy: the publisher's real link, its name
/// (the feed's, else the link's host), the title without a trailing
/// " - <source>", and a short summary.
pub open spec fn news_item(e: FeedEntryView, beat: Seq<char>) -> WireItemView {
    let url = spec_unwrap_redirect(e.link);
    let source = match e.source {
        Some(s) => if s.len() > 0 {
            s
        } else {
            spec_host_label(url)
        },
        None => spec_host_label(url),
    };
    let suffix = " - "@ + source;
    let title = if ends_with(e.title, suffix) {
        e.title.take(e.title.len() - suffix.len())
    } else {
        e.title
    };
    WireItemView {
        kind: if spec_youtube_id(url) is Some {
            "video"@
        } else {
            "article"@
        },
        title: title,
        url: url,
        source: source,
        author: None,
        published: e.published,
        summary: match e.summary {
            Some(s) => Some(spec_truncate(s, 260)),
            None => None,
        },
        image: e.image,
        beat: beat,
    }
}

/// Entries fit for the news wire: recent enough and with a web link.
pub open spec fn news_candidates(es: Seq<FeedEntryView>, now_secs: int, now_nanos: int) -> Seq<FeedEntryView>
    decreases es.len(),
{
    if es.len() == 0 {
        Seq::empty()
    } else {
        let prev = news_candidates(es.drop_last(), now_secs, now_nanos);
        let e = es.last();
        if spec_within_days(e.published, NEWS_MAX_AGE_DAYS as int, now_secs, now_nanos) && starts_with(e.link, "http"@) {
            prev.push(e)
        } else {
            prev
        }
    }
}

pub open spec fn spec_news_items(es: Seq<FeedEntryView>, beat: Seq<char>, now_secs: int, now_nanos: int) -> Seq<WireItemView> {
    first_n(news_candidates(es, now_secs, now_nanos), NEWS_PER_TOPIC as int).map_values(
        |e: FeedEntryView| news_item(e, beat),
    )
}

fn make_news_item(e: &FeedEntry, beat: &str) -> (w: WireItem)
    ensures
        w@ == news_item(e@, beat@),
{
    let url = unwrap_redirect(&e.link);
    let source = match &e.source {
        Some(s) => if !s.as_str().is_empty() {
            owned(s)
        } else {
            host_label(&url)
        },
        None => host_label(&url),
    };
    let suffix = str_concat(" - ", &source);
    let tv = chars_of(&e.title);
    let sv = chars_of(&suffix);
    let title = if ends_with_exec(tv.as_slice(), sv.as_slice()) {
        let t = slice_vec(tv.as_slice(), 0, tv.len() - sv.len());
        assert(t@ =~= e.title@.take(e.title@.len() - suffix@.len()));
        string_of(t.as_slice())
    } else {
        owned(&e.title)
    };
    let kind = if youtube_id(&url).is_some() {
        owned("video")
    } else {
        owned("article")
    };
    WireItem {
        kind,
        title,
        url,
        source,
        author: None,
        published: opt_string(&e.published),
        summary: opt_truncate(&e.summary, 260),
        image: opt_string(&e.image),
        beat: owned(beat),
    }
}

/// A news search feed's entries as wire copy for the beat `beat`: of the
/// entries no more than five days old at `now` and with a web link, the first
/// six.
pub fn news_items(entries: &Vec<FeedEntry>, beat: &str, now_secs: i64, now_nanos: u32) -> (r: Vec<WireItem>)
    requires
        now_nanos < 2_000_000_000,
    ensures
        item_views(r@) == spec_news_items(entry_views(entries@), beat@, now_secs as int, now_nanos as int),
{
    let ghost es = entry_views(entries@);
    let mut out: Vec<WireItem> = Vec::new();
    let mut i: usize = 0;
    while i < entries.len()
        invariant
            i <= entries@.len(),
            es == entry_views(entries@),
            now_nanos < 2_000_000_000,
            out@.len() <= NEWS_PER_TOPIC,
            item_views(out@) == spec_news_items(es.take(i as int), beat@, now_secs as int, now_nanos as int),
        decreases entries@.len() - i,
    {
        let ghost pre = news_candidates(es.take(i as int), now_secs as int, now_nanos as int);
        assert(es.take(i + 1).drop_last() =~= es.take(i as int));
        assert(es.take(i + 1).last() == entries@[i as int]@);
        let e = &entries[i];
        let ok = within_days(
            match &e.published {
                Some(p) => Some(p.as_str()),
                None => None,
            },
            NEWS_MAX_AGE_DAYS,
            now_secs,
            now_nanos,
        ) && str_starts_with(&e.link, "http");
        assert(news_candidates(es.take(i + 1), now_secs as int, now_nanos as int) == if ok {
            pre.push(e@)
        } else {
            pre
        });
        assert(item_views(out@).len() == out@.len());
        assert(first_n(pre, NEWS_PER_TOPIC as int).len() == out@.len());
        if ok {
            if out.len() < NEWS_PER_TOPIC {
                let w = make_news_item(e, beat);
                let ghost before = out@;
                out.push(w);
                assert(first_n(pre.push(e@), NEWS_PER_TOPIC as int) =~= first_n(pre, NEWS_PER_TOPIC as int).push(e@));
                assert(item_views(out@) =~= item_views(before).push(w@));
                assert(item_views(out@) =~= spec_news_items(es.take(i + 1), beat@, now_secs as int, now_nanos as int));
            } else {
                assert(first_n(pre.push(e@), NEWS_PER_TOPIC as int) =~= first_n(pre, NEWS_PER_TOPIC as int));
            }
        }
        i = i + 1;
    }
    assert(es.take(entries@.len() as int) =~= es);
    out
}

/// Items with a link seen earlier dropped, keeping the first (interests are
/// in priority order).
pub open spec fn dedupe(items: Seq<WireItemView>) -> Seq<WireItemView>
    decreases items.len(),
{
    if items.len() == 0 {
        Seq::empty()
    } else {
        let prev = dedupe(items.drop_last());
        if exists|k: int| 0 <= k < prev.len() && prev[k].url == items.last().url {
            prev
        } else {
            prev.push(items.last())
        }
    }
}

fn has_url(items: &Vec<WireItem>, url: &String) -> (r: bool)
    ensures
        r == exists|k: int| 0 <= k < items@.len() && item_views(items@)[k].url == url@,
{
    let mut i: usize = 0;
    while i < items.len()
        invariant
            i <= items@.len(),
            forall|k: int| 0 <= k < i ==> item_views(items@)[k].url != url@,
        decreases items@.len() - i,
    {
        if crate::text::str_eq(&items[i].url, url) {
            assert(item_views(items@)[i as int].url == url@);
            return true;
        }
        i = i + 1;
    }
    false
}

/// De-dupe the gathered wire copy by link, keeping the first of each.
pub fn dedupe_by_url(items: &Vec<WireItem>) -> (r: Vec<WireItem>)
    ensures
        item_views(r@) == dedupe(item_views(items@)),
{
    let ghost all = item_views(items@);
    let mut out: Vec<WireItem> = Vec::new();
    let mut i: usize = 0;
    while i < items.len()
        invariant
            i <= items@.len(),
            all == item_views(items@),
            item_views(out@) == dedupe(all.take(i as int)),
        decreases items@.len() - i,
    {
        assert(all.take(i + 1).drop_last() =~= all.take(i as int));
        assert(all.take(i + 1).last() == items@[i as int]@);
        if !has_url(&out, &items[i].url) {
            let w = items[i].copy();
            let ghost before = out@;
            out.push(w);
            assert(item_views(out@) =~= item_views(before).push(w@));
        }
        i = i + 1;
    }
    assert(all.take(items@.len() as int) =~= all);
    out
}


// ---------------------------------------------------------------- gathering

/// Which wire an interest is for.
pub enum FeedKind {
    YouTube,
    News,
    Nothing,
}

pub open spec fn spec_feed_kind(kind: Seq<char>) -> FeedKind {
    if kind == "youtube_channel"@ {
        FeedKind::YouTube
    } else if kind == "topic"@ || kind == "person"@ {
        FeedKind::News
    } else {
        FeedKind::Nothing
    }
}

pub fn feed_kind(kind: &str) -> (r: FeedKind)
    ensures
        r == spec_feed_kind(kind@),
{
    if str_eq(kind, "youtube_channel") {
        FeedKind::YouTube
    } else if str_eq(kind, "topic") || str_eq(kind, "person") {
        FeedKind::News
    } else {
        FeedKind::Nothing
    }
}

/// The channel remembered for a key, when the cache has one. The cache
/// holds each key once.
pub open spec fn cache_get(cache: Seq<(Seq<char>, Seq<char>)>, key: Seq<char>) -> Option<Seq<char>>
    decreases cache.len(),
{
    if cache.len() == 0 {
        None
    } else if cache.last().0 == key {
        Some(cache.last().1)
    } else {
        cache_get(cache.drop_last(), key)
    }
}

pub fn cached_channel(cache: &Vec<(String, String)>, value: &str) -> (r: Option<String>)
    ensures
        r.deep_view() == cache_get(cache.deep_view(), trim(value@)),
{
    let key = crate::text::str_trim(value);
    let ghost cv = cache.deep_view();
    let mut k: usize = cache.len();
    assert(cv.take(k as int) =~= cv);
    while k > 0
        invariant
            k <= cache.len(),
            cv == cache.deep_view(),
            key@ == trim(value@),
            cache_get(cv, key@) == cache_get(cv.take(k as int), key@),
        decreases k,
    {
        assert(cv.take(k as int).last() == cv[k - 1]);
        assert(cv.take(k as int).drop_last() =~= cv.take(k - 1));
        assert(cv[k - 1] == (cache@[k - 1].0@, cache@[k - 1].1@));
        if str_eq(cache[k - 1].0.as_str(), key.as_str()) {
            return Some(owned(cache[k - 1].1.as_str()));
        }
        k = k - 1;
    }
    assert(cv.take(0) =~= Seq::<(Seq<char>, Seq<char>)>::empty());
    None
}

/// The channel's feed.
pub fn channel_feed_url(channel_id: &str) -> (r: String)
    ensures
        r@ == "https://www.youtube.com/feeds/videos.xml?channel_id="@ + channel_id@,
{
    str_concat("https://www.youtube.com/feeds/videos.xml?channel_id=", channel_id)
}

/// The note when a channel cannot be found.
pub fn channel_missing_note(name: &str, key: &str) -> (r: String)
    ensures
        r@ == "Couldn't find the YouTube channel \""@ + name@ + "\" ("@ + key@
            + "). Fix the handle in Edit Interests."@,
{
    let a = str_concat("Couldn't find the YouTube channel \"", name);
    let b = str_concat(a.as_str(), "\" (");
    let c = str_concat(b.as_str(), key);
    str_concat(c.as_str(), "). Fix the handle in Edit Interests.")
}

/// The note when a channel's feed cannot be fetched (`err` says why).
pub fn feed_failed_note(name: &str, err: &str) -> (r: String)
    ensures
        r@ == "YouTube feed for \""@ + name@ + "\" failed: "@ + err@,
{
    let a = str_concat("YouTube feed for \"", name);
    let b = str_concat(a.as_str(), "\" failed: ");
    str_concat(b.as_str(), err)
}

/// What a news search looks for: the interest's own query when it has one,
/// else its name.
pub open spec fn spec_news_query(value: Seq<char>, name: Seq<char>) -> Seq<char> {
    if trim(value).len() == 0 {
        name
    } else {
        trim(value)
    }
}

pub fn news_query(value: &str, name: &str) -> (r: String)
    ensures
        r@ == spec_news_query(value@, name@),
{
    let v = crate::text::str_trim(value);
    if v.as_str().is_empty() {
        owned(name)
    } else {
        v
    }
}

pub fn pair(k: &str, v: &str) -> (r: (String, String))
    ensures
        r.0@ == k@,
        r.1@ == v@,
{
    (owned(k), owned(v))
}

/// Bing's news search as RSS, in US English.
pub open spec fn bing_params(query: Seq<char>) -> Seq<(Seq<char>, Seq<char>)> {
    seq![("q"@, query), ("format"@, "rss"@), ("setlang"@, "en-US"@), ("cc"@, "US"@)]
}

/// Google News as the backup, limited to the last few days.
pub open spec fn google_params(query: Seq<char>) -> Seq<(Seq<char>, Seq<char>)> {
    seq![
        ("q"@, query + " when:"@ + crate::text::decimal(NEWS_MAX_AGE_DAYS as nat) + "d"@),
        ("hl"@, "en-US"@),
        ("gl"@, "US"@),
        ("ceid"@, "US:en"@),
    ]
}

pub fn bing_search_url(query: &str) -> (r: Option<String>)
    ensures
        r.deep_view() == spec_url_with_params("https://www.bing.com/news/search"@, bing_params(query@)),
{
    let mut ps: Vec<(String, String)> = Vec::new();
    ps.push(pair("q", query));
    ps.push(pair("format", "rss"));
    ps.push(pair("setlang", "en-US"));
    ps.push(pair("cc", "US"));
    assert(ps.deep_view() =~= bing_params(query@));
    url_with_params("https://www.bing.com/news/search", &ps)
}

pub fn google_search_url(query: &str) -> (r: Option<String>)
    ensures
        r.deep_view() == spec_url_with_params("https://news.google.com/rss/search"@, google_params(query@)),
{
    let days = crate::text::decimal_u64(NEWS_MAX_AGE_DAYS as u64);
    let a = str_concat(query, " when:");
    let b = str_concat(a.as_str(), days.as_str());
    let q = str_concat(b.as_str(), "d");
    let mut ps: Vec<(String, String)> = Vec::new();
    ps.push(pair("q", q.as_str()));
    ps.push(pair("hl", "en-US"));
    ps.push(pair("gl", "US"));
    ps.push(pair("ceid", "US:en"));
    assert(ps.deep_view() =~= google_params(query@));
    url_with_params("https://news.google.com/rss/search", &ps)
}

/// The note when both news searches failed (`errors` say why, in order).
pub fn news_failed_note(name: &str, errors: &[String]) -> (r: String)
    ensures
        r@ == "News wire for \""@ + name@ + "\" failed ("@ + crate::text::join(errors.deep_view(), "; "@) + ")"@,
{
    let ghost ev = errors.deep_view();
    let mut joined = String::new();
    let mut k: usize = 0;
    assert(ev.take(0) =~= Seq::<Seq<char>>::empty());
    while k < errors.len()
        invariant
            k <= errors.len(),
            ev == errors.deep_view(),
            joined@ == crate::text::join(ev.take(k as int), "; "@),
        decreases errors.len() - k,
    {
        assert(ev.take(k + 1).drop_last() =~= ev.take(k as int));
        assert(ev.take(k + 1).last() == errors@[k as int]@);
        if k > 0 {
            joined.append("; ");
        }
        joined.append(errors[k].as_str());
        assert(joined@ =~= crate::text::join(ev.take(k + 1), "; "@));
        k = k + 1;
    }
    assert(ev.take(k as int) =~= ev);
    let a = str_concat("News wire for \"", name);
    let b = str_concat(a.as_str(), "\" failed (");
    let c = str_concat(b.as_str(), joined.as_str());
    str_concat(c.as_str(), ")")
}

/// What a news search gave once its feeds were fetched (`entries`, from the
/// search that answered; `errors`, why the others failed): when nothing came
/// and a search failed, no items and the failure note; otherwise the
/// entries as wire copy for the interest `name` and no note.
pub fn news_outcome(name: &str, entries: &Vec<FeedEntry>, errors: &[String], now_secs: i64, now_nanos: u32) -> (r: FeedOutcome)
    requires
        now_nanos < 2_000_000_000,
    ensures
        r.resolved is None,
        entries@.len() == 0 && errors@.len() > 0 ==> {
            &&& r.items@.len() == 0
            &&& r.note.deep_view() == Some(
                "News wire for \""@ + name@ + "\" failed ("@ + crate::text::join(errors.deep_view(), "; "@) + ")"@,
            )
        },
        !(entries@.len() == 0 && errors@.len() > 0) ==> {
            &&& item_views(r.items@) == spec_news_items(entry_views(entries@), name@, now_secs as int, now_nanos as int)
            &&& r.note is None
        },
{
    if entries.len() == 0 && errors.len() > 0 {
        FeedOutcome { items: Vec::new(), note: Some(news_failed_note(name, errors)), resolved: None }
    } else {
        FeedOutcome { items: news_items(entries, name, now_secs, now_nanos), note: None, resolved: None }
    }
}

/// A page's share picture: its `og:image` (or `twitter:image`) resolved
/// against the address the page finally came from.
pub open spec fn spec_og_image_link(final_url: Seq<char>, html: Seq<char>) -> Option<Seq<char>> {
    match spec_og_image(html) {
        Some(raw) => spec_url_join(final_url, raw),
        None => None,
    }
}

pub fn og_image_link(final_url: &str, html: &str) -> (r: Option<String>)
    ensures
        r.deep_view() == spec_og_image_link(final_url@, html@),
{
    match og_image_from_html(html) {
        Some(raw) => url_join(final_url, raw.as_str()),
        None => None,
    }
}

/// What one interest's feed gave.
pub struct FeedOutcome {
    pub items: Vec<WireItem>,
    pub note: Option<String>,
    /// (the interest's value, its channel id) to remember.
    pub resolved: Option<(String, String)>,
}

/// The wire copy of one press of Refresh.
pub struct WireResult {
    pub items: Vec<WireItem>,
    pub notes: Vec<String>,
}

pub open spec fn outcome_items(os: Seq<FeedOutcome>) -> Seq<WireItemView>
    decreases os.len(),
{
    if os.len() == 0 {
        Seq::empty()
    } else {
        outcome_items(os.drop_last()) + item_views(os.last().items@)
    }
}

pub open spec fn outcome_notes(os: Seq<FeedOutcome>) -> Seq<Seq<char>>
    decreases os.len(),
{
    if os.len() == 0 {
        Seq::empty()
    } else {
        match os.last().note {
            Some(n) => outcome_notes(os.drop_last()).push(n@),
            None => outcome_notes(os.drop_last()),
        }
    }
}

/// The cache with `(k, v)` in it: a key already there gets the new value in
/// its place; a new key goes at the end.
pub open spec fn cache_put(cache: Seq<(Seq<char>, Seq<char>)>, k: Seq<char>, v: Seq<char>) -> Seq<(Seq<char>, Seq<char>)> {
    if exists|j: int| 0 <= j < cache.len() && cache[j].0 == k {
        let j = choose|j: int| 0 <= j < cache.len() && cache[j].0 == k;
        cache.update(j, (k, v))
    } else {
        cache.push((k, v))
    }
}

pub open spec fn outcome_cache(cache: Seq<(Seq<char>, Seq<char>)>, os: Seq<FeedOutcome>) -> Seq<(Seq<char>, Seq<char>)>
    decreases os.len(),
{
    if os.len() == 0 {
        cache
    } else {
        let c = outcome_cache(cache, os.drop_last());
        match os.last().resolved {
            Some((k, v)) => cache_put(c, k@, v@),
            None => c,
        }
    }
}

/// Each key once.
pub open spec fn keys_unique(cache: Seq<(Seq<char>, Seq<char>)>) -> bool {
    forall|i: int, j: int| 0 <= i < j < cache.len() ==> cache[i].0 != cache[j].0
}

fn put_in_cache(cache: &mut Vec<(String, String)>, k: &str, v: &str)
    requires
        keys_unique(old(cache).deep_view()),
    ensures
        final(cache).deep_view() == cache_put(old(cache).deep_view(), k@, v@),
        keys_unique(final(cache).deep_view()),
{
    let ghost cv = cache.deep_view();
    let mut j: usize = 0;
    while j < cache.len()
        invariant
            j <= cache.len(),
            cv == cache.deep_view(),
            cv == old(cache).deep_view(),
            keys_unique(cv),
            forall|i: int| 0 <= i < j ==> cv[i].0 != k@,
        decreases cache.len() - j,
    {
        assert(cv[j as int] == (cache@[j as int].0@, cache@[j as int].1@));
        if str_eq(cache[j].0.as_str(), k) {
            let ghost jj = j as int;
            assert(cv[jj].0 == k@);
            assert(exists|i: int| 0 <= i < cv.len() && cv[i].0 == k@);
            let ghost chosen = choose|i: int| 0 <= i < cv.len() && cv[i].0 == k@;
            assert(chosen == jj) by {
                if chosen != jj {
                    if chosen < jj {
                        assert(cv[chosen].0 != cv[jj].0);
                    } else {
                        assert(cv[jj].0 != cv[chosen].0);
                    }
                }
            }
            assert(cache_put(cv, k@, v@) == cv.update(jj, (k@, v@)));
            cache.set(j, pair(k, v));
            assert(cache.deep_view() =~= cv.update(jj, (k@, v@)));
            return;
        }
        j = j + 1;
    }
    cache.push(pair(k, v));
    assert(cache.deep_view() =~= cv.push((k@, v@)));
}

/// Puts the feeds' outcomes together: their items (de-duplicated by link,
/// the first kept), their notes, and the cache with the channels newly
/// found; the cache is given back for saving only when it grew.
pub fn merge_outcomes(cache: &Vec<(String, String)>, outcomes: Vec<FeedOutcome>) -> (r: (WireResult, Option<Vec<(String, String)>>))
    requires
        keys_unique(cache.deep_view()),
    ensures
        item_views(r.0.items@) == dedupe(outcome_items(outcomes@)),
        r.0.notes.deep_view() == outcome_notes(outcomes@),
        match r.1 {
            Some(c) => c.deep_view() == outcome_cache(cache.deep_view(), outcomes@)
                && outcome_cache(cache.deep_view(), outcomes@).len() != cache.deep_view().len(),
            None => outcome_cache(cache.deep_view(), outcomes@).len() == cache.deep_view().len(),
        },
{
    let mut items: Vec<WireItem> = Vec::new();
    let mut notes: Vec<String> = Vec::new();
    let mut new_cache: Vec<(String, String)> = Vec::new();
    let mut c: usize = 0;
    while c < cache.len()
        invariant
            c <= cache.len(),
            new_cache.deep_view() == cache.deep_view().take(c as int),
        decreases cache.len() - c,
    {
        let ghost before = new_cache.deep_view();
        let p = pair(cache[c].0.as_str(), cache[c].1.as_str());
        new_cache.push(p);
        assert(cache.deep_view()[c as int] == (cache@[c as int].0@, cache@[c as int].1@));
        assert(new_cache.deep_view() =~= before.push((cache@[c as int].0@, cache@[c as int].1@)));
        assert(cache.deep_view().take(c + 1) =~= cache.deep_view().take(c as int).push(cache.deep_view()[c as int]));
        c = c + 1;
    }
    assert(cache.deep_view().take(c as int) =~= cache.deep_view());
    let ghost os = outcomes@;
    let mut k: usize = 0;
    assert(os.take(0) =~= Seq::<FeedOutcome>::empty());
    assert(item_views(items@) =~= Seq::<WireItemView>::empty());
    assert(notes.deep_view() =~= Seq::<Seq<char>>::empty());
    while k < outcomes.len()
        invariant
            k <= outcomes.len(),
            os == outcomes@,
            item_views(items@) == outcome_items(os.take(k as int)),
            notes.deep_view() == outcome_notes(os.take(k as int)),
            new_cache.deep_view() == outcome_cache(cache.deep_view(), os.take(k as int)),
            keys_unique(new_cache.deep_view()),
        decreases outcomes.len() - k,
    {
        assert(os.take(k + 1).drop_last() =~= os.take(k as int));
        assert(os.take(k + 1).last() == os[k as int]);
        let o = &outcomes[k];
        let mut j: usize = 0;
        let ghost start = item_views(items@);
        while j < o.items.len()
            invariant
                j <= o.items.len(),
                item_views(items@) == start + item_views(o.items@).take(j as int),
            decreases o.items.len() - j,
        {
            let w = o.items[j].copy();
            let ghost before = item_views(items@);
            items.push(w);
            assert(item_views(items@) =~= before.push(w@));
            assert(item_views(o.items@).take(j + 1) =~= item_views(o.items@).take(j as int).push(o.items@[j as int]@));
            j = j + 1;
        }
        assert(item_views(o.items@).take(j as int) =~= item_views(o.items@));
        match &o.note {
            Some(n) => {
                let ghost before = notes.deep_view();
                notes.push(owned(n.as_str()));
                assert(notes.deep_view() =~= before.push(n@));
            },
            None => {},
        }
        match &o.resolved {
            Some((key, id)) => {
                put_in_cache(&mut new_cache, key.as_str(), id.as_str());
            },
            None => {},
        }
        k = k + 1;
    }
    assert(os.take(k as int) =~= os);
    let deduped = dedupe_by_url(&items);
    let grew = new_cache.len() != cache.len();
    (WireResult { items: deduped, notes }, if grew {
        Some(new_cache)
    } else {
        None
    })
}

} // verus!
