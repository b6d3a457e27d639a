//! Shared data types: interests, settings, wire copy, cards, status events.
//! Each type that contracts speak of has a view made of sequences of
//! characters.

use vstd::prelude::*;

use crate::text::owned;

verus! {

// ---------------------------------------------------------------- interests

/// One thing the reader cares about. `kind` tells the wire service what to do
/// with it; every interest (whatever its kind) is also handed to the editors.
#[derive(Clone, Debug)]
pub struct Interest {
    pub id: String,
    pub name: String,
    /// "topic" | "person" | "youtube_channel" | "x_account"
    pub kind: String,
    /// youtube_channel: "@handle", a channel URL, or a "UC..." channel id.
    /// x_account: "@handle". topic/person: optional custom news search query.
    pub value: String,
    /// Free-text guidance for the editor ("long-form interviews only").
    pub notes: String,
    pub enabled: bool,
}

pub struct InterestView {
    pub id: Seq<char>,
    pub name: Seq<char>,
    pub kind: Seq<char>,
    pub value: Seq<char>,
    pub notes: Seq<char>,
    pub enabled: bool,
}

impl View for Interest {
    type V = InterestView;

    open spec fn view(&self) -> InterestView {
        InterestView {
            id: self.id@,
            name: self.name@,
            kind: self.kind@,
            value: self.value@,
            notes: self.notes@,
            enabled: self.enabled,
        }
    }
}

impl Interest {
    /// A copy with the same text in every field.
    pub fn copy(&self) -> (r: Interest)
        ensures
            r@ == self@,
    {
        Interest {
            id: owned(&self.id),
            name: owned(&self.name),
            kind: owned(&self.kind),
            value: owned(&self.value),
            notes: owned(&self.notes),
            enabled: self.enabled,
        }
    }
}

#[derive(Clone, Debug)]
pub struct InterestsFile {
    pub version: u32,
    pub interests: Vec<Interest>,
}

/// The kind an interest gets when the file does not say: "topic".
pub fn default_kind() -> (r: String)
    ensures
        r@ == "topic"@,
{
    owned("topic")
}

/// Interests are switched on unless the file says otherwise.
pub fn default_true() -> (r: bool)
    ensures
        r,
{
    true
}

/// The interests file format version when the file does not say: 1.
pub fn default_version() -> (r: u32)
    ensures
        r == 1,
{
    1
}

// ----------------------------------------------------------------- settings

/// `settings.json` in the app data folder. Every field has a default, so the
/// file does not need to exist.
#[derive(Clone, Debug)]
pub struct Settings {
    /// Absolute path to the editor CLI's binary. Empty = auto-detect.
    pub claude_bin: String,
    /// Absolute path to the `grok` binary. Empty = auto-detect.
    pub grok_bin: String,
    /// Model for the editor. Empty = "sonnet"; "default" = whatever the CLI is set to.
    pub claude_model: String,
    /// `--effort` for the editor: "low" (default), "medium", "high"; "default" = leave it to the CLI.
    pub claude_effort: String,
    /// Use the Grok Build CLI for the X wire when it is installed.
    pub use_grok: bool,
    /// Reader popups float above other windows.
    pub reader_always_on_top: bool,
    /// Upper bound on cards per edition.
    pub max_cards: usize,
    /// Hard stop for the editor run, seconds.
    pub claude_timeout_secs: u64,
    /// Hard stop for the Grok run, seconds.
    pub grok_timeout_secs: u64,
    /// MLB team for the score bug in the top bar. 119 = Dodgers. 0 = off.
    pub mlb_team_id: u32,
    /// Block ads in the reader windows (never on YouTube or X).
    pub block_ads: bool,
    /// First name for the masthead ("<Name>'s Daily").
    pub owner_name: String,
    /// City for the dateline. Empty = no city.
    pub city: String,
    /// The welcome pages have been seen (or skipped).
    pub onboarded: bool,
    /// Print automatically after the scheduled morning refresh.
    pub print_daily: bool,
    /// Printer name. Empty = the system default.
    pub printer: String,
    /// Colour photos on paper. Default is black & white.
    pub print_color: bool,
    /// A QR code per story, since paper can't be clicked.
    pub print_qr: bool,
    pub print_duplex: bool,
    /// Never send more than this many pages to the printer. 0 = no cap.
    pub print_max_pages: u32,
    /// Chromium-family browser used to make the PDF. Empty = auto-detect.
    pub chrome_bin: String,
    /// Windows: SumatraPDF.exe, which sends the PDF to the printer. Empty = auto-detect.
    pub sumatra_bin: String,
}

/// The settings a new install starts with.
pub open spec fn is_default_settings(s: Settings) -> bool {
    &&& s.claude_bin@ == Seq::<char>::empty()
    &&& s.grok_bin@ == Seq::<char>::empty()
    &&& s.claude_model@ == Seq::<char>::empty()
    &&& s.claude_effort@ == "low"@
    &&& s.use_grok
    &&& s.reader_always_on_top
    &&& s.max_cards == 30
    &&& s.claude_timeout_secs == 600
    &&& s.grok_timeout_secs == 240
    &&& s.mlb_team_id == 119
    &&& s.block_ads
    &&& s.owner_name@ == Seq::<char>::empty()
    &&& s.city@ == "Los Angeles"@
    &&& !s.onboarded
    &&& !s.print_daily
    &&& s.printer@ == Seq::<char>::empty()
    &&& !s.print_color
    &&& s.print_qr
    &&& s.print_duplex
    &&& s.print_max_pages == 8
    &&& s.chrome_bin@ == Seq::<char>::empty()
    &&& s.sumatra_bin@ == Seq::<char>::empty()
}

impl Default for Settings {
    fn default() -> (s: Self)
        ensures
            is_default_settings(s),
    {
        Settings {
            claude_bin: String::new(),
            grok_bin: String::new(),
            claude_model: String::new(),
            claude_effort: owned("low"),
            use_grok: true,
            reader_always_on_top: true,
            max_cards: 30,
            claude_timeout_secs: 600,
            grok_timeout_secs: 240,
            mlb_team_id: 119,
            block_ads: true,
            owner_name: String::new(),
            city: owned("Los Angeles"),
            onboarded: false,
            print_daily: false,
            printer: String::new(),
            print_color: false,
            print_qr: true,
            print_duplex: true,
            print_max_pages: 8,
            chrome_bin: String::new(),
            sumatra_bin: String::new(),
        }
    }
}

// ---------------------------------------------------------------- wire copy

/// A raw item from a feed or from Grok, before the editor touches it.
#[derive(Clone, Debug)]
pub struct WireItem {
    /// "video" | "article" | "post"
    pub kind: String,
    pub title: String,
    pub url: String,
    pub source: String,
    pub author: Option<String>,
    pub published: Option<String>,
    pub summary: Option<String>,
    pub image: Option<String>,
    /// Name of the interest that produced this item.
    pub beat: String,
}

pub struct WireItemView {
    pub kind: Seq<char>,
    pub title: Seq<char>,
    pub url: Seq<char>,
    pub source: Seq<char>,
    pub author: Option<Seq<char>>,
    pub published: Option<Seq<char>>,
    pub summary: Option<Seq<char>>,
    pub image: Option<Seq<char>>,
    pub beat: Seq<char>,
}

impl View for WireItem {
    type V = WireItemView;

    open spec fn view(&self) -> WireItemView {
        WireItemView {
            kind: self.kind@,
            title: self.title@,
            url: self.url@,
            source: self.source@,
            author: self.author.deep_view(),
            published: self.published.deep_view(),
            summary: self.summary.deep_view(),
            image: self.image.deep_view(),
            beat: self.beat@,
        }
    }
}

/// A copy of an optional text.
pub fn opt_owned(s: &Option<String>) -> (r: Option<String>)
    ensures
        r.deep_view() == s.deep_view(),
{
    match s {
        Some(x) => Some(owned(x)),
        None => None,
    }
}

impl WireItem {
    /// A copy with the same text in every field.
    pub fn copy(&self) -> (r: WireItem)
        ensures
            r@ == self@,
    {
        WireItem {
            kind: owned(&self.kind),
            title: owned(&self.title),
            url: owned(&self.url),
            source: owned(&self.source),
            author: opt_owned(&self.author),
            published: opt_owned(&self.published),
            summary: opt_owned(&self.summary),
            image: opt_owned(&self.image),
            beat: owned(&self.beat),
        }
    }
}

impl Card {
    /// A copy with the same text in every field.
    pub fn copy(&self) -> (r: Card)
        ensures
            r@ == self@,
    {
        Card {
            id: owned(&self.id),
            kind: owned(&self.kind),
            size: owned(&self.size),
            section: owned(&self.section),
            headline: owned(&self.headline),
            dek: owned(&self.dek),
            story: opt_owned(&self.story),
            source: owned(&self.source),
            author: opt_owned(&self.author),
            url: owned(&self.url),
            video_url: opt_owned(&self.video_url),
            article_url: opt_owned(&self.article_url),
            image: opt_owned(&self.image),
            published: opt_owned(&self.published),
            why: opt_owned(&self.why),
        }
    }
}

impl Default for WireItem {
    fn default() -> (w: Self)
        ensures
            w@.kind.len() == 0 && w@.title.len() == 0 && w@.url.len() == 0 && w@.source.len()
                == 0 && w@.beat.len() == 0,
            w.author is None && w.published is None && w.summary is None && w.image is None,
    {
        WireItem {
            kind: String::new(),
            title: String::new(),
            url: String::new(),
            source: String::new(),
            author: None,
            published: None,
            summary: None,
            image: None,
            beat: String::new(),
        }
    }
}

// ------------------------------------------------------------------ edition

#[derive(Clone, Debug)]
pub struct Card {
    pub id: String,
    /// "article" | "video" | "post"
    pub kind: String,
    /// "lead" | "feature" | "brief"
    pub size: String,
    pub section: String,
    pub headline: String,
    /// One-sentence standfirst. For posts: the post's own text, verbatim.
    pub dek: String,
    /// The piece itself; paragraphs are separated by a blank line. Older
    /// editions don't have it.
    pub story: Option<String>,
    pub source: String,
    pub author: Option<String>,
    pub url: String,
    /// An article about a specific video: the video itself ("See the video").
    pub video_url: Option<String>,
    /// A video with a good write-up: that page ("Read more").
    pub article_url: Option<String>,
    pub image: Option<String>,
    pub published: Option<String>,
    pub why: Option<String>,
}

pub struct CardView {
    pub id: Seq<char>,
    pub kind: Seq<char>,
    pub size: Seq<char>,
    pub section: Seq<char>,
    pub headline: Seq<char>,
    pub dek: Seq<char>,
    pub story: Option<Seq<char>>,
    pub source: Seq<char>,
    pub author: Option<Seq<char>>,
    pub url: Seq<char>,
    pub video_url: Option<Seq<char>>,
    pub article_url: Option<Seq<char>>,
    pub image: Option<Seq<char>>,
    pub published: Option<Seq<char>>,
    pub why: Option<Seq<char>>,
}

impl View for Card {
    type V = CardView;

    open spec fn view(&self) -> CardView {
        CardView {
            id: self.id@,
            kind: self.kind@,
            size: self.size@,
            section: self.section@,
            headline: self.headline@,
            dek: self.dek@,
            story: self.story.deep_view(),
            source: self.source@,
            author: self.author.deep_view(),
            url: self.url@,
            video_url: self.video_url.deep_view(),
            article_url: self.article_url.deep_view(),
            image: self.image.deep_view(),
            published: self.published.deep_view(),
            why: self.why.deep_view(),
        }
    }
}

/// The views of a list of cards.
pub open spec fn card_views(cards: Seq<Card>) -> Seq<CardView> {
    cards.map_values(|c: Card| c@)
}

/// The views of a list of wire items.
pub open spec fn item_views(items: Seq<WireItem>) -> Seq<WireItemView> {
    items.map_values(|w: WireItem| w@)
}

/// The views of a list of interests.
pub open spec fn interest_views(items: Seq<Interest>) -> Seq<InterestView> {
    items.map_values(|i: Interest| i@)
}

// ------------------------------------------------------------------- status

#[derive(Clone, Debug)]
pub struct Status {
    /// "wire" | "grok" | "research" | "writing" | "content" | "done" | "error"
    pub stage: String,
    pub message: String,
    pub detail: Option<String>,
    /// Milliseconds since the Unix epoch.
    pub at: i64,
}

#[derive(Clone, Debug)]
pub struct Diagnostics {
    pub claude_path: Option<String>,
    pub grok_path: Option<String>,
    pub data_dir: String,
}

/// Whose paper this is, as the front end needs it.
#[derive(Clone, Debug)]
pub struct Profile {
    pub owner_name: String,
    /// "Sam's Daily"
    pub paper_name: String,
    pub city: String,
    pub mlb_team_id: u32,
    pub onboarded: bool,
}

} // verus!
