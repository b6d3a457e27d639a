//! The decisions of one press of Refresh, between the steps that fetch,
//! run and save: what the edition may start from, what the notes and status
//! lines say, which pictures the cards get, the edition's number, and whether
//! a scheduled run has anything to do. Also the tidying of the interests list
//! and of the profile fields when they are saved.

use vstd::prelude::*;

use crate::dates::{parse_rfc3339, spec_parse_rfc3339};
use crate::model::{card_views, interest_views, item_views, Card, CardView, Interest, InterestView, InterestsFile, WireItem, WireItemView};
use crate::text::{
    chars_of, decimal, decimal_string, decimal_u64, owned, starts_with, starts_with_exec, str_concat,
    str_eq, str_trim, string_of, trim, trim_vec,
};
use crate::wire::{div_toward_zero, spec_youtube_id, spec_youtube_thumb, trunc_div, youtube_id, youtube_thumb};

verus! {

// ------------------------------------------------------------ the start

pub const NO_INTERESTS: &'static str = "No interests are switched on. Add or enable some in Edit Interests.";

pub open spec fn any_enabled(s: Seq<InterestView>) -> bool {
    exists|k: int| 0 <= k < s.len() && #[trigger] s[k].enabled
}

/// An edition needs at least one interest switched on.
pub fn check_interests(interests: &[Interest]) -> (r: Result<(), String>)
    ensures
        r is Ok <==> any_enabled(interest_views(interests@)),
        r matches Err(m) ==> m@ == NO_INTERESTS@,
{
    let ghost iv = interest_views(interests@);
    let mut k: usize = 0;
    while k < interests.len()
        invariant
            k <= interests.len(),
            iv == interest_views(interests@),
            forall|j: int| 0 <= j < k ==> !(#[trigger] iv[j]).enabled,
        decreases interests.len() - k,
    {
        assert(iv[k as int] == interests@[k as int]@);
        if interests[k].enabled {
            assert(iv[k as int].enabled);
            return Ok(());
        }
        k = k + 1;
    }
    Err(owned(NO_INTERESTS))
}

/// The X wire's note when there is no Grok to run: not installed, or
/// switched off.
pub open spec fn spec_missing_grok_note(use_grok: bool) -> Seq<char> {
    if use_grok {
        GROK_MISSING@
    } else {
        GROK_OFF@
    }
}

/// The error when the editor CLI cannot be found.
pub const NO_EDITOR_CLI: &'static str = "Can't find the editor CLI. If it works in PowerShell, find its path there (where.exe) and put it in settings.json as claudeBin (use forward slashes or double the backslashes).";

pub const GROK_MISSING: &'static str = "X wire: Grok CLI not found. If you have SuperGrok, install it from PowerShell (irm https://x.ai/cli/install.ps1 | iex), run `grok login`, and the X Wire section fills in. The editor covered X as best it could.";

pub const GROK_OFF: &'static str = "X wire: Grok is switched off in settings.json.";

pub fn missing_grok_note(use_grok: bool) -> (r: String)
    ensures
        r@ == spec_missing_grok_note(use_grok),
{
    if use_grok {
        owned(GROK_MISSING)
    } else {
        owned(GROK_OFF)
    }
}

/// "12 feed items · 4 X posts"
pub fn wire_in_detail(feed_items: usize, x_posts: usize) -> (r: String)
    ensures
        r@ == decimal(feed_items as nat) + " feed items \u{b7} "@ + decimal(x_posts as nat) + " X posts"@,
{
    let a = str_concat(decimal_string(feed_items).as_str(), " feed items \u{b7} ");
    let b = str_concat(a.as_str(), decimal_string(x_posts).as_str());
    str_concat(b.as_str(), " X posts")
}

/// The edition's notes: the wire's, then the X wire's.
pub fn edition_notes(wire_notes: &[String], grok_note: Option<&str>) -> (r: Vec<String>)
    ensures
        r.deep_view() == wire_notes.deep_view() + match grok_note {
            Some(n) => seq![n@],
            None => Seq::<Seq<char>>::empty(),
        },
{
    let mut out: Vec<String> = Vec::new();
    let mut k: usize = 0;
    while k < wire_notes.len()
        invariant
            k <= wire_notes.len(),
            out.deep_view() == wire_notes.deep_view().take(k as int),
        decreases wire_notes.len() - k,
    {
        let ghost before = out.deep_view();
        out.push(owned(wire_notes[k].as_str()));
        assert(wire_notes.deep_view()[k as int] == wire_notes@[k as int]@);
        assert(out.deep_view() =~= before.push(wire_notes@[k as int]@));
        assert(wire_notes.deep_view().take(k + 1) =~= wire_notes.deep_view().take(k as int).push(
            wire_notes.deep_view()[k as int],
        ));
        k = k + 1;
    }
    assert(wire_notes.deep_view().take(k as int) =~= wire_notes.deep_view());
    match grok_note {
        Some(n) => {
            let ghost before = out.deep_view();
            out.push(owned(n));
            assert(out.deep_view() =~= before + seq![n@]);
        },
        None => {
            assert(out.deep_view() =~= out.deep_view() + Seq::<Seq<char>>::empty());
        },
    }
    out
}

/// The cap on cards the editor is given: the setting, kept between 8 and 60.
pub fn clamp_cards(max_cards: usize) -> (r: usize)
    ensures
        r == if max_cards < 8 {
            8
        } else if max_cards > 60 {
            60
        } else {
            max_cards
        },
{
    if max_cards < 8 {
        8
    } else if max_cards > 60 {
        60
    } else {
        max_cards
    }
}

// ------------------------------------------------------------ the copy desk

/// "Filling out 1 short story", "Filling out 3 short stories"
pub fn copy_desk_detail(short: usize) -> (r: String)
    ensures
        r@ == "Filling out "@ + decimal(short as nat) + (if short == 1 {
            " short story"@
        } else {
            " short stories"@
        }),
{
    let a = str_concat("Filling out ", decimal_string(short).as_str());
    if short == 1 {
        str_concat(a.as_str(), " short story")
    } else {
        str_concat(a.as_str(), " short stories")
    }
}

/// The note left when stories are still short after the rewrite.
pub fn leftover_note(left: usize, short: usize, fixed: usize) -> (r: Option<String>)
    ensures
        left == 0 ==> r is None,
        left > 0 ==> (r matches Some(n) && n@ == decimal(left as nat) + " of "@ + decimal(short as nat)
            + " short stories couldn't be filled out from the research ("@ + decimal(fixed as nat) + " were)."@),
{
    if left == 0 {
        return None;
    }
    let a = str_concat(decimal_string(left).as_str(), " of ");
    let b = str_concat(a.as_str(), decimal_string(short).as_str());
    let c = str_concat(b.as_str(), " short stories couldn't be filled out from the research (");
    let d = str_concat(c.as_str(), decimal_string(fixed).as_str());
    Some(str_concat(d.as_str(), " were)."))
}

// --------------------------------------------------------------- pictures

/// The picture the wire had for a link: that of the last item with the link
/// and a picture.
pub open spec fn wire_image(items: Seq<WireItemView>, url: Seq<char>) -> Option<Seq<char>>
    decreases items.len(),
{
    if items.len() == 0 {
        None
    } else if items.last().url == url && items.last().image is Some {
        items.last().image
    } else {
        wire_image(items.drop_last(), url)
    }
}

/// A card's picture before any page is fetched: a video shows its own
/// thumbnail; another card keeps its picture, else takes the wire's, else
/// the thumbnail of the video it is about.
pub open spec fn with_image(c: CardView, items: Seq<WireItemView>) -> CardView {
    if c.kind == "video"@ {
        match spec_youtube_id(c.url) {
            Some(id) => CardView { image: Some(spec_youtube_thumb(id)), ..c },
            None => c,
        }
    } else if c.image is None {
        match wire_image(items, c.url) {
            Some(img) => CardView { image: Some(img), ..c },
            None => match c.video_url {
                Some(v) => match spec_youtube_id(v) {
                    Some(id) => CardView { image: Some(spec_youtube_thumb(id)), ..c },
                    None => c,
                },
                None => c,
            },
        }
    } else {
        c
    }
}

fn wire_image_exec(items: &[WireItem], url: &str) -> (r: Option<String>)
    ensures
        r.deep_view() == wire_image(item_views(items@), url@),
{
    let ghost iv = item_views(items@);
    let mut k: usize = items.len();
    assert(iv.take(k as int) =~= iv);
    while k > 0
        invariant
            k <= items.len(),
            iv == item_views(items@),
            wire_image(iv, url@) == wire_image(iv.take(k as int), url@),
        decreases k,
    {
        assert(iv.take(k as int).last() == iv[k - 1]);
        assert(iv.take(k as int).drop_last() =~= iv.take(k - 1));
        assert(iv[k - 1] == items@[k - 1]@);
        let w = &items[k - 1];
        if str_eq(w.url.as_str(), url) {
            match &w.image {
                Some(img) => {
                    return Some(owned(img.as_str()));
                },
                None => {},
            }
        }
        k = k - 1;
    }
    assert(iv.take(0) =~= Seq::<WireItemView>::empty());
    None
}

fn image_for(c: &Card, items: &[WireItem]) -> (r: Card)
    ensures
        r@ == with_image(c@, item_views(items@)),
{
    let mut out = c.copy();
    if str_eq(c.kind.as_str(), "video") {
        match youtube_id(c.url.as_str()) {
            Some(id) => {
                out.image = Some(youtube_thumb(id.as_str()));
            },
            None => {},
        }
    } else if c.image.is_none() {
        match wire_image_exec(items, c.url.as_str()) {
            Some(img) => {
                out.image = Some(img);
            },
            None => match &c.video_url {
                Some(v) => match youtube_id(v.as_str()) {
                    Some(id) => {
                        out.image = Some(youtube_thumb(id.as_str()));
                    },
                    None => {},
                },
                None => {},
            },
        }
    }
    out
}

/// Gives each card the picture it can have without fetching a page.
pub fn assign_images(cards: &mut Vec<Card>, items: &[WireItem])
    ensures
        card_views(final(cards)@) == card_views(old(cards)@).map_values(
            |c: CardView| with_image(c, item_views(items@)),
        ),
{
    let ghost before = card_views(cards@);
    let mut k: usize = 0;
    while k < cards.len()
        invariant
            k <= cards.len(),
            before.len() == cards.len(),
            forall|j: int| 0 <= j < k ==> #[trigger] cards@[j]@ == with_image(before[j], item_views(items@)),
            forall|j: int| k <= j < cards.len() ==> #[trigger] cards@[j]@ == before[j],
            before == card_views(old(cards)@),
        decreases cards.len() - k,
    {
        let c = image_for(&cards[k], items);
        cards.set(k, c);
        k = k + 1;
    }
    assert(card_views(cards@) =~= before.map_values(|c: CardView| with_image(c, item_views(items@))));
}

/// Cards big enough to show a picture that still have none: articles that
/// are not briefs. Only these are worth fetching a page for.
pub open spec fn wants_picture(c: CardView) -> bool {
    c.kind == "article"@ && c.image is None && c.size != "brief"@
}

pub open spec fn wanting_upto(cards: Seq<CardView>, n: int) -> Seq<usize>
    decreases n,
{
    if n <= 0 {
        Seq::empty()
    } else if wants_picture(cards[n - 1]) {
        wanting_upto(cards, n - 1).push((n - 1) as usize)
    } else {
        wanting_upto(cards, n - 1)
    }
}

/// The positions of the cards worth fetching a picture for, in order.
pub fn cards_needing_images(cards: &[Card]) -> (r: Vec<usize>)
    ensures
        r@ == wanting_upto(card_views(cards@), cards@.len() as int),
{
    let ghost cv = card_views(cards@);
    let mut out: Vec<usize> = Vec::new();
    let mut k: usize = 0;
    while k < cards.len()
        invariant
            k <= cards.len(),
            cv == card_views(cards@),
            out@ == wanting_upto(cv, k as int),
        decreases cards.len() - k,
    {
        assert(cv[k as int] == cards@[k as int]@);
        let c = &cards[k];
        if str_eq(c.kind.as_str(), "article") && c.image.is_none() && !str_eq(c.size.as_str(), "brief") {
            out.push(k);
        }
        k = k + 1;
    }
    out
}

/// The cards with the pictures the pages gave: card `i` takes `img` for each
/// `(i, img)` found, in order.
pub open spec fn with_found(cards: Seq<CardView>, found: Seq<(usize, Option<Seq<char>>)>) -> Seq<CardView>
    decreases found.len(),
{
    if found.len() == 0 {
        cards
    } else {
        let r = with_found(cards, found.drop_last());
        let (i, img) = found.last();
        r.update(i as int, CardView { image: img, ..r[i as int] })
    }
}

pub open spec fn found_view(f: Seq<(usize, Option<String>)>) -> Seq<(usize, Option<Seq<char>>)> {
    f.map_values(|p: (usize, Option<String>)| (p.0, p.1.deep_view()))
}

/// Puts the pictures found on the cards' pages onto the cards.
pub fn set_found_images(cards: &mut Vec<Card>, found: Vec<(usize, Option<String>)>)
    requires
        forall|k: int| 0 <= k < found@.len() ==> #[trigger] found@[k].0 < old(cards)@.len(),
    ensures
        card_views(final(cards)@) == with_found(card_views(old(cards)@), found_view(found@)),
{
    let ghost fv = found_view(found@);
    let ghost start = card_views(cards@);
    let mut k: usize = 0;
    assert(fv.take(0) =~= Seq::<(usize, Option<Seq<char>>)>::empty());
    while k < found.len()
        invariant
            k <= found.len(),
            fv == found_view(found@),
            fv.len() == found.len(),
            forall|j: int| 0 <= j < found@.len() ==> #[trigger] found@[j].0 < cards@.len(),
            cards@.len() == start.len(),
            card_views(cards@) == with_found(start, fv.take(k as int)),
        decreases found.len() - k,
    {
        assert(fv.take(k + 1).drop_last() =~= fv.take(k as int));
        assert(fv.take(k + 1).last() == fv[k as int]);
        let i = found[k].0;
        let img = match &found[k].1 {
            Some(s) => Some(owned(s.as_str())),
            None => None,
        };
        let mut c = cards[i].copy();
        c.image = img;
        let ghost before = card_views(cards@);
        cards.set(i, c);
        assert(card_views(cards@) =~= before.update(i as int, c@));
        k = k + 1;
    }
    assert(fv.take(k as int) =~= fv);
}

/// A plain-http picture is asked for over https: the app's web view blocks
/// plain http, nearly every image host answers on https, and a miss only
/// hides the picture.
pub open spec fn upgraded(c: CardView) -> CardView {
    match c.image {
        Some(img) => if starts_with(img, "http://"@) {
            CardView { image: Some("https://"@ + img.skip(7)), ..c }
        } else {
            c
        },
        None => c,
    }
}

pub fn upgrade_images(cards: &mut Vec<Card>)
    ensures
        card_views(final(cards)@) == card_views(old(cards)@).map_values(|c: CardView| upgraded(c)),
{
    let ghost before = card_views(cards@);
    let mut k: usize = 0;
    while k < cards.len()
        invariant
            k <= cards.len(),
            before.len() == cards.len(),
            forall|j: int| 0 <= j < k ==> #[trigger] cards@[j]@ == upgraded(before[j]),
            forall|j: int| k <= j < cards.len() ==> #[trigger] cards@[j]@ == before[j],
            before == card_views(old(cards)@),
        decreases cards.len() - k,
    {
        let mut c = cards[k].copy();
        let change = match &c.image {
            Some(img) => {
                let v = chars_of(img.as_str());
                let p = chars_of("http://");
                proof {
                    reveal_strlit("http://");
                }
                if starts_with_exec(v.as_slice(), p.as_slice()) {
                    let rest = crate::text::slice_vec(v.as_slice(), 7, v.len());
                    let r = string_of(rest.as_slice());
                    assert(r@ =~= img@.skip(7));
                    Some(str_concat("https://", r.as_str()))
                } else {
                    None
                }
            },
            None => None,
        };
        match change {
            Some(x) => {
                c.image = Some(x);
            },
            None => {},
        }
        cards.set(k, c);
        k = k + 1;
    }
    assert(card_views(cards@) =~= before.map_values(|c: CardView| upgraded(c)));
}

// -------------------------------------------------------------- the end

/// "12 stories · 95s"
pub fn done_detail(stories: usize, secs: u64) -> (r: String)
    ensures
        r@ == decimal(stories as nat) + " stories \u{b7} "@ + decimal(secs as nat) + "s"@,
{
    let a = str_concat(decimal_string(stories).as_str(), " stories \u{b7} ");
    let b = str_concat(a.as_str(), decimal_u64(secs).as_str());
    str_concat(b.as_str(), "s")
}

/// "Edition ready: 12 stories in 95s."
pub fn ready_line(stories: usize, secs: u64) -> (r: String)
    ensures
        r@ == "Edition ready: "@ + decimal(stories as nat) + " stories in "@ + decimal(secs as nat) + "s."@,
{
    let a = str_concat("Edition ready: ", decimal_string(stories).as_str());
    let b = str_concat(a.as_str(), " stories in ");
    let c = str_concat(b.as_str(), decimal_u64(secs).as_str());
    str_concat(c.as_str(), "s.")
}

// --------------------------------------------------------------- headless

/// Whole hours from `then` to `now` as `chrono` counts them
/// (`signed_duration_since(..).num_hours()`): toward zero.
pub open spec fn hours_between(now_secs: int, now_nanos: int, then_secs: int, then_nanos: int) -> int {
    let total = (now_secs - then_secs) * 1_000_000_000 + (now_nanos - then_nanos);
    div_toward_zero(div_toward_zero(total, 1_000_000_000), 3600)
}

/// An edition made less than three hours before `now` is fresh: a
/// scheduled run that fires again on wake leaves it alone. An edition whose
/// time cannot be read is not fresh.
pub open spec fn spec_is_fresh(generated_at: Seq<char>, now_secs: int, now_nanos: int) -> bool {
    match spec_parse_rfc3339(generated_at) {
        Some(t) => hours_between(now_secs, now_nanos, t.0 as int, t.1 as int) < 3,
        None => false,
    }
}

pub fn is_fresh(generated_at: &str, now_secs: i64, now_nanos: u32) -> (r: bool)
    requires
        now_nanos < 2_000_000_000,
    ensures
        r == spec_is_fresh(generated_at@, now_secs as int, now_nanos as int),
{
    match parse_rfc3339(generated_at) {
        Some(p) => {
            let ds = (now_secs as i128) - (p.secs as i128);
            let dn = (now_nanos as i128) - (p.nanos as i128);
            assert(ds * 1_000_000_000 <= 0x1_0000_0000_0000_0000 * 1_000_000_000) by (nonlinear_arith)
                requires
                    ds <= 0x1_0000_0000_0000_0000,
            ;
            assert(ds * 1_000_000_000 >= -0x1_0000_0000_0000_0000 * 1_000_000_000) by (nonlinear_arith)
                requires
                    ds >= -0x1_0000_0000_0000_0000,
            ;
            let total = ds * 1_000_000_000 + dn;
            let secs = trunc_div(total, 1_000_000_000);
            let hours = trunc_div(secs, 3600);
            hours < 3
        },
        None => false,
    }
}

/// Waiting for the network after a wake: probes `0..PROBE_ATTEMPTS`, ten
/// seconds apart.
pub const PROBE_ATTEMPTS: u32 = 18;

pub enum ProbeStep {
    /// On line: build the edition.
    Go,
    /// Not yet: wait and probe again, saying so the first time.
    Wait { say_waiting: bool },
    /// Still offline after the last attempt.
    GiveUp,
}

/// What to do after probe `attempt` (from 0) found the network `online` or
/// not.
pub fn probe_step(attempt: u32, online: bool) -> (r: ProbeStep)
    ensures
        online ==> r is Go,
        !online && attempt + 1 >= PROBE_ATTEMPTS ==> r is GiveUp,
        !online && attempt + 1 < PROBE_ATTEMPTS ==> (r matches ProbeStep::Wait { say_waiting } && say_waiting
            == (attempt == 0)),
{
    if online {
        ProbeStep::Go
    } else if attempt >= PROBE_ATTEMPTS - 1 {
        ProbeStep::GiveUp
    } else {
        ProbeStep::Wait { say_waiting: attempt == 0 }
    }
}

// ---------------------------------------------------------- saved lists

pub const KINDS: [&'static str; 4] = ["topic", "person", "youtube_channel", "x_account"];

pub open spec fn known_kind(k: Seq<char>) -> bool {
    k == "topic"@ || k == "person"@ || k == "youtube_channel"@ || k == "x_account"@
}

/// `n` in decimal with a minus sign when negative, as `{}` prints an `i64`.
pub open spec fn signed_decimal(n: int) -> Seq<char> {
    if n < 0 {
        "-"@ + decimal((-n) as nat)
    } else {
        decimal(n as nat)
    }
}

/// The id given to the interest at position `n` when it has none or a
/// taken one: "i<millis>-<n>".
pub open spec fn fresh_id(millis: int, n: nat) -> Seq<char> {
    "i"@ + signed_decimal(millis) + "-"@ + decimal(n)
}

/// The interests that have a name (after trimming).
pub open spec fn named(s: Seq<InterestView>) -> Seq<InterestView>
    decreases s.len(),
{
    if s.len() == 0 {
        Seq::empty()
    } else if trim(s.last().name).len() > 0 {
        named(s.drop_last()).push(s.last())
    } else {
        named(s.drop_last())
    }
}

/// The first `k` named interests tidied, and the ids given out so far:
/// names, values and notes trimmed, an unknown kind made a topic, and an id
/// that is blank or already given out replaced with a fresh one.
pub open spec fn tidy_upto(kept: Seq<InterestView>, k: nat, millis: int) -> (Seq<InterestView>, Seq<Seq<char>>)
    decreases k,
{
    if k == 0 {
        (Seq::empty(), Seq::empty())
    } else {
        let (out, seen) = tidy_upto(kept, (k - 1) as nat, millis);
        let i = kept[k - 1];
        let id = if trim(i.id).len() == 0 || seen.contains(i.id) {
            fresh_id(millis, (k - 1) as nat)
        } else {
            i.id
        };
        (
            out.push(
                InterestView {
                    id,
                    name: trim(i.name),
                    kind: if known_kind(i.kind) {
                        i.kind
                    } else {
                        "topic"@
                    },
                    value: trim(i.value),
                    notes: trim(i.notes),
                    enabled: i.enabled,
                },
            ),
            seen.push(id),
        )
    }
}

/// The interests as saved.
pub open spec fn spec_tidy(s: Seq<InterestView>, millis: int) -> Seq<InterestView> {
    let kept = named(s);
    tidy_upto(kept, kept.len(), millis).0
}

fn signed_decimal_exec(n: i64) -> (r: String)
    ensures
        r@ == signed_decimal(n as int),
{
    if n < 0 {
        let m: u64 = if n == i64::MIN {
            9_223_372_036_854_775_808u64
        } else {
            (-n) as u64
        };
        str_concat("-", decimal_u64(m).as_str())
    } else {
        decimal_u64(n as u64)
    }
}

fn is_taken(seen: &Vec<String>, id: &str) -> (r: bool)
    ensures
        r == seen.deep_view().contains(id@),
{
    let mut k: usize = 0;
    while k < seen.len()
        invariant
            k <= seen.len(),
            forall|j: int| 0 <= j < k ==> seen.deep_view()[j] != id@,
        decreases seen.len() - k,
    {
        assert(seen.deep_view()[k as int] == seen@[k as int]@);
        if str_eq(seen[k].as_str(), id) {
            return true;
        }
        k = k + 1;
    }
    false
}

fn named_exec(s: &Vec<Interest>) -> (r: Vec<Interest>)
    ensures
        interest_views(r@) == named(interest_views(s@)),
{
    let ghost sv = interest_views(s@);
    let mut out: Vec<Interest> = Vec::new();
    let mut k: usize = 0;
    assert(sv.take(0) =~= Seq::<InterestView>::empty());
    assert(interest_views(out@) =~= Seq::<InterestView>::empty());
    while k < s.len()
        invariant
            k <= s.len(),
            sv == interest_views(s@),
            interest_views(out@) == named(sv.take(k as int)),
        decreases s.len() - k,
    {
        assert(sv.take(k + 1).drop_last() =~= sv.take(k as int));
        assert(sv.take(k + 1).last() == sv[k as int]);
        assert(sv[k as int] == s@[k as int]@);
        let t = str_trim(s[k].name.as_str());
        if !t.as_str().is_empty() {
            let ghost before = interest_views(out@);
            let c = s[k].copy();
            out.push(c);
            assert(interest_views(out@) =~= before.push(c@));
        }
        k = k + 1;
    }
    assert(sv.take(k as int) =~= sv);
    out
}

/// Tidies the interests list before it is saved (`now_millis` is the
/// clock in milliseconds): rows without a name are dropped, text is
/// trimmed, unknown kinds become topics and every id is made unique.
pub fn tidy_interests(file: InterestsFile, now_millis: i64) -> (r: InterestsFile)
    requires
        file.interests@.len() < usize::MAX,
    ensures
        r.version == file.version,
        interest_views(r.interests@) == spec_tidy(interest_views(file.interests@), now_millis as int),
{
    let kept = named_exec(&file.interests);
    let ghost kv = interest_views(kept@);
    let stamp = signed_decimal_exec(now_millis);
    let mut out: Vec<Interest> = Vec::new();
    let mut seen: Vec<String> = Vec::new();
    let mut k: usize = 0;
    assert(interest_views(out@) =~= Seq::<InterestView>::empty());
    assert(seen.deep_view() =~= Seq::<Seq<char>>::empty());
    while k < kept.len()
        invariant
            k <= kept.len(),
            kv == interest_views(kept@),
            stamp@ == signed_decimal(now_millis as int),
            (interest_views(out@), seen.deep_view()) == tidy_upto(kv, k as nat, now_millis as int),
        decreases kept.len() - k,
    {
        assert(kv[k as int] == kept@[k as int]@);
        let i = &kept[k];
        let blank = str_trim(i.id.as_str()).as_str().is_empty();
        let id = if blank || is_taken(&seen, i.id.as_str()) {
            let a = str_concat("i", stamp.as_str());
            let b = str_concat(a.as_str(), "-");
            str_concat(b.as_str(), decimal_string(k).as_str())
        } else {
            owned(i.id.as_str())
        };
        let kind = if str_eq(i.kind.as_str(), "topic") || str_eq(i.kind.as_str(), "person") || str_eq(
            i.kind.as_str(),
            "youtube_channel",
        ) || str_eq(i.kind.as_str(), "x_account") {
            owned(i.kind.as_str())
        } else {
            owned("topic")
        };
        let t = Interest {
            id: owned(id.as_str()),
            name: str_trim(i.name.as_str()),
            kind,
            value: str_trim(i.value.as_str()),
            notes: str_trim(i.notes.as_str()),
            enabled: i.enabled,
        };
        let ghost before_out = interest_views(out@);
        let ghost before_seen = seen.deep_view();
        out.push(t);
        seen.push(id);
        assert(interest_views(out@) =~= before_out.push(t@));
        assert(seen.deep_view() =~= before_seen.push(t@.id));
        k = k + 1;
    }
    InterestsFile { version: file.version, interests: out }
}

/// A control character (`char::is_control`: the C0 and C1 controls and DEL).
pub open spec fn is_control(c: char) -> bool {
    (c as u32) < 0x20 || (0x7f <= (c as u32) && (c as u32) < 0xa0)
}

pub open spec fn without_controls(s: Seq<char>) -> Seq<char>
    decreases s.len(),
{
    if s.len() == 0 {
        Seq::empty()
    } else if is_control(s.last()) {
        without_controls(s.drop_last())
    } else {
        without_controls(s.drop_last()).push(s.last())
    }
}

/// A profile field as saved: trimmed, control characters dropped, at most
/// `max` characters.
pub open spec fn spec_clean_field(s: Seq<char>, max: nat) -> Seq<char> {
    let c = without_controls(trim(s));
    if c.len() <= max {
        c
    } else {
        c.take(max as int)
    }
}

pub fn clean_field(s: &str, max: usize) -> (r: String)
    ensures
        r@ == spec_clean_field(s@, max as nat),
{
    let v = chars_of(s);
    let t = trim_vec(v.as_slice());
    let mut out: Vec<char> = Vec::new();
    let mut k: usize = 0;
    assert(t@.take(0) =~= Seq::<char>::empty());
    while k < t.len()
        invariant
            k <= t.len(),
            t@ == trim(s@),
            out@ == without_controls(t@.take(k as int)),
        decreases t.len() - k,
    {
        assert(t@.take(k + 1).drop_last() =~= t@.take(k as int));
        assert(t@.take(k + 1).last() == t@[k as int]);
        let n = t[k] as u32;
        if !(n < 0x20 || (0x7f <= n && n < 0xa0)) {
            out.push(t[k]);
        }
        k = k + 1;
    }
    assert(t@.take(k as int) =~= t@);
    if out.len() <= max {
        string_of(out.as_slice())
    } else {
        let cut = crate::text::slice_vec(out.as_slice(), 0, max);
        string_of(cut.as_slice())
    }
}

} // verus!
