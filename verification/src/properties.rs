//! What holds of the library as a whole: the promises its functions keep
//! across all inputs, stated over the same specifications their contracts
//! use, and proved.

use vstd::prelude::*;

use crate::editor::{
    accepted, candidate, demoted, edition_cards, first_of_size, front_page_first, has_text, has_url,
    lead_before, lead_fixed, position_of, section_order, used_sections, with_missing,
};
use crate::json::{array_of, json_get, JsonValue};
use crate::model::{CardView, InterestView, WireItemView};
use crate::pipeline::upgraded;
use crate::store::{needs_repair, repaired, BAD_HANDLE, GOOD_HANDLE};
use crate::text::{lower, lower_char, starts_with, trim, trim_end};
use crate::wire::{cache_put, dedupe, keys_unique, outcome_cache, spec_truncate, FeedOutcome};
use crate::stream::{block_step, blocks_step, event_step, StreamView};
use crate::scores::{first_next, last_final, last_live, spec_pick, tv_list, tv_of, tv_step, GameView};
use crate::paths::add_dirs;
use crate::desk::{apply_upto, rewrite_of};
use crate::editor::{is_short, para_fold, para_step, paragraphs, repair_from, short_upto, spec_story_len};
use crate::reader::spec_navigate;
use crate::links::ParsedUrl;
use crate::pipeline::{fresh_id, known_kind, named, signed_decimal, spec_tidy, tidy_upto};
use crate::text::{decimal, digit_char, str_lt};
use crate::scores::{insert_pos, sorted_by_start};
use crate::store::{sorted_texts, text_pos};
use crate::pipeline::{is_control, spec_clean_field, without_controls};
use crate::schedule::spec_xml_escape;
use crate::text::replace_seq;
use crate::adblock::{host_in, normal_host, texts, under_domain, AD_HOSTS, EXEMPT_PAGES};
use crate::text::{ends_with, trim_end_char};
use crate::stream::{finish_ok, output_from, Notes, EditorOutput};
use crate::model::card_views;
use crate::pipeline::{wants_picture, wanting_upto};
use crate::editor::kind_of_link;
use crate::wire::spec_youtube_id;
use crate::grok::spec_is_post_url;
use crate::wire::{entry_fold, feed_fold};
use crate::xml::XmlNode;
use crate::grok::{post_item, posts_fold};
use crate::json::str_of;
use crate::scores::{schedule_games, upcoming};

verus! {

// ------------------------------------------------------------------ the lead

proof fn lemma_first_lead(cs: Seq<CardView>, n: int)
    requires
        0 <= n <= cs.len(),
        lead_before(cs, n),
    ensures
        exists|f: int| 0 <= f < n && cs[f].size == "lead"@ && !lead_before(cs, f),
    decreases n,
{
    if lead_before(cs, n - 1) {
        lemma_first_lead(cs, n - 1);
        let f = choose|f: int| 0 <= f < n - 1 && cs[f].size == "lead"@ && !lead_before(cs, f);
        assert(0 <= f < n && cs[f].size == "lead"@ && !lead_before(cs, f));
    } else {
        let j = choose|j: int| 0 <= j < n && cs[j].size == "lead"@;
        assert(j == n - 1) by {
            if j < n - 1 {
                assert(lead_before(cs, n - 1));
            }
        }
        assert(0 <= n - 1 < n && cs[n - 1].size == "lead"@ && !lead_before(cs, n - 1));
    }
}

proof fn lemma_first_of_size_found(cs: Seq<CardView>, size: Seq<char>, from: int)
    ensures
        first_of_size(cs, size, from) matches Some(i) ==> from <= i < cs.len() && cs[i].size == size,
    decreases cs.len() - from,
{
    if 0 <= from < cs.len() && cs[from].size != size {
        lemma_first_of_size_found(cs, size, from + 1);
    }
}

/// An edition with any cards has exactly one lead: the first card marked
/// lead keeps it and later ones become features; with none marked, the first
/// feature (else the first card) is promoted.
pub proof fn exactly_one_lead(cs: Seq<CardView>)
    requires
        cs.len() > 0,
    ensures
        exists|i: int|
            0 <= i < lead_fixed(cs).len() && #[trigger] lead_fixed(cs)[i].size == "lead"@ && forall|j: int|
                0 <= j < lead_fixed(cs).len() && j != i ==> lead_fixed(cs)[j].size != "lead"@,
{
    reveal_strlit("lead");
    reveal_strlit("feature");
    let out = lead_fixed(cs);
    if lead_before(cs, cs.len() as int) {
        lemma_first_lead(cs, cs.len() as int);
        let f = choose|f: int| 0 <= f < cs.len() && cs[f].size == "lead"@ && !lead_before(cs, f);
        assert(out == demoted(cs));
        assert(out[f].size == "lead"@);
        assert forall|j: int| 0 <= j < out.len() && j != f implies out[j].size != "lead"@ by {
            if j > f {
                if cs[j].size == "lead"@ {
                    assert(lead_before(cs, j));
                    assert(out[j].size == "feature"@);
                }
            } else {
                if cs[j].size == "lead"@ {
                    assert(lead_before(cs, f));
                }
            }
        }
    } else {
        lemma_first_of_size_found(cs, "feature"@, 0);
        let p: int = match first_of_size(cs, "feature"@, 0) {
            Some(i) => i,
            None => 0,
        };
        assert(out == cs.update(p, CardView { size: "lead"@, section: "Front Page"@, ..cs[p] }));
        assert(out[p].size == "lead"@);
        assert forall|j: int| 0 <= j < out.len() && j != p implies out[j].size != "lead"@ by {
            if cs[j].size == "lead"@ {
                assert(lead_before(cs, cs.len() as int));
            }
        }
    }
}

/// The edition's cards have exactly one lead whenever there are any.
pub proof fn edition_has_one_lead(v: JsonValue)
    requires
        edition_cards(v).len() > 0,
    ensures
        exists|i: int|
            0 <= i < edition_cards(v).len() && #[trigger] edition_cards(v)[i].size == "lead"@ && forall|j: int|
                0 <= j < edition_cards(v).len() && j != i ==> edition_cards(v)[j].size != "lead"@,
{
    let a = accepted(
        match array_of(json_get(v, "cards"@)) {
            Some(x) => x,
            None => Seq::empty(),
        },
    );
    assert(edition_cards(v) == lead_fixed(a));
    if a.len() == 0 {
        assert(lead_fixed(a) == a);
    }
    exactly_one_lead(a);
}

// ------------------------------------------------------------------ links

proof fn lemma_accepted_unique(arr: Seq<JsonValue>)
    ensures
        forall|i: int, j: int|
            0 <= i < j < accepted(arr).len() ==> accepted(arr)[i].url != accepted(arr)[j].url,
    decreases arr.len(),
{
    if arr.len() > 0 {
        lemma_accepted_unique(arr.drop_last());
        let prev = accepted(arr.drop_last());
        match candidate(arr.last(), (arr.len() - 1) as nat) {
            Some(c) => {
                if !has_url(prev, c.url) {
                    assert forall|i: int, j: int| 0 <= i < j < prev.push(c).len() implies prev.push(c)[i].url
                        != prev.push(c)[j].url by {
                        if j == prev.len() {
                            assert(prev.push(c)[i] == prev[i]);
                            if prev[i].url == c.url {
                                assert(has_url(prev, c.url));
                            }
                        }
                    }
                }
            },
            None => {},
        }
    }
}

proof fn lemma_lead_fixed_urls(cs: Seq<CardView>)
    ensures
        lead_fixed(cs).len() == cs.len(),
        forall|i: int| 0 <= i < cs.len() ==> #[trigger] lead_fixed(cs)[i].url == cs[i].url,
{
    lemma_first_of_size_found(cs, "feature"@, 0);
}

/// No two cards of an edition share a link: a link seen before is dropped,
/// keeping the first.
pub proof fn edition_links_unique(v: JsonValue)
    ensures
        forall|i: int, j: int|
            0 <= i < j < edition_cards(v).len() ==> edition_cards(v)[i].url != edition_cards(v)[j].url,
{
    let arr = match array_of(json_get(v, "cards"@)) {
        Some(x) => x,
        None => Seq::empty(),
    };
    lemma_accepted_unique(arr);
    lemma_lead_fixed_urls(accepted(arr));
    assert forall|i: int, j: int| 0 <= i < j < edition_cards(v).len() implies edition_cards(v)[i].url
        != edition_cards(v)[j].url by {
        assert(edition_cards(v)[i].url == accepted(arr)[i].url);
        assert(edition_cards(v)[j].url == accepted(arr)[j].url);
    }
}


// --------------------------------------------------------------- sections

proof fn lemma_with_missing_has(secs: Seq<Seq<char>>, cs: Seq<CardView>)
    ensures
        forall|k: int| 0 <= k < cs.len() ==> has_text(with_missing(secs, cs), #[trigger] cs[k].section),
        forall|k: int| 0 <= k < secs.len() ==> has_text(with_missing(secs, cs), #[trigger] secs[k]),
    decreases cs.len(),
{
    if cs.len() > 0 {
        lemma_with_missing_has(secs, cs.drop_last());
        let prev = with_missing(secs, cs.drop_last());
        let out = with_missing(secs, cs);
        assert forall|t: Seq<char>| has_text(prev, t) implies has_text(out, t) by {
            let i = choose|i: int| 0 <= i < prev.len() && prev[i] == t;
            if !has_text(prev, cs.last().section) {
                assert(out[i] == t);
            }
        }
        assert forall|k: int| 0 <= k < cs.len() implies has_text(out, #[trigger] cs[k].section) by {
            if k < cs.len() - 1 {
                assert(cs.drop_last()[k] == cs[k]);
            } else if !has_text(prev, cs.last().section) {
                assert(out[prev.len() as int] == cs.last().section);
            }
        }
    }
}

/// Some card is in section `t`.
pub open spec fn in_use(cs: Seq<CardView>, t: Seq<char>) -> bool {
    exists|k: int| 0 <= k < cs.len() && cs[k].section == t
}

proof fn lemma_used_sections(secs: Seq<Seq<char>>, cs: Seq<CardView>)
    ensures
        forall|t: Seq<char>| #[trigger] has_text(used_sections(secs, cs), t) ==> has_text(secs, t) && in_use(cs, t),
        forall|t: Seq<char>| has_text(secs, t) && in_use(cs, t) ==> #[trigger] has_text(used_sections(secs, cs), t),
    decreases secs.len(),
{
    if secs.len() > 0 {
        let rest = secs.drop_last();
        lemma_used_sections(rest, cs);
        let prev = used_sections(rest, cs);
        let out = used_sections(secs, cs);
        let keep = exists|k: int| 0 <= k < cs.len() && cs[k].section == secs.last();
        assert(keep == in_use(cs, secs.last()));
        assert forall|t: Seq<char>| #[trigger] has_text(out, t) implies has_text(secs, t) && in_use(cs, t) by {
            let i = choose|i: int| 0 <= i < out.len() && out[i] == t;
            if i < prev.len() {
                assert(out[i] == prev[i]);
                assert(has_text(prev, t));
                assert(has_text(rest, t));
                let j = choose|j: int| 0 <= j < rest.len() && rest[j] == t;
                assert(secs[j] == t);
            } else {
                assert(keep);
                assert(t == secs.last());
                assert(secs[secs.len() - 1] == t);
            }
        }
        assert forall|t: Seq<char>| has_text(secs, t) && in_use(cs, t) implies #[trigger] has_text(out, t) by {
            let j = choose|j: int| 0 <= j < secs.len() && secs[j] == t;
            if j < secs.len() - 1 {
                assert(rest[j] == t);
                assert(has_text(rest, t));
                assert(has_text(prev, t));
                let i = choose|i: int| 0 <= i < prev.len() && prev[i] == t;
                if keep {
                    assert(out[i] == t);
                } else {
                    assert(out == prev);
                }
            } else {
                assert(secs.last() == t);
                assert(keep);
                assert(out[prev.len() as int] == t);
            }
        }
    }
}

proof fn lemma_position_of(secs: Seq<Seq<char>>, x: Seq<char>, from: int)
    requires
        0 <= from,
    ensures
        position_of(secs, x, from) matches Some(i) ==> from <= i < secs.len() && secs[i] == x,
        position_of(secs, x, from) is None ==> forall|k: int| from <= k < secs.len() ==> secs[k] != x,
    decreases secs.len() - from,
{
    if from < secs.len() && secs[from] != x {
        lemma_position_of(secs, x, from + 1);
    }
}

proof fn lemma_front_page_first(secs: Seq<Seq<char>>)
    ensures
        forall|t: Seq<char>| has_text(front_page_first(secs), t) <==> has_text(secs, t),
        has_text(secs, "Front Page"@) ==> front_page_first(secs)[0] == "Front Page"@,
{
    lemma_position_of(secs, "Front Page"@, 0);
    match position_of(secs, "Front Page"@, 0) {
        Some(p) => {
            let out = front_page_first(secs);
            assert(out == seq!["Front Page"@] + secs.remove(p));
            assert forall|t: Seq<char>| has_text(out, t) <==> has_text(secs, t) by {
                if has_text(out, t) {
                    let i = choose|i: int| 0 <= i < out.len() && out[i] == t;
                    if i == 0 {
                        assert(secs[p] == t);
                    } else if i - 1 < p {
                        assert(secs[i - 1] == t);
                    } else {
                        assert(secs[i] == t);
                    }
                }
                if has_text(secs, t) {
                    let j = choose|j: int| 0 <= j < secs.len() && secs[j] == t;
                    if j == p {
                        assert(out[0] == t);
                    } else if j < p {
                        assert(out[j + 1] == t);
                    } else {
                        assert(out[j] == t);
                    }
                }
            }
        },
        None => {},
    }
}

/// The section list of an edition names exactly the sections its cards are
/// in, with "Front Page" first whenever a card is on it.
pub proof fn sections_match_cards(v: JsonValue)
    ensures
        forall|t: Seq<char>|
            has_text(section_order(v, edition_cards(v)), t) <==> exists|k: int|
                0 <= k < edition_cards(v).len() && edition_cards(v)[k].section == t,
        (exists|k: int| 0 <= k < edition_cards(v).len() && edition_cards(v)[k].section == "Front Page"@)
            ==> section_order(v, edition_cards(v))[0] == "Front Page"@,
{
    let cs = edition_cards(v);
    let listed = match array_of(json_get(v, "sections"@)) {
        Some(a) => crate::editor::listed_sections(a),
        None => Seq::empty(),
    };
    let all = with_missing(listed, cs);
    lemma_with_missing_has(listed, cs);
    lemma_used_sections(all, cs);
    let used = used_sections(all, cs);
    lemma_front_page_first(used);
    assert(section_order(v, cs) == front_page_first(used));
    assert forall|t: Seq<char>| has_text(section_order(v, cs), t) <==> exists|k: int|
        0 <= k < cs.len() && cs[k].section == t by {
        if exists|k: int| 0 <= k < cs.len() && cs[k].section == t {
            let k = choose|k: int| 0 <= k < cs.len() && cs[k].section == t;
            assert(has_text(all, cs[k].section));
            assert(in_use(cs, t));
            assert(has_text(used, t));
        }
        if has_text(section_order(v, cs), t) {
            assert(has_text(used, t));
            assert(in_use(cs, t));
        }
    }
    if exists|k: int| 0 <= k < cs.len() && cs[k].section == "Front Page"@ {
        let k = choose|k: int| 0 <= k < cs.len() && cs[k].section == "Front Page"@;
        assert(has_text(all, cs[k].section));
        assert(in_use(cs, "Front Page"@));
        assert(has_text(used, "Front Page"@));
    }
}

// ------------------------------------------------------------------ the wire

/// Some item of `s` has the link `url`.
pub open spec fn has_link(s: Seq<WireItemView>, url: Seq<char>) -> bool {
    exists|i: int| 0 <= i < s.len() && s[i].url == url
}

/// `w` is one of the items of `s`.
pub open spec fn is_item(s: Seq<WireItemView>, w: WireItemView) -> bool {
    exists|k: int| 0 <= k < s.len() && s[k] == w
}

proof fn lemma_dedupe(items: Seq<WireItemView>)
    ensures
        forall|i: int, j: int| 0 <= i < j < dedupe(items).len() ==> dedupe(items)[i].url != dedupe(items)[j].url,
        forall|k: int| 0 <= k < items.len() ==> has_link(dedupe(items), #[trigger] items[k].url),
        forall|i: int| 0 <= i < dedupe(items).len() ==> is_item(items, #[trigger] dedupe(items)[i]),
    decreases items.len(),
{
    if items.len() > 0 {
        let rest = items.drop_last();
        lemma_dedupe(rest);
        let prev = dedupe(rest);
        let out = dedupe(items);
        let dup = exists|k: int| 0 <= k < prev.len() && prev[k].url == items.last().url;
        if !dup {
            assert(out == prev.push(items.last()));
            assert forall|i: int, j: int| 0 <= i < j < out.len() implies out[i].url != out[j].url by {
                if j == prev.len() {
                    assert(out[i] == prev[i]);
                }
            }
        } else {
            assert(out == prev);
        }
        assert forall|k: int| 0 <= k < items.len() implies has_link(out, #[trigger] items[k].url) by {
            if k < items.len() - 1 {
                assert(rest[k] == items[k]);
                assert(has_link(prev, rest[k].url));
                let i = choose|i: int| 0 <= i < prev.len() && prev[i].url == rest[k].url;
                if !dup {
                    assert(out[i] == prev[i]);
                }
            } else if !dup {
                assert(out[prev.len() as int] == items.last());
            } else {
                let i = choose|i: int| 0 <= i < prev.len() && prev[i].url == items.last().url;
                assert(out[i].url == items[k].url);
            }
        }
        assert forall|i: int| 0 <= i < out.len() implies is_item(items, #[trigger] out[i]) by {
            if dup || i < prev.len() {
                assert(out[i] == prev[i]);
                assert(is_item(rest, prev[i]));
                let k = choose|k: int| 0 <= k < rest.len() && rest[k] == prev[i];
                assert(items[k] == out[i]);
            } else {
                assert(items[items.len() - 1] == out[i]);
            }
        }
    }
}

/// The gathered wire copy holds each link once, every link that came in is
/// still there, and nothing else is.
pub proof fn wire_links_unique(items: Seq<WireItemView>)
    ensures
        forall|i: int, j: int| 0 <= i < j < dedupe(items).len() ==> dedupe(items)[i].url != dedupe(items)[j].url,
        forall|k: int| 0 <= k < items.len() ==> has_link(dedupe(items), #[trigger] items[k].url),
        forall|i: int| 0 <= i < dedupe(items).len() ==> is_item(items, #[trigger] dedupe(items)[i]),
{
    lemma_dedupe(items);
}

proof fn lemma_trim_end_len(s: Seq<char>)
    ensures
        trim_end(s).len() <= s.len(),
    decreases s.len(),
{
    if s.len() > 0 && crate::text::is_ws(s.last()) {
        lemma_trim_end_len(s.drop_last());
    }
}

/// A shortened text is never longer than the limit (for a limit of at least
/// one character), and a text within the limit is left as it is.
pub proof fn truncate_fits(s: Seq<char>, max: nat)
    requires
        max >= 1,
    ensures
        spec_truncate(s, max).len() <= max,
        s.len() <= max ==> spec_truncate(s, max) == s,
{
    if s.len() > max {
        lemma_trim_end_len(s.take(max - 1));
    }
}

// ----------------------------------------------------------------- pictures

/// After the https upgrade no card's picture is a plain-http link.
pub proof fn no_plain_http_pictures(c: CardView)
    ensures
        upgraded(c).image matches Some(img) ==> !starts_with(img, "http://"@),
{
    reveal_strlit("http://");
    reveal_strlit("https://");
    match c.image {
        Some(img) => {
            if starts_with(img, "http://"@) {
                let out = "https://"@ + img.skip(7);
                assert(out[4] == 's');
                assert("http://"@[4] == ':');
                if starts_with(out, "http://"@) {
                    assert(out.take(7)[4] == out[4]);
                }
            }
        },
        None => {},
    }
}

// ------------------------------------------------------------------- handles

/// Mending the bad handle twice changes nothing more than mending it once.
pub proof fn repair_is_idempotent(i: InterestView)
    ensures
        repaired(repaired(i)) == repaired(i),
{
    reveal_strlit("@joerogan");
    reveal_strlit("@PowerfulJRE");
    if needs_repair(i) {
        let g = GOOD_HANDLE@;
        assert(trim(g) == g) by {
            assert(!crate::text::is_ws(g[0]));
            assert(!crate::text::is_ws(g.last()));
        }
        assert(lower(g)[1] == 'j');
        assert(lower(BAD_HANDLE@)[1] == 'p');
        assert(lower(trim(g)) != lower(BAD_HANDLE@));
    }
}


// ------------------------------------------------------------------- stream

proof fn lemma_block_keeps(st: StreamView, b: JsonValue)
    ensures
        st.announced_writing ==> block_step(st, b).0.announced_writing,
        block_step(st, b).0.session_id == st.session_id,
        block_step(st, b).0.finished == st.finished,
{
}

proof fn lemma_blocks_keep(st: StreamView, bs: Seq<JsonValue>)
    ensures
        st.announced_writing ==> blocks_step(st, bs).0.announced_writing,
        blocks_step(st, bs).0.session_id == st.session_id,
        blocks_step(st, bs).0.finished == st.finished,
    decreases bs.len(),
{
    if bs.len() > 0 {
        lemma_blocks_keep(st, bs.drop_last());
        lemma_block_keeps(blocks_step(st, bs.drop_last()).0, bs.last());
    }
}

/// Reading the stream never takes back what it has shown or learnt: once
/// the writing is announced it stays announced, the first session id stays,
/// and a finished run stays finished.
pub proof fn stream_only_moves_forward(st: StreamView, ev: Option<JsonValue>)
    ensures
        st.announced_writing ==> event_step(st, ev).0.announced_writing,
        st.session_id is Some ==> event_step(st, ev).0.session_id == st.session_id,
        st.finished ==> event_step(st, ev).0.finished,
{
    match ev {
        Some(e) => {
            let st0 = if st.session_id is None {
                StreamView { session_id: crate::json::str_of(json_get(e, "session_id"@)), ..st }
            } else {
                st
            };
            let blocks = match array_of(crate::json::get_opt(json_get(e, "message"@), "content"@)) {
                Some(b) => b,
                None => Seq::empty(),
            };
            lemma_blocks_keep(st0, blocks);
        },
        None => {},
    }
}

// -------------------------------------------------------------------- cache

proof fn lemma_cache_put_unique(cache: Seq<(Seq<char>, Seq<char>)>, k: Seq<char>, v: Seq<char>)
    requires
        keys_unique(cache),
    ensures
        keys_unique(cache_put(cache, k, v)),
{
    if exists|j: int| 0 <= j < cache.len() && cache[j].0 == k {
        let j = choose|j: int| 0 <= j < cache.len() && cache[j].0 == k;
        let out = cache.update(j, (k, v));
        assert forall|a: int, b: int| 0 <= a < b < out.len() implies out[a].0 != out[b].0 by {
            assert(out[a].0 == cache[a].0);
            assert(out[b].0 == cache[b].0);
        }
    } else {
        let out = cache.push((k, v));
        assert forall|a: int, b: int| 0 <= a < b < out.len() implies out[a].0 != out[b].0 by {
            if b == cache.len() {
                assert(out[a] == cache[a]);
            }
        }
    }
}

/// The channel cache never holds a handle twice, however many lookups are
/// remembered.
pub proof fn cache_keys_stay_unique(cache: Seq<(Seq<char>, Seq<char>)>, os: Seq<FeedOutcome>)
    requires
        keys_unique(cache),
    ensures
        keys_unique(outcome_cache(cache, os)),
    decreases os.len(),
{
    if os.len() > 0 {
        cache_keys_stay_unique(cache, os.drop_last());
        match os.last().resolved {
            Some((k, v)) => lemma_cache_put_unique(outcome_cache(cache, os.drop_last()), k@, v@),
            None => {},
        }
    }
}

// ------------------------------------------------------------------- scores

proof fn lemma_last_live(gs: Seq<GameView>)
    ensures
        last_live(gs) matches Some(g) ==> g.state == "live"@,
    decreases gs.len(),
{
    if gs.len() > 0 && gs.last().state != "live"@ {
        lemma_last_live(gs.drop_last());
    }
}

proof fn lemma_last_final(gs: Seq<GameView>)
    ensures
        last_final(gs) matches Some(g) ==> g.state == "final"@ && g.away.score is Some && g.home.score is Some,
    decreases gs.len(),
{
    if gs.len() > 0 && !(gs.last().state == "final"@ && gs.last().away.score is Some
        && gs.last().home.score is Some) {
        lemma_last_final(gs.drop_last());
    }
}

proof fn lemma_first_next(gs: Seq<GameView>, now_secs: int, now_nanos: int)
    ensures
        first_next(gs, now_secs, now_nanos) matches Some(g) ==> g.state == "preview"@,
    decreases gs.len(),
{
    if gs.len() > 0 && !crate::scores::upcoming(gs[0], now_secs, now_nanos) {
        lemma_first_next(gs.drop_first(), now_secs, now_nanos);
    }
}

/// The bug shows a live game with nothing after it, or a final that has
/// both scores (or nothing), with the next scheduled game.
pub proof fn bug_shows_live_or_final(schedule: JsonValue, team_id: u32, now_secs: int, now_nanos: int)
    ensures
        ({
            let (game, next) = spec_pick(schedule, team_id, now_secs, now_nanos);
            &&& game matches Some(g) ==> (g.state == "live"@ && next is None) || (g.state == "final"@
                && g.away.score is Some && g.home.score is Some)
            &&& next matches Some(n) ==> n.state == "preview"@
        }),
{
    let gs = crate::scores::sorted_by_start(crate::scores::schedule_games(schedule, team_id));
    lemma_last_live(gs);
    lemma_last_final(gs);
    lemma_first_next(gs, now_secs, now_nanos);
    reveal_strlit("live");
    reveal_strlit("final");
}

proof fn lemma_tv_list(bs: Seq<JsonValue>, side: Seq<char>)
    ensures
        forall|i: int, j: int| 0 <= i < j < tv_list(bs, side).len() ==> tv_list(bs, side)[i] != tv_list(bs, side)[j],
        forall|i: int| 0 <= i < tv_list(bs, side).len() ==> #[trigger] tv_list(bs, side)[i].len() > 0,
    decreases bs.len(),
{
    if bs.len() > 0 {
        lemma_tv_list(bs.drop_last(), side);
        let prev = tv_list(bs.drop_last(), side);
        let out = tv_list(bs, side);
        if out != prev {
            assert forall|i: int, j: int| 0 <= i < j < out.len() implies out[i] != out[j] by {
                if j == prev.len() {
                    assert(out[i] == prev[i]);
                    assert(!prev.contains(out[j]));
                }
            }
        }
    }
}

/// Where to watch lists at most three channels, each once, none blank.
pub proof fn tv_is_short_and_distinct(g: JsonValue, home: bool)
    ensures
        tv_of(g, home).len() <= 3,
        forall|i: int, j: int| 0 <= i < j < tv_of(g, home).len() ==> tv_of(g, home)[i] != tv_of(g, home)[j],
        forall|i: int| 0 <= i < tv_of(g, home).len() ==> #[trigger] tv_of(g, home)[i].len() > 0,
{
    let bs = match array_of(json_get(g, "broadcasts"@)) {
        Some(b) => b,
        None => Seq::empty(),
    };
    let side = if home { "home"@ } else { "away"@ };
    lemma_tv_list(bs, side);
    let all = tv_list(bs, side);
    if all.len() > 3 {
        assert forall|i: int, j: int| 0 <= i < j < all.take(3).len() implies all.take(3)[i] != all.take(3)[j] by {
            assert(all.take(3)[i] == all[i]);
            assert(all.take(3)[j] == all[j]);
        }
        assert forall|i: int| 0 <= i < all.take(3).len() implies #[trigger] all.take(3)[i].len() > 0 by {
            assert(all.take(3)[i] == all[i]);
        }
    }
}

// -------------------------------------------------------------------- paths

/// The search path names each folder once and never a blank one.
pub proof fn search_path_folders_distinct(dirs: Seq<Seq<char>>, parts: Seq<Seq<char>>)
    requires
        forall|i: int, j: int| 0 <= i < j < dirs.len() ==> dirs[i] != dirs[j],
        forall|i: int| 0 <= i < dirs.len() ==> #[trigger] dirs[i].len() > 0,
    ensures
        forall|i: int, j: int| 0 <= i < j < add_dirs(dirs, parts).len() ==> add_dirs(dirs, parts)[i] != add_dirs(
            dirs,
            parts,
        )[j],
        forall|i: int| 0 <= i < add_dirs(dirs, parts).len() ==> #[trigger] add_dirs(dirs, parts)[i].len() > 0,
    decreases parts.len(),
{
    if parts.len() > 0 {
        search_path_folders_distinct(dirs, parts.drop_last());
        let prev = add_dirs(dirs, parts.drop_last());
        let out = add_dirs(dirs, parts);
        if out != prev {
            assert forall|i: int, j: int| 0 <= i < j < out.len() implies out[i] != out[j] by {
                if j == prev.len() {
                    assert(out[i] == prev[i]);
                    assert(!prev.contains(out[j]));
                }
            }
            assert forall|i: int| 0 <= i < out.len() implies #[trigger] out[i].len() > 0 by {
                if i < prev.len() {
                    assert(out[i] == prev[i]);
                }
            }
        }
    }
}

// -------------------------------------------------------------- copy desk

proof fn lemma_apply_upto(cards: Seq<CardView>, short: Seq<usize>, reply: JsonValue)
    requires
        forall|k: int| 0 <= k < short.len() ==> #[trigger] short[k] < cards.len(),
    ensures
        apply_upto(cards, short, reply).0.len() == cards.len(),
        forall|i: int| 0 <= i < cards.len() ==> spec_story_len(#[trigger] apply_upto(cards, short, reply).0[i])
            >= spec_story_len(cards[i]),
        forall|i: int|
            0 <= i < cards.len() ==> ({
                let c = #[trigger] apply_upto(cards, short, reply).0[i];
                c == CardView { story: c.story, ..cards[i] }
            }),
    decreases short.len(),
{
    if short.len() > 0 {
        lemma_apply_upto(cards, short.drop_last(), reply);
        let (cs, n) = apply_upto(cards, short.drop_last(), reply);
        let i = short.last() as int;
        assert(short[short.len() - 1] < cards.len());
        match rewrite_of(reply, i as nat) {
            Some(t) => {
                if t.len() > spec_story_len(cs[i]) {
                    let out = cs.update(i, CardView { story: Some(t), ..cs[i] });
                    assert forall|j: int| 0 <= j < cards.len() implies spec_story_len(#[trigger] out[j])
                        >= spec_story_len(cards[j]) by {
                        if j != i {
                            assert(out[j] == cs[j]);
                        }
                    }
                    assert forall|j: int| 0 <= j < cards.len() implies ({
                        let c = #[trigger] out[j];
                        c == CardView { story: c.story, ..cards[j] }
                    }) by {
                        if j != i {
                            assert(out[j] == cs[j]);
                        }
                    }
                }
            },
            None => {},
        }
    }
}

/// The copy desk only ever takes an improvement: no story gets shorter, and
/// nothing but stories changes.
pub proof fn rewrites_never_shorten(cards: Seq<CardView>, short: Seq<usize>, reply: JsonValue)
    requires
        forall|k: int| 0 <= k < short.len() ==> #[trigger] short[k] < cards.len(),
    ensures
        apply_upto(cards, short, reply).0.len() == cards.len(),
        forall|i: int| 0 <= i < cards.len() ==> spec_story_len(#[trigger] apply_upto(cards, short, reply).0[i])
            >= spec_story_len(cards[i]),
        forall|i: int|
            0 <= i < cards.len() ==> ({
                let c = #[trigger] apply_upto(cards, short, reply).0[i];
                c == CardView { story: c.story, ..cards[i] }
            }),
{
    lemma_apply_upto(cards, short, reply);
}

// ------------------------------------------------------------------- reader

/// A reader window never loads the app's own schemes or the local disk,
/// never loads a button link, and its blocker is never on when the settings
/// have it off.
pub proof fn reader_stays_in_bounds(blocking: bool, block_ads: bool, page_host: Seq<char>, u: ParsedUrl)
    requires
        blocking ==> block_ads,
    ensures
        ({
            let (now_blocking, allow, _) = spec_navigate(blocking, block_ads, page_host, u);
            &&& crate::reader::forbidden_scheme(u.scheme@) ==> !allow
            &&& u@.host == Some(crate::reader::SENTINEL_HOST@) ==> !allow
            &&& now_blocking ==> block_ads
        }),
{
}


/// Ads are never blocked on YouTube or X: on those pages (and their
/// subdomains) every ordinary link goes through, whatever the blocker says.
pub proof fn exempt_pages_never_block(blocking: bool, block_ads: bool, page_host: Seq<char>, u: ParsedUrl)
    requires
        host_in(page_host, texts(EXEMPT_PAGES@)),
        !crate::reader::forbidden_scheme(u.scheme@),
        u@.host != Some(crate::reader::SENTINEL_HOST@),
    ensures
        spec_navigate(blocking, block_ads, page_host, u).1,
{
}

// ------------------------------------------------------------ interests

proof fn lemma_digit_char_injective(a: nat, b: nat)
    requires
        a < 10,
        b < 10,
        digit_char(a) == digit_char(b),
    ensures
        a == b,
{
    assert(digit_char(a) as u32 == a + 48);
    assert(digit_char(b) as u32 == b + 48);
}

proof fn lemma_decimal_len(n: nat)
    ensures
        decimal(n).len() >= 1,
        decimal(n).len() == 1 <==> n < 10,
    decreases n,
{
    if n >= 10 {
        lemma_decimal_len(n / 10);
    }
}

/// Different numbers are written differently.
pub proof fn decimal_injective(a: nat, b: nat)
    requires
        decimal(a) == decimal(b),
    ensures
        a == b,
    decreases a,
{
    lemma_decimal_len(a);
    lemma_decimal_len(b);
    if a < 10 {
        assert(decimal(a)[0] == digit_char(a));
        assert(decimal(b)[0] == digit_char(b));
        lemma_digit_char_injective(a, b);
    } else {
        assert(decimal(a).drop_last() == decimal(a / 10));
        assert(decimal(b).drop_last() == decimal(b / 10));
        decimal_injective(a / 10, b / 10);
        assert(decimal(a).last() == digit_char(a % 10));
        assert(decimal(b).last() == digit_char(b % 10));
        lemma_digit_char_injective(a % 10, b % 10);
    }
}

/// The start every fresh id of a save made at `millis` shares.
pub open spec fn fresh_prefix(millis: int) -> Seq<char> {
    "i"@ + signed_decimal(millis) + "-"@
}

proof fn lemma_fresh_ids(millis: int, a: nat, b: nat)
    ensures
        starts_with(fresh_id(millis, a), fresh_prefix(millis)),
        fresh_id(millis, a) == fresh_id(millis, b) ==> a == b,
{
    let p = fresh_prefix(millis);
    assert(fresh_id(millis, a) =~= p + decimal(a));
    assert(fresh_id(millis, b) =~= p + decimal(b));
    assert((p + decimal(a)).take(p.len() as int) =~= p);
    if fresh_id(millis, a) == fresh_id(millis, b) {
        assert((p + decimal(a)).skip(p.len() as int) =~= decimal(a));
        assert((p + decimal(b)).skip(p.len() as int) =~= decimal(b));
        decimal_injective(a, b);
    }
}

proof fn lemma_named_from(s: Seq<InterestView>)
    ensures
        forall|k: int| 0 <= k < named(s).len() ==> exists|j: int| 0 <= j < s.len() && s[j] == #[trigger] named(s)[k],
        forall|k: int| 0 <= k < named(s).len() ==> trim(#[trigger] named(s)[k].name).len() > 0,
    decreases s.len(),
{
    if s.len() > 0 {
        lemma_named_from(s.drop_last());
        let prev = named(s.drop_last());
        assert forall|k: int| 0 <= k < named(s).len() implies exists|j: int|
            0 <= j < s.len() && s[j] == #[trigger] named(s)[k] by {
            if k < prev.len() {
                assert(named(s)[k] == prev[k]);
                let j = choose|j: int| 0 <= j < s.drop_last().len() && s.drop_last()[j] == prev[k];
                assert(s[j] == prev[k]);
            } else {
                assert(s[s.len() - 1] == named(s)[k]);
            }
        }
        assert forall|k: int| 0 <= k < named(s).len() implies trim(#[trigger] named(s)[k].name).len() > 0 by {
            if k < prev.len() {
                assert(named(s)[k] == prev[k]);
            }
        }
    }
}

proof fn lemma_tidy_upto(kept: Seq<InterestView>, k: nat, millis: int)
    requires
        k <= kept.len(),
        forall|j: int| 0 <= j < kept.len() ==> !starts_with(#[trigger] kept[j].id, fresh_prefix(millis)),
    ensures
        tidy_upto(kept, k, millis).0.len() == k,
        tidy_upto(kept, k, millis).1.len() == k,
        forall|j: int| 0 <= j < k ==> #[trigger] tidy_upto(kept, k, millis).1[j] == tidy_upto(kept, k, millis).0[j].id,
        forall|j: int|
            0 <= j < k ==> (#[trigger] tidy_upto(kept, k, millis).0[j]).id == kept[j].id || tidy_upto(
                kept,
                k,
                millis,
            ).0[j].id == fresh_id(millis, j as nat),
        forall|a: int, b: int|
            0 <= a < b < k ==> tidy_upto(kept, k, millis).0[a].id != tidy_upto(kept, k, millis).0[b].id,
    decreases k,
{
    if k > 0 {
        lemma_tidy_upto(kept, (k - 1) as nat, millis);
        let (out, seen) = tidy_upto(kept, (k - 1) as nat, millis);
        let i = kept[k - 1];
        let fresh = fresh_id(millis, (k - 1) as nat);
        let id = if trim(i.id).len() == 0 || seen.contains(i.id) { fresh } else { i.id };
        let (out2, seen2) = tidy_upto(kept, k, millis);
        assert(out2 == out.push(out2[k - 1]));
        assert(out2[k - 1].id == id);
        assert(seen2 == seen.push(id));
        assert forall|a: int, b: int| 0 <= a < b < k implies out2[a].id != out2[b].id by {
            if b == k - 1 {
                assert(out2[a] == out[a]);
                if !(trim(i.id).len() == 0 || seen.contains(i.id)) {
                    assert(seen[a] == out[a].id);
                } else {
                    lemma_fresh_ids(millis, (k - 1) as nat, a as nat);
                    if out[a].id == kept[a].id {
                        assert(!starts_with(kept[a].id, fresh_prefix(millis)));
                    }
                }
            } else {
                assert(out2[a] == out[a]);
                assert(out2[b] == out[b]);
            }
        }
        assert forall|j: int| 0 <= j < k implies #[trigger] seen2[j] == out2[j].id by {
            if j < k - 1 {
                assert(seen2[j] == seen[j]);
                assert(out2[j] == out[j]);
            }
        }
        assert forall|j: int| 0 <= j < k implies (#[trigger] out2[j]).id == kept[j].id || out2[j].id == fresh_id(
            millis,
            j as nat,
        ) by {
            if j < k - 1 {
                assert(out2[j] == out[j]);
            }
        }
    }
}

/// A saved list has no two interests with the same id, every interest has a
/// name, and every kind is one the wire knows. (Ids given out are
/// "i<millis>-<n>"; the law holds for lists with no id of that shape
/// already, which is every list the app itself saves at a later time.)
pub proof fn tidy_ids_unique(s: Seq<InterestView>, millis: int)
    requires
        forall|j: int| 0 <= j < s.len() ==> !starts_with(#[trigger] s[j].id, fresh_prefix(millis)),
    ensures
        forall|a: int, b: int|
            0 <= a < b < spec_tidy(s, millis).len() ==> spec_tidy(s, millis)[a].id != spec_tidy(s, millis)[b].id,
        forall|a: int| 0 <= a < spec_tidy(s, millis).len() ==> trim(#[trigger] spec_tidy(s, millis)[a].name).len() > 0,
        forall|a: int| 0 <= a < spec_tidy(s, millis).len() ==> known_kind(#[trigger] spec_tidy(s, millis)[a].kind),
{
    let kept = named(s);
    lemma_named_from(s);
    assert forall|j: int| 0 <= j < kept.len() implies !starts_with(#[trigger] kept[j].id, fresh_prefix(millis)) by {
        let i = choose|i: int| 0 <= i < s.len() && s[i] == kept[j];
        assert(!starts_with(s[i].id, fresh_prefix(millis)));
    }
    lemma_tidy_upto(kept, kept.len(), millis);
    lemma_tidy_names(kept, kept.len(), millis);
}

proof fn lemma_trim_idempotent_nonempty(x: Seq<char>)
    ensures
        trim(x).len() > 0 ==> trim(trim(x)).len() > 0,
{
    crate::text::lemma_trim_idempotent(x);
}

proof fn lemma_tidy_names(kept: Seq<InterestView>, k: nat, millis: int)
    requires
        k <= kept.len(),
        forall|j: int| 0 <= j < kept.len() ==> trim(#[trigger] kept[j].name).len() > 0,
    ensures
        tidy_upto(kept, k, millis).0.len() == k,
        forall|a: int| 0 <= a < k ==> trim(#[trigger] tidy_upto(kept, k, millis).0[a].name).len() > 0,
        forall|a: int| 0 <= a < k ==> known_kind(#[trigger] tidy_upto(kept, k, millis).0[a].kind),
    decreases k,
{
    reveal_strlit("topic");
    if k > 0 {
        lemma_tidy_names(kept, (k - 1) as nat, millis);
        let out = tidy_upto(kept, (k - 1) as nat, millis).0;
        let out2 = tidy_upto(kept, k, millis).0;
        lemma_trim_idempotent_nonempty(kept[k - 1].name);
        assert forall|a: int| 0 <= a < k implies trim(#[trigger] out2[a].name).len() > 0 by {
            if a < k - 1 {
                assert(out2[a] == out[a]);
            }
        }
        assert forall|a: int| 0 <= a < k implies known_kind(#[trigger] out2[a].kind) by {
            if a < k - 1 {
                assert(out2[a] == out[a]);
            }
        }
    }
}


// -------------------------------------------------------------------- order

/// `str_lt` is transitive.
pub proof fn str_lt_transitive(a: Seq<char>, b: Seq<char>, c: Seq<char>)
    requires
        str_lt(a, b),
        str_lt(b, c),
    ensures
        str_lt(a, c),
    decreases a.len(),
{
    if a.len() > 0 {
        if (a[0] as u32) == (b[0] as u32) && (b[0] as u32) == (c[0] as u32) {
            str_lt_transitive(a.drop_first(), b.drop_first(), c.drop_first());
        }
    }
}

/// No text comes before itself.
pub proof fn str_lt_irreflexive(a: Seq<char>)
    ensures
        !str_lt(a, a),
    decreases a.len(),
{
    if a.len() > 0 {
        str_lt_irreflexive(a.drop_first());
    }
}

proof fn lemma_insert_pos(s: Seq<GameView>, x: Seq<char>)
    ensures
        insert_pos(s, x) <= s.len(),
        forall|i: int| 0 <= i < insert_pos(s, x) ==> !str_lt(x, #[trigger] s[i].start),
        insert_pos(s, x) < s.len() ==> str_lt(x, s[insert_pos(s, x) as int].start),
    decreases s.len(),
{
    if s.len() > 0 && !str_lt(x, s[0].start) {
        lemma_insert_pos(s.drop_first(), x);
        assert forall|i: int| 0 <= i < insert_pos(s, x) implies !str_lt(x, #[trigger] s[i].start) by {
            if i > 0 {
                assert(s[i] == s.drop_first()[i - 1]);
            }
        }
    }
}

/// No game comes before an earlier-starting one.
pub open spec fn ordered_by_start(s: Seq<GameView>) -> bool {
    forall|i: int, j: int| 0 <= i < j < s.len() ==> !str_lt(s[j].start, s[i].start)
}

/// The bug reads the games in order of first pitch: the sorted list has the
/// same number of games and no game after a later-starting one.
pub proof fn games_sorted_by_start(gs: Seq<GameView>)
    ensures
        sorted_by_start(gs).len() == gs.len(),
        ordered_by_start(sorted_by_start(gs)),
    decreases gs.len(),
{
    if gs.len() > 0 {
        games_sorted_by_start(gs.drop_last());
        let s = sorted_by_start(gs.drop_last());
        let x = gs.last();
        lemma_insert_pos(s, x.start);
        let p = insert_pos(s, x.start) as int;
        let out = s.insert(p, x);
        assert(out == sorted_by_start(gs));
        assert forall|i: int, j: int| 0 <= i < j < out.len() implies !str_lt(out[j].start, out[i].start) by {
            if j < p {
                assert(out[i] == s[i] && out[j] == s[j]);
            } else if j == p {
                assert(out[i] == s[i]);
            } else if i == p {
                assert(out[j] == s[j - 1]);
                assert(str_lt(x.start, s[p].start));
                if str_lt(s[j - 1].start, x.start) {
                    str_lt_transitive(s[j - 1].start, x.start, s[p].start);
                    if j - 1 > p {
                        assert(!str_lt(s[j - 1].start, s[p].start));
                    } else {
                        str_lt_irreflexive(s[p].start);
                    }
                }
            } else if i < p {
                assert(out[i] == s[i] && out[j] == s[j - 1]);
            } else {
                assert(out[i] == s[i - 1] && out[j] == s[j - 1]);
            }
        }
    }
}

proof fn lemma_text_pos(s: Seq<Seq<char>>, x: Seq<char>)
    ensures
        text_pos(s, x) <= s.len(),
        forall|i: int| 0 <= i < text_pos(s, x) ==> !str_lt(x, #[trigger] s[i]),
        text_pos(s, x) < s.len() ==> str_lt(x, s[text_pos(s, x) as int]),
    decreases s.len(),
{
    if s.len() > 0 && !str_lt(x, s[0]) {
        lemma_text_pos(s.drop_first(), x);
        assert forall|i: int| 0 <= i < text_pos(s, x) implies !str_lt(x, #[trigger] s[i]) by {
            if i > 0 {
                assert(s[i] == s.drop_first()[i - 1]);
            }
        }
    }
}

/// Edition dates come oldest first: the sorted list has every date and no
/// date after a later one.
pub proof fn dates_sorted(ds: Seq<Seq<char>>)
    ensures
        sorted_texts(ds).len() == ds.len(),
        forall|i: int, j: int| 0 <= i < j < sorted_texts(ds).len() ==> !str_lt(sorted_texts(ds)[j], sorted_texts(ds)[i]),
    decreases ds.len(),
{
    if ds.len() > 0 {
        dates_sorted(ds.drop_last());
        let s = sorted_texts(ds.drop_last());
        let x = ds.last();
        lemma_text_pos(s, x);
        let p = text_pos(s, x) as int;
        let out = s.insert(p, x);
        assert(out == sorted_texts(ds));
        assert forall|i: int, j: int| 0 <= i < j < out.len() implies !str_lt(out[j], out[i]) by {
            if j < p {
                assert(out[i] == s[i] && out[j] == s[j]);
            } else if j == p {
                assert(out[i] == s[i]);
            } else if i == p {
                assert(out[j] == s[j - 1]);
                assert(str_lt(x, s[p]));
                if str_lt(s[j - 1], x) {
                    str_lt_transitive(s[j - 1], x, s[p]);
                    if j - 1 > p {
                        assert(!str_lt(s[j - 1], s[p]));
                    } else {
                        str_lt_irreflexive(s[p]);
                    }
                }
            } else if i < p {
                assert(out[i] == s[i] && out[j] == s[j - 1]);
            } else {
                assert(out[i] == s[i - 1] && out[j] == s[j - 1]);
            }
        }
    }
}


// ------------------------------------------------------------ clean fields

proof fn lemma_without_controls(s: Seq<char>)
    ensures
        without_controls(s).len() <= s.len(),
        forall|i: int| 0 <= i < without_controls(s).len() ==> !is_control(#[trigger] without_controls(s)[i]),
    decreases s.len(),
{
    if s.len() > 0 {
        lemma_without_controls(s.drop_last());
        let prev = without_controls(s.drop_last());
        if !is_control(s.last()) {
            assert forall|i: int| 0 <= i < without_controls(s).len() implies !is_control(
                #[trigger] without_controls(s)[i],
            ) by {
                if i < prev.len() {
                    assert(without_controls(s)[i] == prev[i]);
                }
            }
        }
    }
}

/// A saved profile field is never longer than its limit and holds no
/// control characters.
pub proof fn clean_fields_fit(s: Seq<char>, max: nat)
    ensures
        spec_clean_field(s, max).len() <= max,
        forall|i: int| 0 <= i < spec_clean_field(s, max).len() ==> !is_control(#[trigger] spec_clean_field(s, max)[i]),
{
    let c = without_controls(trim(s));
    lemma_without_controls(trim(s));
    if c.len() > max {
        assert forall|i: int| 0 <= i < c.take(max as int).len() implies !is_control(#[trigger] c.take(max as int)[i]) by {
            assert(c.take(max as int)[i] == c[i]);
        }
    }
}

// -------------------------------------------------------------- xml escape

proof fn lemma_replace_keeps_out(s: Seq<char>, p: Seq<char>, r: Seq<char>, c: char)
    requires
        !s.contains(c),
        !r.contains(c),
    ensures
        !replace_seq(s, p, r).contains(c),
    decreases s.len(),
{
    if p.len() == 0 || s.len() == 0 {
    } else if crate::text::starts_with(s, p) {
        let rest = s.skip(p.len() as int);
        assert forall|i: int| 0 <= i < rest.len() implies rest[i] != c by {
            assert(rest[i] == s[i + p.len()]);
        }
        lemma_replace_keeps_out(rest, p, r, c);
        let out = r + replace_seq(rest, p, r);
        assert forall|i: int| 0 <= i < out.len() implies out[i] != c by {
            if i < r.len() {
                assert(out[i] == r[i]);
            } else {
                assert(out[i] == replace_seq(rest, p, r)[i - r.len()]);
            }
        }
    } else {
        let rest = s.drop_first();
        assert forall|i: int| 0 <= i < rest.len() implies rest[i] != c by {
            assert(rest[i] == s[i + 1]);
        }
        lemma_replace_keeps_out(rest, p, r, c);
        let out = seq![s[0]] + replace_seq(rest, p, r);
        assert forall|i: int| 0 <= i < out.len() implies out[i] != c by {
            if i == 0 {
                assert(out[0] == s[0]);
            } else {
                assert(out[i] == replace_seq(rest, p, r)[i - 1]);
            }
        }
    }
}

proof fn lemma_replace_takes_out(s: Seq<char>, c: char, r: Seq<char>)
    requires
        !r.contains(c),
    ensures
        !replace_seq(s, seq![c], r).contains(c),
    decreases s.len(),
{
    let p = seq![c];
    if s.len() == 0 {
    } else if crate::text::starts_with(s, p) {
        let rest = s.skip(1);
        lemma_replace_takes_out(rest, c, r);
        let out = r + replace_seq(rest, p, r);
        assert forall|i: int| 0 <= i < out.len() implies out[i] != c by {
            if i < r.len() {
                assert(out[i] == r[i]);
            } else {
                assert(out[i] == replace_seq(rest, p, r)[i - r.len()]);
            }
        }
    } else {
        let rest = s.drop_first();
        lemma_replace_takes_out(rest, c, r);
        assert(s.take(1) =~= seq![s[0]]);
        assert(s[0] != c);
        let out = seq![s[0]] + replace_seq(rest, p, r);
        assert forall|i: int| 0 <= i < out.len() implies out[i] != c by {
            if i == 0 {
                assert(out[0] == s[0]);
            } else {
                assert(out[i] == replace_seq(rest, p, r)[i - 1]);
            }
        }
    }
}

/// Escaped XML text holds no `<`, `>` or `"`: a path cannot break out of
/// the element or attribute it is written into.
pub proof fn xml_escape_is_inert(s: Seq<char>)
    ensures
        !spec_xml_escape(s).contains('<'),
        !spec_xml_escape(s).contains('>'),
        !spec_xml_escape(s).contains('"'),
{
    reveal_strlit("&");
    reveal_strlit("<");
    reveal_strlit(">");
    reveal_strlit("\"");
    reveal_strlit("&amp;");
    reveal_strlit("&lt;");
    reveal_strlit("&gt;");
    reveal_strlit("&quot;");
    let a = replace_seq(s, "&"@, "&amp;"@);
    assert("<"@ =~= seq!['<']);
    assert(">"@ =~= seq!['>']);
    assert("\""@ =~= seq!['"']);
    assert(!"&lt;"@.contains('<')) by {
        assert forall|i: int| 0 <= i < "&lt;"@.len() implies "&lt;"@[i] != '<' by {}
    }
    assert(!"&gt;"@.contains('<') && !"&gt;"@.contains('>')) by {
        assert forall|i: int| 0 <= i < "&gt;"@.len() implies "&gt;"@[i] != '<' && "&gt;"@[i] != '>' by {}
    }
    assert(!"&quot;"@.contains('<') && !"&quot;"@.contains('>') && !"&quot;"@.contains('"')) by {
        assert forall|i: int| 0 <= i < "&quot;"@.len() implies "&quot;"@[i] != '<' && "&quot;"@[i] != '>'
            && "&quot;"@[i] != '"' by {}
    }
    lemma_replace_takes_out(a, '<', "&lt;"@);
    let b = replace_seq(a, "<"@, "&lt;"@);
    lemma_replace_keeps_out(b, ">"@, "&gt;"@, '<');
    lemma_replace_takes_out(b, '>', "&gt;"@);
    let c = replace_seq(b, ">"@, "&gt;"@);
    lemma_replace_keeps_out(c, "\""@, "&quot;"@, '<');
    lemma_replace_keeps_out(c, "\""@, "&quot;"@, '>');
    lemma_replace_takes_out(c, '"', "&quot;"@);
}

// ---------------------------------------------------------------- ad hosts

proof fn lemma_trim_end_char_append(a: Seq<char>, b: Seq<char>, c: char)
    requires
        trim_end_char(b, c).len() > 0,
    ensures
        trim_end_char(a + b, c) == a + trim_end_char(b, c),
    decreases b.len(),
{
    if b.len() > 0 && b.last() == c {
        assert((a + b).drop_last() =~= a + b.drop_last());
        lemma_trim_end_char_append(a, b.drop_last(), c);
    } else {
        assert((a + b).last() == b.last());
    }
}

proof fn lemma_lower_append(a: Seq<char>, b: Seq<char>)
    ensures
        lower(a + b) == lower(a) + lower(b),
{
    assert(lower(a + b) =~= lower(a) + lower(b));
}

/// The blocker covers whole domains: if a host is listed (itself or as a
/// subdomain), every subdomain of it is too.
pub proof fn subdomains_are_covered(label: Seq<char>, host: Seq<char>, domains: Seq<Seq<char>>)
    requires
        host_in(host, domains),
        forall|i: int| 0 <= i < domains.len() ==> #[trigger] domains[i].len() > 0,
    ensures
        host_in(label + "."@ + host, domains),
{
    reveal_strlit(".");
    let i = choose|i: int| 0 <= i < domains.len() && under_domain(normal_host(host), #[trigger] domains[i]);
    let d = domains[i];
    let t = trim_end_char(host, '.');
    assert(normal_host(host) == lower(t));
    assert(lower(t).len() == t.len());
    assert(t.len() > 0);
    let pre = label + "."@;
    assert(label + "."@ + host == pre + host);
    lemma_trim_end_char_append(pre, host, '.');
    lemma_lower_append(pre, t);
    let n = normal_host(pre + host);
    assert(n == lower(pre) + lower(t));
    let suffix = seq!['.'] + d;
    if lower(t) == d {
        assert(lower(pre).last() == lower_char('.'));
        assert(lower_char('.') == '.');
        assert(n.skip(n.len() - suffix.len()) =~= suffix);
    } else {
        assert(ends_with(lower(t), suffix));
        assert(n.skip(n.len() - suffix.len()) =~= lower(t).skip(lower(t).len() - suffix.len()));
    }
    assert(under_domain(n, d));
}

// ------------------------------------------------------------- the edition

/// A run that ends well files at least one card, and exactly one of them is
/// the lead.
pub proof fn finished_runs_have_a_lead(
    st: StreamView,
    code: Seq<char>,
    tail: Seq<char>,
    notes: Notes,
    r: Result<EditorOutput, String>,
)
    requires
        finish_ok(st, code, tail, notes, r),
        r is Ok,
    ensures
        ({
            let cs = card_views(r->Ok_0.cards@);
            &&& cs.len() > 0
            &&& exists|i: int|
                0 <= i < cs.len() && #[trigger] cs[i].size == "lead"@ && forall|j: int|
                    0 <= j < cs.len() && j != i ==> cs[j].size != "lead"@
        }),
{
    let text = crate::stream::chosen_text(st)->Some_0;
    let c = crate::stream::pick_candidate(text, st.texts)->Some_0;
    let v = choose|v: JsonValue|
        crate::editor::edition_ok(c, Some(v)) && (if edition_cards(v).len() == 0 {
            r matches Err(m) && m@ == crate::stream::NO_CARDS@
        } else {
            r matches Ok(o) && output_from(o, st, v)
        });
    edition_has_one_lead(v);
}


// ------------------------------------------------------------ copy desk

proof fn lemma_short_upto(cards: Seq<CardView>, n: int)
    requires
        0 <= n <= cards.len(),
        cards.len() <= usize::MAX,
    ensures
        forall|k: int| 0 <= k < short_upto(cards, n).len() ==> #[trigger] short_upto(cards, n)[k] < n,
        forall|a: int, b: int|
            0 <= a < b < short_upto(cards, n).len() ==> short_upto(cards, n)[a] < short_upto(cards, n)[b],
        forall|i: int| 0 <= i < n ==> (short_upto(cards, n).contains(i as usize) <==> is_short(#[trigger] cards[i])),
    decreases n,
{
    if n > 0 {
        lemma_short_upto(cards, n - 1);
        let p = short_upto(cards, n - 1);
        let s = short_upto(cards, n);
        assert forall|a: int, b: int| 0 <= a < b < s.len() implies s[a] < s[b] by {
            if is_short(cards[n - 1]) {
                assert(s == p.push((n - 1) as usize));
                if b == s.len() - 1 {
                    assert(s[a] == p[a]);
                } else {
                    assert(s[a] == p[a] && s[b] == p[b]);
                }
            }
        }
        assert forall|i: int| 0 <= i < n implies (s.contains(i as usize) <==> is_short(#[trigger] cards[i])) by {
            if is_short(cards[n - 1]) {
                assert(s == p.push((n - 1) as usize));
                if i < n - 1 {
                    if s.contains(i as usize) {
                        let k = choose|k: int| 0 <= k < s.len() && s[k] == i as usize;
                        if k < p.len() {
                            assert(p[k] == s[k]);
                            assert(p.contains(i as usize));
                        }
                    }
                    if p.contains(i as usize) {
                        let k = choose|k: int| 0 <= k < p.len() && p[k] == i as usize;
                        assert(s[k] == p[k]);
                    }
                } else {
                    assert(s[s.len() - 1] == (n - 1) as usize);
                }
            } else {
                assert(s == p);
                if i == n - 1 && s.contains(i as usize) {
                    let k = choose|k: int| 0 <= k < s.len() && s[k] == i as usize;
                    assert(s[k] < n - 1);
                }
            }
        }
    }
}

/// The short stories the copy desk sends back are exactly the cards under
/// 90% of their minimum length, each once, in increasing order.
pub proof fn short_cards_are_the_short_ones(cards: Seq<CardView>)
    requires
        cards.len() <= usize::MAX,
    ensures
        forall|k: int|
            0 <= k < short_upto(cards, cards.len() as int).len() ==> #[trigger] short_upto(
                cards,
                cards.len() as int,
            )[k] < cards.len(),
        forall|a: int, b: int|
            0 <= a < b < short_upto(cards, cards.len() as int).len() ==> short_upto(cards, cards.len() as int)[a]
                < short_upto(cards, cards.len() as int)[b],
        forall|i: int|
            0 <= i < cards.len() ==> (short_upto(cards, cards.len() as int).contains(i as usize) <==> is_short(
                #[trigger] cards[i],
            )),
{
    lemma_short_upto(cards, cards.len() as int);
}


// ------------------------------------------------------------ ad blocking

proof fn lemma_lower_trim_dots(s: Seq<char>)
    ensures
        trim_end_char(lower(s), '.') == lower(trim_end_char(s, '.')),
    decreases s.len(),
{
    if s.len() > 0 {
        assert(lower(s).last() == crate::text::lower_char(s.last()));
        assert(lower(s).drop_last() =~= lower(s.drop_last()));
        if s.last() == '.' {
            lemma_lower_trim_dots(s.drop_last());
        } else {
            assert(crate::text::lower_char(s.last()) != '.');
        }
    }
}

/// Whether a host is listed does not depend on the case of its ASCII
/// letters (two hosts equal in lower case are listed alike) or on dots at
/// its end.
pub proof fn host_match_ignores_case_and_dots(host: Seq<char>, other: Seq<char>, domains: Seq<Seq<char>>)
    ensures
        lower(other) == lower(host) ==> host_in(other, domains) == host_in(host, domains),
        host_in(host.push('.'), domains) == host_in(host, domains),
{
    lemma_lower_trim_dots(host);
    lemma_lower_trim_dots(other);
    assert(normal_host(host) == trim_end_char(lower(host), '.'));
    assert(normal_host(other) == trim_end_char(lower(other), '.'));
    assert(host.push('.').drop_last() =~= host);
    assert(trim_end_char(host.push('.'), '.') == trim_end_char(host, '.'));
    assert(normal_host(host.push('.')) == normal_host(host));
}


// ------------------------------------------------------------ JSON repair

proof fn lemma_repair_copies(chars: Seq<char>, i: int)
    requires
        0 <= i <= chars.len(),
        !chars.contains('"'),
    ensures
        repair_from(chars, i, false) == chars.skip(i),
    decreases chars.len() - i,
{
    if i < chars.len() {
        lemma_repair_copies(chars, i + 1);
        assert(chars[i] != '"');
        assert(chars.skip(i) =~= seq![chars[i]] + chars.skip(i + 1));
    } else {
        assert(chars.skip(i) =~= Seq::<char>::empty());
    }
}

/// A reply with no double quote holds no string to mend: the repair gives
/// it back as it is.
pub proof fn repair_leaves_quoteless_text_alone(text: Seq<char>)
    requires
        !text.contains('"'),
    ensures
        repair_from(text, 0, false) == text,
{
    lemma_repair_copies(text, 0);
    assert(text.skip(0) =~= text);
}


// ------------------------------------------------------------ stories

/// A paragraph as a story prints it: not empty, no white space at either
/// end, and inside only single spaces between words.
pub open spec fn clean_para(p: Seq<char>) -> bool {
    &&& p.len() > 0
    &&& !crate::text::is_ws(p[0])
    &&& !crate::text::is_ws(p.last())
    &&& forall|k: int| 0 <= k < p.len() && crate::text::is_ws(#[trigger] p[k]) ==> p[k] == ' ' && !crate::text::is_ws(p[k + 1])
}

pub open spec fn no_ws(w: Seq<char>) -> bool {
    forall|k: int| 0 <= k < w.len() ==> !crate::text::is_ws(#[trigger] w[k])
}

proof fn lemma_words_clean(s: Seq<char>, cur: Seq<char>)
    requires
        no_ws(cur),
    ensures
        forall|i: int|
            0 <= i < crate::text::words_from(s, cur).len() ==> #[trigger] crate::text::words_from(s, cur)[i].len() > 0
                && no_ws(crate::text::words_from(s, cur)[i]),
    decreases s.len(),
{
    let r = crate::text::words_from(s, cur);
    if s.len() == 0 {
        if cur.len() > 0 {
            assert(r =~= seq![cur]);
            assert(r[0] == cur);
        } else {
            assert(r =~= Seq::<Seq<char>>::empty());
        }
    } else if crate::text::is_ws(s[0]) {
        lemma_words_clean(s.drop_first(), Seq::empty());
        let rest = crate::text::words_from(s.drop_first(), Seq::empty());
        let head: Seq<Seq<char>> = if cur.len() > 0 {
            seq![cur]
        } else {
            Seq::empty()
        };
        assert(r == head + rest);
        assert forall|i: int| 0 <= i < r.len() implies #[trigger] r[i].len() > 0 && no_ws(r[i]) by {
            if i < head.len() {
                assert(r[i] == cur);
            } else {
                assert(r[i] == rest[i - head.len()]);
            }
        }
    } else {
        let c2 = cur.push(s[0]);
        assert(no_ws(c2)) by {
            assert forall|k: int| 0 <= k < c2.len() implies !crate::text::is_ws(#[trigger] c2[k]) by {
                if k < cur.len() {
                    assert(c2[k] == cur[k]);
                }
            }
        }
        lemma_words_clean(s.drop_first(), c2);
        assert(r == crate::text::words_from(s.drop_first(), c2));
    }
}

proof fn lemma_join_spaced(a: Seq<char>, b: Seq<char>)
    requires
        clean_para(a),
        clean_para(b),
    ensures
        clean_para(a + " "@ + b),
{
    reveal_strlit(" ");
    let r = a + " "@ + b;
    assert(r.len() == a.len() + 1 + b.len());
    assert(r[0] == a[0]);
    assert(r.last() == b.last());
    assert forall|k: int| 0 <= k < r.len() && crate::text::is_ws(#[trigger] r[k]) implies r[k] == ' ' && !crate::text::is_ws(r[k + 1]) by {
        if k < a.len() {
            assert(r[k] == a[k]);
            if k + 1 < a.len() {
                assert(r[k + 1] == a[k + 1]);
            } else {
                assert(k == a.len() - 1);
                assert(a[k] == a.last());
            }
        } else if k == a.len() {
            assert(r[k + 1] == b[0]);
        } else {
            assert(r[k] == b[k - a.len() - 1]);
            assert(r[k + 1] == b[k - a.len()]);
        }
    }
}

proof fn lemma_word_clean(w: Seq<char>)
    requires
        w.len() > 0,
        no_ws(w),
    ensures
        clean_para(w),
{
    assert(w.last() == w[w.len() - 1]);
}

proof fn lemma_join_words_clean(ws: Seq<Seq<char>>)
    requires
        ws.len() > 0,
        forall|i: int| 0 <= i < ws.len() ==> #[trigger] ws[i].len() > 0 && no_ws(ws[i]),
    ensures
        clean_para(crate::text::join(ws, " "@)),
    decreases ws.len(),
{
    reveal_strlit(" ");
    if ws.len() == 1 {
        lemma_word_clean(ws[0]);
    } else {
        let p = ws.drop_last();
        assert forall|i: int| 0 <= i < p.len() implies #[trigger] p[i].len() > 0 && no_ws(p[i]) by {
            assert(p[i] == ws[i]);
        }
        lemma_join_words_clean(p);
        lemma_word_clean(ws.last());
        lemma_join_spaced(crate::text::join(p, " "@), ws.last());
    }
}

proof fn lemma_line_clean(line: Seq<char>)
    ensures
        crate::text::join(crate::text::words(line), " "@).len() > 0 ==> clean_para(
            crate::text::join(crate::text::words(line), " "@),
        ),
{
    let ws = crate::text::words(line);
    lemma_words_clean(line, Seq::empty());
    if ws.len() > 0 {
        lemma_join_words_clean(ws);
    }
}

proof fn lemma_fold_clean(lines: Seq<Seq<char>>)
    ensures
        forall|i: int| 0 <= i < para_fold(lines).0.len() ==> clean_para(#[trigger] para_fold(lines).0[i]),
        para_fold(lines).1.len() > 0 ==> clean_para(para_fold(lines).1),
    decreases lines.len(),
{
    if lines.len() > 0 {
        lemma_fold_clean(lines.drop_last());
        let st = para_fold(lines.drop_last());
        let line = lines.last();
        lemma_line_clean(line);
        let j = crate::text::join(crate::text::words(line), " "@);
        assert(para_fold(lines) == para_step(st, line));
        if j.len() > 0 && st.1.len() > 0 {
            lemma_join_spaced(st.1, j);
        }
        let nst = para_step(st, line);
        assert forall|i: int| 0 <= i < nst.0.len() implies clean_para(#[trigger] nst.0[i]) by {
            if i < st.0.len() {
                assert(nst.0[i] == st.0[i]);
            }
        }
    }
}

/// Every paragraph of a tidied story is clean: not empty, no white space at
/// either end, and only single spaces between its words; no line break or
/// tab is left inside one.
pub proof fn tidy_paragraphs_are_clean(lines: Seq<Seq<char>>)
    ensures
        forall|i: int| 0 <= i < paragraphs(lines).len() ==> clean_para(#[trigger] paragraphs(lines)[i]),
{
    lemma_fold_clean(lines);
    let st = para_fold(lines);
    assert forall|i: int| 0 <= i < paragraphs(lines).len() implies clean_para(#[trigger] paragraphs(lines)[i]) by {
        if i < st.0.len() {
            assert(paragraphs(lines)[i] == st.0[i]);
        }
    }
}


proof fn lemma_unlisted_unchanged(cards: Seq<CardView>, short: Seq<usize>, reply: JsonValue)
    requires
        forall|k: int| 0 <= k < short.len() ==> #[trigger] short[k] < cards.len(),
    ensures
        apply_upto(cards, short, reply).0.len() == cards.len(),
        apply_upto(cards, short, reply).1 <= short.len(),
        forall|i: int|
            0 <= i < cards.len() && !short.contains(i as usize) ==> #[trigger] apply_upto(cards, short, reply).0[i]
                == cards[i],
    decreases short.len(),
{
    if short.len() > 0 {
        let p = short.drop_last();
        assert forall|k: int| 0 <= k < p.len() implies #[trigger] p[k] < cards.len() by {
            assert(p[k] == short[k]);
        }
        lemma_unlisted_unchanged(cards, p, reply);
        assert forall|i: int| 0 <= i < cards.len() && !short.contains(i as usize) implies #[trigger] apply_upto(
            cards,
            short,
            reply,
        ).0[i] == cards[i] by {
            assert(short[short.len() - 1] == short.last());
            assert(short.last() != i as usize);
            if p.contains(i as usize) {
                let k = choose|k: int| 0 <= k < p.len() && p[k] == i as usize;
                assert(short[k] == p[k]);
            }
        }
    }
}

/// The copy desk touches only the stories it sent back: a card that was not
/// short comes back as it was, and no more stories are counted as rewritten
/// than were sent.
pub proof fn rewrites_touch_only_short_cards(cards: Seq<CardView>, short: Seq<usize>, reply: JsonValue)
    requires
        forall|k: int| 0 <= k < short.len() ==> #[trigger] short[k] < cards.len(),
    ensures
        apply_upto(cards, short, reply).1 <= short.len(),
        forall|i: int|
            0 <= i < cards.len() && !short.contains(i as usize) ==> #[trigger] apply_upto(cards, short, reply).0[i]
                == cards[i],
{
    lemma_unlisted_unchanged(cards, short, reply);
}


/// No ad-tech domain in the list is blank.
proof fn lemma_ad_hosts_not_blank()
    ensures
        forall|i: int| 0 <= i < texts(AD_HOSTS@).len() ==> #[trigger] texts(AD_HOSTS@)[i].len() > 0,
{
    assert forall|i: int| 0 <= i < texts(AD_HOSTS@).len() implies #[trigger] texts(AD_HOSTS@)[i].len() > 0 by {
        reveal_strlit("doubleclick.net");
        reveal_strlit("googlesyndication.com");
        reveal_strlit("googleadservices.com");
        reveal_strlit("googletagservices.com");
        reveal_strlit("adservice.google.com");
        reveal_strlit("2mdn.net");
        reveal_strlit("amazon-adsystem.com");
        reveal_strlit("adnxs.com");
        reveal_strlit("adsrvr.org");
        reveal_strlit("rubiconproject.com");
        reveal_strlit("pubmatic.com");
        reveal_strlit("openx.net");
        reveal_strlit("criteo.com");
        reveal_strlit("criteo.net");
        reveal_strlit("casalemedia.com");
        reveal_strlit("indexww.com");
        reveal_strlit("3lift.com");
        reveal_strlit("triplelift.com");
        reveal_strlit("sharethrough.com");
        reveal_strlit("smartadserver.com");
        reveal_strlit("teads.tv");
        reveal_strlit("yieldmo.com");
        reveal_strlit("media.net");
        reveal_strlit("bidswitch.net");
        reveal_strlit("adform.net");
        reveal_strlit("advertising.com");
        reveal_strlit("serving-sys.com");
        reveal_strlit("mathtag.com");
        reveal_strlit("gumgum.com");
        reveal_strlit("sonobi.com");
        reveal_strlit("lijit.com");
        reveal_strlit("sovrn.com");
        reveal_strlit("contextweb.com");
        reveal_strlit("spotxchange.com");
        reveal_strlit("spotx.tv");
        reveal_strlit("springserve.com");
        reveal_strlit("tremorhub.com");
        reveal_strlit("adroll.com");
        reveal_strlit("nativo.com");
        reveal_strlit("adsymptotic.com");
        reveal_strlit("taboola.com");
        reveal_strlit("outbrain.com");
        reveal_strlit("zergnet.com");
        reveal_strlit("revcontent.com");
        reveal_strlit("mgid.com");
        reveal_strlit("connatix.com");
        reveal_strlit("primis.tech");
        reveal_strlit("vidazoo.com");
        reveal_strlit("aniview.com");
        reveal_strlit("adthrive.com");
        reveal_strlit("mediavine.com");
        reveal_strlit("pub.network");
        reveal_strlit("htlbid.com");
        reveal_strlit("moatads.com");
        reveal_strlit("adsafeprotected.com");
        reveal_strlit("doubleverify.com");
        reveal_strlit("scorecardresearch.com");
        reveal_strlit("quantserve.com");
        reveal_strlit("bluekai.com");
        reveal_strlit("krxd.net");
        reveal_strlit("rlcdn.com");
        reveal_strlit("agkn.com");
        reveal_strlit("liadm.com");
        reveal_strlit("id5-sync.com");
    }
}

/// A subdomain of an ad-tech host is an ad-tech host too: `is_ad_host(h)`
/// implies `is_ad_host(label + "." + h)`.
pub proof fn ad_host_subdomains_are_ad_hosts(label: Seq<char>, host: Seq<char>)
    requires
        host_in(host, texts(AD_HOSTS@)),
    ensures
        host_in(label + "."@ + host, texts(AD_HOSTS@)),
{
    lemma_ad_hosts_not_blank();
    subdomains_are_covered(label, host, texts(AD_HOSTS@));
}


// ------------------------------------------------------------- score bug

/// A game line is well formed: its link is the game's Gameday page, it has
/// a situation exactly when the game is live (a count of at most 4 balls, 3
/// strikes and 3 outs), and where to watch lists at most three channels,
/// each once and none blank.
pub proof fn game_lines_are_well_formed(g: JsonValue, team_id: u32)
    ensures
        crate::scores::spec_game_line(g, team_id) matches Some(v) ==> {
            &&& v.url == "https://www.mlb.com/gameday/"@ + decimal(v.game_pk as nat)
            &&& (v.situation is Some <==> v.state == "live"@)
            &&& (v.situation matches Some(st) ==> st.balls <= 4 && st.strikes <= 3 && st.outs <= 3)
            &&& v.tv.len() <= 3
            &&& forall|i: int, j: int| 0 <= i < j < v.tv.len() ==> v.tv[i] != v.tv[j]
            &&& forall|i: int| 0 <= i < v.tv.len() ==> #[trigger] v.tv[i].len() > 0
        },
{
    tv_is_short_and_distinct(g, true);
    tv_is_short_and_distinct(g, false);
}


/// How many of the first `n` cards differ between `a` and `b`.
pub open spec fn diff_count(a: Seq<CardView>, b: Seq<CardView>, n: int) -> nat
    decreases n,
{
    if n <= 0 {
        0
    } else {
        diff_count(a, b, n - 1) + if a[n - 1] != b[n - 1] {
            1nat
        } else {
            0nat
        }
    }
}

proof fn lemma_diff_count_update(a: Seq<CardView>, b: Seq<CardView>, i: int, x: CardView, n: int)
    requires
        a.len() == b.len(),
        0 <= i < b.len(),
        a[i] == b[i],
        x != a[i],
        0 <= n <= b.len(),
    ensures
        diff_count(a, b.update(i, x), n) == diff_count(a, b, n) + if i < n {
            1nat
        } else {
            0nat
        },
    decreases n,
{
    if n > 0 {
        lemma_diff_count_update(a, b, i, x, n - 1);
    }
}

proof fn lemma_rewrite_count(cards: Seq<CardView>, short: Seq<usize>, reply: JsonValue)
    requires
        forall|k: int| 0 <= k < short.len() ==> #[trigger] short[k] < cards.len(),
        forall|a: int, b: int| 0 <= a < b < short.len() ==> short[a] < short[b],
    ensures
        apply_upto(cards, short, reply).1 == diff_count(cards, apply_upto(cards, short, reply).0, cards.len() as int),
    decreases short.len(),
{
    lemma_unlisted_unchanged(cards, short, reply);
    if short.len() == 0 {
        assert(diff_count(cards, cards, cards.len() as int) == 0) by {
            lemma_diff_count_same(cards, cards.len() as int);
        }
    } else {
        let p = short.drop_last();
        assert forall|k: int| 0 <= k < p.len() implies #[trigger] p[k] < cards.len() by {
            assert(p[k] == short[k]);
        }
        assert forall|a: int, b: int| 0 <= a < b < p.len() implies p[a] < p[b] by {
            assert(p[a] == short[a] && p[b] == short[b]);
        }
        lemma_rewrite_count(cards, p, reply);
        lemma_unlisted_unchanged(cards, p, reply);
        let cs = apply_upto(cards, p, reply).0;
        let i = short.last() as int;
        assert(!p.contains(i as usize)) by {
            if p.contains(i as usize) {
                let k = choose|k: int| 0 <= k < p.len() && p[k] == i as usize;
                assert(short[k] == p[k]);
                assert(short[k] < short[short.len() - 1]);
            }
        }
        assert(cs[i] == cards[i]);
        match crate::desk::rewrite_of(reply, i as nat) {
            Some(t) => {
                if t.len() > spec_story_len(cs[i]) {
                    let x = CardView { story: Some(t), ..cs[i] };
                    assert(spec_story_len(x) == t.len());
                    assert(x != cards[i]);
                    lemma_diff_count_update(cards, cs, i, x, cards.len() as int);
                }
            },
            None => {},
        }
    }
}

proof fn lemma_diff_count_same(a: Seq<CardView>, n: int)
    ensures
        diff_count(a, a, n) == 0,
    decreases n,
{
    if n > 0 {
        lemma_diff_count_same(a, n - 1);
    }
}

/// The copy desk's count is exact: sending back distinct positions (as
/// `short_cards` gives them, in increasing order), the number it reports is
/// the number of cards whose story changed.
pub proof fn rewrite_count_is_exact(cards: Seq<CardView>, short: Seq<usize>, reply: JsonValue)
    requires
        forall|k: int| 0 <= k < short.len() ==> #[trigger] short[k] < cards.len(),
        forall|a: int, b: int| 0 <= a < b < short.len() ==> short[a] < short[b],
    ensures
        apply_upto(cards, short, reply).1 == diff_count(cards, apply_upto(cards, short, reply).0, cards.len() as int),
{
    lemma_rewrite_count(cards, short, reply);
}


// ------------------------------------------------------- story words

pub open spec fn all_ws(s: Seq<char>) -> bool {
    forall|k: int| 0 <= k < s.len() ==> crate::text::is_ws(#[trigger] s[k])
}

/// The words of each text, one text after another.
pub open spec fn flat_words(parts: Seq<Seq<char>>) -> Seq<Seq<char>>
    decreases parts.len(),
{
    if parts.len() == 0 {
        Seq::empty()
    } else {
        flat_words(parts.drop_last()) + crate::text::words(parts.last())
    }
}

proof fn lemma_flat_append(a: Seq<Seq<char>>, b: Seq<Seq<char>>)
    ensures
        flat_words(a + b) == flat_words(a) + flat_words(b),
    decreases b.len(),
{
    if b.len() == 0 {
        assert(a + b =~= a);
        assert(flat_words(a) + flat_words(b) =~= flat_words(a));
    } else {
        lemma_flat_append(a, b.drop_last());
        assert((a + b).drop_last() =~= a + b.drop_last());
        assert((a + b).last() == b.last());
        assert(flat_words(a + b) =~= flat_words(a) + flat_words(b));
    }
}

/// A white-space character splits the words: those before it, then those
/// after it.
proof fn lemma_words_split_at(a: Seq<char>, c: char, b: Seq<char>, cur: Seq<char>)
    requires
        crate::text::is_ws(c),
    ensures
        crate::text::words_from(a + seq![c] + b, cur) == crate::text::words_from(a, cur) + crate::text::words(b),
    decreases a.len(),
{
    let s = a + seq![c] + b;
    if a.len() == 0 {
        assert(s[0] == c);
        assert(s.drop_first() =~= b);
        let head: Seq<Seq<char>> = if cur.len() > 0 {
            seq![cur]
        } else {
            Seq::empty()
        };
        assert(crate::text::words_from(a, cur) == head);
    } else {
        assert(s[0] == a[0]);
        assert(s.drop_first() =~= a.drop_first() + seq![c] + b);
        if crate::text::is_ws(a[0]) {
            lemma_words_split_at(a.drop_first(), c, b, Seq::empty());
            let head: Seq<Seq<char>> = if cur.len() > 0 {
                seq![cur]
            } else {
                Seq::empty()
            };
            assert(crate::text::words_from(s, cur) == head + crate::text::words_from(s.drop_first(), Seq::empty()));
            assert(crate::text::words_from(a, cur) == head + crate::text::words_from(a.drop_first(), Seq::empty()));
            assert(crate::text::words_from(s, cur) =~= crate::text::words_from(a, cur) + crate::text::words(b));
        } else {
            lemma_words_split_at(a.drop_first(), c, b, cur.push(a[0]));
        }
    }
}

/// Leading white space holds no words.
proof fn lemma_words_ws_prefix(w: Seq<char>, b: Seq<char>)
    requires
        all_ws(w),
    ensures
        crate::text::words(w + b) == crate::text::words(b),
    decreases w.len(),
{
    if w.len() == 0 {
        assert(w + b =~= b);
    } else {
        let e: Seq<char> = Seq::empty();
        lemma_words_split_at(e, w[0], w.drop_first() + b, Seq::empty());
        assert(e + seq![w[0]] + (w.drop_first() + b) =~= w + b);
        assert(crate::text::words_from(e, Seq::empty()) =~= Seq::<Seq<char>>::empty());
        assert(crate::text::words(w + b) =~= crate::text::words(w.drop_first() + b));
        assert(all_ws(w.drop_first())) by {
            assert forall|k: int| 0 <= k < w.drop_first().len() implies crate::text::is_ws(#[trigger] w.drop_first()[k]) by {
                assert(w.drop_first()[k] == w[k + 1]);
            }
        }
        lemma_words_ws_prefix(w.drop_first(), b);
    }
}

/// A run of white space splits the words.
proof fn lemma_words_sep(a: Seq<char>, sep: Seq<char>, b: Seq<char>)
    requires
        sep.len() > 0,
        all_ws(sep),
    ensures
        crate::text::words(a + sep + b) == crate::text::words(a) + crate::text::words(b),
{
    lemma_words_split_at(a, sep[0], sep.drop_first() + b, Seq::empty());
    assert(a + seq![sep[0]] + (sep.drop_first() + b) =~= a + sep + b);
    assert(all_ws(sep.drop_first())) by {
        assert forall|k: int| 0 <= k < sep.drop_first().len() implies crate::text::is_ws(#[trigger] sep.drop_first()[k]) by {
            assert(sep.drop_first()[k] == sep[k + 1]);
        }
    }
    lemma_words_ws_prefix(sep.drop_first(), b);
}

/// The words of texts joined by white space are the texts' words.
proof fn lemma_words_join(parts: Seq<Seq<char>>, sep: Seq<char>)
    requires
        sep.len() > 0,
        all_ws(sep),
    ensures
        crate::text::words(crate::text::join(parts, sep)) == flat_words(parts),
    decreases parts.len(),
{
    if parts.len() == 0 {
        assert(crate::text::words(Seq::<char>::empty()) =~= Seq::<Seq<char>>::empty());
    } else if parts.len() == 1 {
        assert(parts.drop_last() =~= Seq::<Seq<char>>::empty());
        assert(flat_words(parts.drop_last()) == Seq::<Seq<char>>::empty());
        assert(parts.last() == parts[0]);
        assert(flat_words(parts) =~= crate::text::words(parts[0]));
    } else {
        lemma_words_join(parts.drop_last(), sep);
        lemma_words_sep(crate::text::join(parts.drop_last(), sep), sep, parts.last());
    }
}

/// A word on its own is one word.
proof fn lemma_word_alone(w: Seq<char>, cur: Seq<char>)
    requires
        no_ws(w),
        cur.len() + w.len() > 0,
    ensures
        crate::text::words_from(w, cur) == seq![cur + w],
    decreases w.len(),
{
    if w.len() == 0 {
        assert(cur + w =~= cur);
    } else {
        assert(!crate::text::is_ws(w[0]));
        assert(no_ws(w.drop_first())) by {
            assert forall|k: int| 0 <= k < w.drop_first().len() implies !crate::text::is_ws(#[trigger] w.drop_first()[k]) by {
                assert(w.drop_first()[k] == w[k + 1]);
            }
        }
        lemma_word_alone(w.drop_first(), cur.push(w[0]));
        assert(cur.push(w[0]) + w.drop_first() =~= cur + w);
    }
}

/// Words put back together with single spaces give the same words.
proof fn lemma_words_of_joined_words(line: Seq<char>)
    ensures
        crate::text::words(crate::text::join(crate::text::words(line), " "@)) == crate::text::words(line),
{
    reveal_strlit(" ");
    let ws = crate::text::words(line);
    assert(all_ws(" "@)) by {
        assert(" "@[0] == ' ');
    }
    lemma_words_join(ws, " "@);
    lemma_words_clean(line, Seq::empty());
    lemma_flat_of_words(ws);
}

proof fn lemma_flat_of_words(ws: Seq<Seq<char>>)
    requires
        forall|i: int| 0 <= i < ws.len() ==> #[trigger] ws[i].len() > 0 && no_ws(ws[i]),
    ensures
        flat_words(ws) == ws,
    decreases ws.len(),
{
    if ws.len() > 0 {
        let p = ws.drop_last();
        assert forall|i: int| 0 <= i < p.len() implies #[trigger] p[i].len() > 0 && no_ws(p[i]) by {
            assert(p[i] == ws[i]);
        }
        lemma_flat_of_words(p);
        lemma_word_alone(ws.last(), Seq::empty());
        assert(Seq::<char>::empty() + ws.last() =~= ws.last());
        assert(ws =~= p.push(ws.last()));
    }
}

/// Reading lines into paragraphs keeps every word, in order.
proof fn lemma_fold_words(lines: Seq<Seq<char>>)
    ensures
        flat_words(para_fold(lines).0) + crate::text::words(para_fold(lines).1) == flat_words(lines),
    decreases lines.len(),
{
    reveal_strlit(" ");
    let e: Seq<char> = Seq::empty();
    assert(crate::text::words(e) =~= Seq::<Seq<char>>::empty());
    if lines.len() == 0 {
        assert(flat_words(Seq::<Seq<char>>::empty()) =~= Seq::<Seq<char>>::empty());
    } else {
        lemma_fold_words(lines.drop_last());
        let st = para_fold(lines.drop_last());
        let line = lines.last();
        let j = crate::text::join(crate::text::words(line), " "@);
        lemma_words_of_joined_words(line);
        assert(para_fold(lines) == para_step(st, line));
        if j.len() == 0 {
            assert(crate::text::words(j) =~= Seq::<Seq<char>>::empty());
            if st.1.len() > 0 {
                assert(flat_words(st.0.push(st.1)) =~= flat_words(st.0) + crate::text::words(st.1)) by {
                    assert(st.0.push(st.1).drop_last() =~= st.0);
                }
            }
            assert(flat_words(lines) =~= flat_words(lines.drop_last()) + crate::text::words(line));
        } else if st.1.len() > 0 {
            assert(all_ws(" "@)) by {
                assert(" "@[0] == ' ');
            }
            lemma_words_sep(st.1, " "@, j);
            assert(flat_words(lines) =~= flat_words(lines.drop_last()) + crate::text::words(line));
        } else {
            assert(crate::text::words(st.1) =~= Seq::<Seq<char>>::empty());
            assert(flat_words(lines) =~= flat_words(lines.drop_last()) + crate::text::words(line));
        }
    }
}

/// Splitting at line feeds keeps every word, in order.
proof fn lemma_split_words(s: Seq<char>, cur: Seq<char>)
    ensures
        flat_words(crate::text::split_from(s, "\n"@, cur)) == crate::text::words(cur + s),
    decreases s.len(),
{
    reveal_strlit("\n");
    let nl = "\n"@;
    if s.len() == 0 {
        assert(crate::text::split_from(s, nl, cur) == seq![cur + s]);
        assert(seq![cur + s].drop_last() =~= Seq::<Seq<char>>::empty());
        assert(flat_words(seq![cur + s].drop_last()) == Seq::<Seq<char>>::empty());
        assert(seq![cur + s].last() == cur + s);
        assert(flat_words(seq![cur + s]) =~= crate::text::words(cur + s));
    } else if crate::text::starts_with(s, nl) {
        let rest = s.skip(1);
        lemma_split_words(rest, Seq::empty());
        assert(crate::text::split_from(s, nl, cur) == seq![cur] + crate::text::split_from(rest, nl, Seq::empty()));
        lemma_flat_append(seq![cur], crate::text::split_from(rest, nl, Seq::empty()));
        assert(seq![cur].drop_last() =~= Seq::<Seq<char>>::empty());
        assert(flat_words(seq![cur].drop_last()) == Seq::<Seq<char>>::empty());
        assert(seq![cur].last() == cur);
        assert(flat_words(seq![cur]) =~= crate::text::words(cur));
        assert(Seq::<char>::empty() + rest =~= rest);
        assert(s.take(1)[0] == s[0]);
        assert(s[0] == '\n');
        assert(all_ws(nl)) by {
            assert(nl[0] == '\n');
        }
        lemma_words_sep(cur, nl, rest);
        assert(cur + nl + rest =~= cur + s);
    } else {
        lemma_split_words(s.drop_first(), cur.push(s[0]));
        assert(cur.push(s[0]) + s.drop_first() =~= cur + s);
    }
}

/// Turning CR LF into LF keeps every word.
proof fn lemma_crlf_words(x: Seq<char>, s: Seq<char>)
    ensures
        crate::text::words(x + crate::text::replace_seq(s, "\r\n"@, "\n"@)) == crate::text::words(x + s),
    decreases s.len(),
{
    reveal_strlit("\r\n");
    reveal_strlit("\n");
    let crlf = "\r\n"@;
    let lf = "\n"@;
    if s.len() == 0 {
    } else if crate::text::starts_with(s, crlf) {
        let rest = s.skip(2);
        lemma_crlf_words(Seq::empty(), rest);
        assert(Seq::<char>::empty() + crate::text::replace_seq(rest, crlf, lf) =~= crate::text::replace_seq(rest, crlf, lf));
        assert(Seq::<char>::empty() + rest =~= rest);
        assert(all_ws(lf)) by {
            assert(lf[0] == '\n');
        }
        assert(all_ws(crlf)) by {
            assert(crlf[0] == '\r' && crlf[1] == '\n');
        }
        assert(s =~= crlf + rest) by {
            assert(s.take(2) == crlf);
        }
        lemma_words_sep(x, lf, crate::text::replace_seq(rest, crlf, lf));
        assert(x + (lf + crate::text::replace_seq(rest, crlf, lf)) =~= x + lf + crate::text::replace_seq(rest, crlf, lf));
        lemma_words_sep(x, crlf, rest);
        assert(x + s =~= x + crlf + rest);
    } else {
        lemma_crlf_words(x.push(s[0]), s.drop_first());
        assert(x + (seq![s[0]] + crate::text::replace_seq(s.drop_first(), crlf, lf)) =~= x.push(s[0])
            + crate::text::replace_seq(s.drop_first(), crlf, lf));
        assert(x.push(s[0]) + s.drop_first() =~= x + s);
    }
}

/// Tidying a story keeps its words, in order: only the white space between
/// them changes.
pub proof fn tidy_story_keeps_the_words(text: Seq<char>)
    ensures
        crate::text::words(crate::editor::spec_tidy_story(text)) == crate::text::words(text),
{
    reveal_strlit("\r\n");
    reveal_strlit("\n");
    reveal_strlit("\n\n");
    let unix = crate::text::replace_seq(text, "\r\n"@, "\n"@);
    let lines = crate::text::split(unix, "\n"@);
    let paras = paragraphs(lines);
    assert(all_ws("\n\n"@)) by {
        assert("\n\n"@[0] == '\n' && "\n\n"@[1] == '\n');
    }
    lemma_words_join(paras, "\n\n"@);
    lemma_fold_words(lines);
    let st = para_fold(lines);
    if st.1.len() > 0 {
        assert(paras == st.0.push(st.1));
        assert(st.0.push(st.1).drop_last() =~= st.0);
    } else {
        assert(paras == st.0);
        assert(crate::text::words(st.1) =~= Seq::<Seq<char>>::empty());
        assert(flat_words(st.0) + crate::text::words(st.1) =~= flat_words(st.0));
    }
    lemma_split_words(unix, Seq::empty());
    assert(Seq::<char>::empty() + unix =~= unix);
    lemma_crlf_words(Seq::empty(), text);
    assert(Seq::<char>::empty() + text =~= text);
}


// ------------------------------------------------------- tidy twice

proof fn lemma_join_front(a: Seq<char>, q: Seq<Seq<char>>, sep: Seq<char>)
    requires
        q.len() > 0,
    ensures
        crate::text::join(seq![a] + q, sep) == a + sep + crate::text::join(q, sep),
    decreases q.len(),
{
    let all = seq![a] + q;
    if q.len() == 1 {
        assert(all.drop_last() =~= seq![a]);
        assert(all.last() == q[0]);
        assert(q.drop_last() =~= Seq::<Seq<char>>::empty());
        assert(crate::text::join(q, sep) == q[0]);
        assert(crate::text::join(seq![a], sep) == a);
    } else {
        lemma_join_front(a, q.drop_last(), sep);
        assert(all.drop_last() =~= seq![a] + q.drop_last());
        assert(all.last() == q.last());
        assert(crate::text::join(q, sep) == crate::text::join(q.drop_last(), sep) + sep + q.last());
        assert(crate::text::join(all, sep) =~= a + sep + crate::text::join(q, sep));
    }
}

/// The words of a clean paragraph, put back with single spaces, are the
/// paragraph (`cur` the part of the first word read so far).
proof fn lemma_clean_rejoin(cur: Seq<char>, s: Seq<char>)
    requires
        no_ws(cur),
        clean_para(cur + s),
    ensures
        crate::text::join(crate::text::words_from(s, cur), " "@) == cur + s,
    decreases s.len(),
{
    reveal_strlit(" ");
    let p = cur + s;
    if s.len() == 0 {
        assert(p =~= cur);
        assert(crate::text::words_from(s, cur) == seq![cur]);
    } else {
        assert(p[cur.len() as int] == s[0]);
        if crate::text::is_ws(s[0]) {
            assert(cur.len() > 0) by {
                if cur.len() == 0 {
                    assert(p[0] == s[0]);
                }
            }
            let k = cur.len() as int;
            assert(crate::text::is_ws(p[k]));
            assert(p[k] == ' ');
            assert(!crate::text::is_ws(p[k + 1]));
            let rest = s.drop_first();
            assert(rest.len() > 0);
            assert(rest[0] == p[k + 1]);
            assert(clean_para(rest)) by {
                assert(rest.last() == p.last());
                assert forall|j: int| 0 <= j < rest.len() && crate::text::is_ws(#[trigger] rest[j]) implies rest[j] == ' '
                    && !crate::text::is_ws(rest[j + 1]) by {
                    assert(rest[j] == p[k + 1 + j]);
                    if j + 1 < rest.len() {
                        assert(rest[j + 1] == p[k + 2 + j]);
                    } else {
                        assert(rest[j] == rest.last());
                    }
                }
            }
            assert(Seq::<char>::empty() + rest =~= rest);
            lemma_clean_rejoin(Seq::empty(), rest);
            assert(crate::text::words_from(s, cur) == seq![cur] + crate::text::words(rest));
            lemma_words_clean(rest, Seq::empty());
            let ws = crate::text::words(rest);
            assert(ws.len() > 0) by {
                if ws.len() == 0 {
                    assert(crate::text::join(ws, " "@) =~= Seq::<char>::empty());
                }
            }
            lemma_join_front(cur, ws, " "@);
            assert(s =~= seq![' '] + rest);
            assert(" "@ =~= seq![' ']);
            assert(cur + " "@ + rest =~= cur + s);
        } else {
            let c2 = cur.push(s[0]);
            assert(no_ws(c2)) by {
                assert forall|j: int| 0 <= j < c2.len() implies !crate::text::is_ws(#[trigger] c2[j]) by {
                    if j < cur.len() {
                        assert(c2[j] == cur[j]);
                    }
                }
            }
            assert(c2 + s.drop_first() =~= p);
            lemma_clean_rejoin(c2, s.drop_first());
        }
    }
}

/// Splitting at a line feed: the pieces before it, then those after it.
proof fn lemma_split_at_nl(x: Seq<char>, y: Seq<char>, cur: Seq<char>)
    ensures
        crate::text::split_from(x + "\n"@ + y, "\n"@, cur) == crate::text::split_from(x, "\n"@, cur) + crate::text::split(
            y,
            "\n"@,
        ),
    decreases x.len(),
{
    reveal_strlit("\n");
    let nl = "\n"@;
    let s = x + nl + y;
    if x.len() == 0 {
        assert(s =~= nl + y);
        assert(crate::text::starts_with(s, nl)) by {
            assert(s.take(1) =~= nl);
        }
        assert(s.skip(1) =~= y);
        assert(crate::text::split_from(x, nl, cur) == seq![cur + x]);
        assert(cur + x =~= cur);
    } else if crate::text::starts_with(x, nl) {
        assert(crate::text::starts_with(s, nl)) by {
            assert(s.take(1) =~= x.take(1));
        }
        assert(s.skip(1) =~= x.skip(1) + nl + y);
        lemma_split_at_nl(x.skip(1), y, Seq::empty());
        assert(crate::text::split_from(s, nl, cur) =~= crate::text::split_from(x, nl, cur) + crate::text::split(y, nl));
    } else {
        assert(!crate::text::starts_with(s, nl)) by {
            assert(s.take(1) =~= x.take(1));
        }
        assert(s.drop_first() =~= x.drop_first() + nl + y);
        assert(s[0] == x[0]);
        lemma_split_at_nl(x.drop_first(), y, cur.push(x[0]));
    }
}

/// A text with no line feed is one line.
proof fn lemma_split_one_line(x: Seq<char>, cur: Seq<char>)
    requires
        !x.contains('\n'),
    ensures
        crate::text::split_from(x, "\n"@, cur) == seq![cur + x],
    decreases x.len(),
{
    reveal_strlit("\n");
    let nl = "\n"@;
    if x.len() > 0 {
        assert(!crate::text::starts_with(x, nl)) by {
            assert(x.take(1)[0] == x[0]);
            assert(x[0] != '\n');
        }
        assert(!x.drop_first().contains('\n')) by {
            if x.drop_first().contains('\n') {
                let k = choose|k: int| 0 <= k < x.drop_first().len() && x.drop_first()[k] == '\n';
                assert(x[k + 1] == '\n');
            }
        }
        lemma_split_one_line(x.drop_first(), cur.push(x[0]));
        assert(cur.push(x[0]) + x.drop_first() =~= cur + x);
    }
}

/// The lines of paragraphs joined by blank lines: each paragraph, with an
/// empty line between two.
pub open spec fn para_lines(ps: Seq<Seq<char>>) -> Seq<Seq<char>>
    decreases ps.len(),
{
    if ps.len() <= 1 {
        ps
    } else {
        para_lines(ps.drop_last()) + seq![Seq::<char>::empty(), ps.last()]
    }
}

proof fn lemma_clean_no_break(p: Seq<char>)
    requires
        clean_para(p),
    ensures
        !p.contains('\n'),
        !p.contains('\r'),
{
    if p.contains('\n') {
        let k = choose|k: int| 0 <= k < p.len() && p[k] == '\n';
        assert(crate::text::is_ws(p[k]));
    }
    if p.contains('\r') {
        let k = choose|k: int| 0 <= k < p.len() && p[k] == '\r';
        assert(crate::text::is_ws(p[k]));
    }
}

proof fn lemma_split_paras(ps: Seq<Seq<char>>)
    requires
        ps.len() > 0,
        forall|i: int| 0 <= i < ps.len() ==> clean_para(#[trigger] ps[i]),
    ensures
        crate::text::split(crate::text::join(ps, "\n\n"@), "\n"@) == para_lines(ps),
    decreases ps.len(),
{
    reveal_strlit("\n\n");
    reveal_strlit("\n");
    let e: Seq<char> = Seq::empty();
    if ps.len() == 1 {
        lemma_clean_no_break(ps[0]);
        lemma_split_one_line(ps[0], e);
        assert(e + ps[0] =~= ps[0]);
        assert(ps =~= seq![ps[0]]);
    } else {
        let q = ps.drop_last();
        assert forall|i: int| 0 <= i < q.len() implies clean_para(#[trigger] q[i]) by {
            assert(q[i] == ps[i]);
        }
        lemma_split_paras(q);
        let x = crate::text::join(q, "\n\n"@);
        let p = ps.last();
        assert(clean_para(ps[ps.len() - 1]));
        lemma_clean_no_break(p);
        assert(x + "\n\n"@ + p =~= x + "\n"@ + ("\n"@ + p));
        lemma_split_at_nl(x, "\n"@ + p, e);
        assert("\n"@ + p =~= e + "\n"@ + p);
        lemma_split_at_nl(e, p, e);
        assert(crate::text::split_from(e, "\n"@, e) == seq![e + e]);
        assert(e + e =~= e);
        lemma_split_one_line(p, e);
        assert(e + p =~= p);
        assert(crate::text::split(crate::text::join(ps, "\n\n"@), "\n"@) =~= para_lines(q) + seq![e, p]);
    }
}

proof fn lemma_fold_para_lines(ps: Seq<Seq<char>>)
    requires
        ps.len() > 0,
        forall|i: int| 0 <= i < ps.len() ==> clean_para(#[trigger] ps[i]),
    ensures
        para_fold(para_lines(ps)) == (ps.drop_last(), ps.last()),
    decreases ps.len(),
{
    reveal_strlit(" ");
    let e: Seq<char> = Seq::empty();
    assert(crate::text::words(e) =~= Seq::<Seq<char>>::empty());
    assert(crate::text::join(Seq::<Seq<char>>::empty(), " "@) =~= e);
    let p = ps.last();
    assert(clean_para(ps[ps.len() - 1]));
    assert(e + p =~= p);
    lemma_clean_rejoin(e, p);
    if ps.len() == 1 {
        assert(para_lines(ps) == ps);
        assert(ps =~= seq![p]);
        assert(seq![p].drop_last() =~= Seq::<Seq<char>>::empty());
        assert(para_fold(Seq::<Seq<char>>::empty()) == (Seq::<Seq<char>>::empty(), e));
        assert(ps.drop_last() =~= Seq::<Seq<char>>::empty());
    } else {
        let q = ps.drop_last();
        assert forall|i: int| 0 <= i < q.len() implies clean_para(#[trigger] q[i]) by {
            assert(q[i] == ps[i]);
        }
        lemma_fold_para_lines(q);
        let lq = para_lines(q);
        let l1 = lq.push(e);
        let l2 = l1.push(p);
        assert(para_lines(ps) =~= l2);
        assert(l2.drop_last() =~= l1);
        assert(l1.drop_last() =~= lq);
        assert(clean_para(q[q.len() - 1]));
        assert(q.last().len() > 0);
        assert(para_fold(l1) == (q.drop_last().push(q.last()), e));
        assert(q.drop_last().push(q.last()) =~= q);
    }
}

/// Tidying a tidied story changes nothing.
pub proof fn tidy_story_is_idempotent(text: Seq<char>)
    ensures
        crate::editor::spec_tidy_story(crate::editor::spec_tidy_story(text)) == crate::editor::spec_tidy_story(text),
{
    reveal_strlit("\r\n");
    reveal_strlit("\n");
    reveal_strlit("\n\n");
    let unix = crate::text::replace_seq(text, "\r\n"@, "\n"@);
    let ps = paragraphs(crate::text::split(unix, "\n"@));
    tidy_paragraphs_are_clean(crate::text::split(unix, "\n"@));
    let r = crate::text::join(ps, "\n\n"@);
    assert(r == crate::editor::spec_tidy_story(text));
    lemma_join_no_cr(ps);
    lemma_no_cr_replace(r);
    if ps.len() == 0 {
        assert(r =~= Seq::<char>::empty());
        let e: Seq<char> = Seq::empty();
        assert(crate::text::split(e, "\n"@) == seq![e]);
        assert(seq![e].drop_last() =~= Seq::<Seq<char>>::empty());
        assert(crate::text::words(e) =~= Seq::<Seq<char>>::empty());
        assert(crate::text::join(Seq::<Seq<char>>::empty(), " "@) =~= e);
        assert(seq![e].last() == e);
        assert(para_fold(seq![e].drop_last()) == (Seq::<Seq<char>>::empty(), e));
        assert(para_fold(seq![e]) == para_step((Seq::<Seq<char>>::empty(), e), e));
        assert(para_fold(seq![e]) == (Seq::<Seq<char>>::empty(), e));
        assert(paragraphs(seq![e]) =~= Seq::<Seq<char>>::empty());
    } else {
        lemma_split_paras(ps);
        lemma_fold_para_lines(ps);
        assert(ps.drop_last().push(ps.last()) =~= ps);
        assert(paragraphs(para_lines(ps)) == ps);
    }
}

proof fn lemma_join_no_cr(ps: Seq<Seq<char>>)
    requires
        forall|i: int| 0 <= i < ps.len() ==> clean_para(#[trigger] ps[i]),
    ensures
        !crate::text::join(ps, "\n\n"@).contains('\r'),
    decreases ps.len(),
{
    reveal_strlit("\n\n");
    let j = crate::text::join(ps, "\n\n"@);
    if ps.len() == 1 {
        lemma_clean_no_break(ps[0]);
    } else if ps.len() > 1 {
        let q = ps.drop_last();
        assert forall|i: int| 0 <= i < q.len() implies clean_para(#[trigger] q[i]) by {
            assert(q[i] == ps[i]);
        }
        lemma_join_no_cr(q);
        assert(clean_para(ps[ps.len() - 1]));
        lemma_clean_no_break(ps.last());
        let a = crate::text::join(q, "\n\n"@);
        assert(j == a + "\n\n"@ + ps.last());
        if j.contains('\r') {
            let k = choose|k: int| 0 <= k < j.len() && j[k] == '\r';
            if k < a.len() {
                assert(j[k] == a[k]);
            } else if k < a.len() + 2 {
                assert(j[k] == '\n');
            } else {
                assert(j[k] == ps.last()[k - a.len() - 2]);
            }
        }
    }
}

proof fn lemma_no_cr_replace(s: Seq<char>)
    requires
        !s.contains('\r'),
    ensures
        crate::text::replace_seq(s, "\r\n"@, "\n"@) == s,
    decreases s.len(),
{
    reveal_strlit("\r\n");
    if s.len() > 0 {
        assert(!crate::text::starts_with(s, "\r\n"@)) by {
            if s.len() >= 2 {
                assert(s.take(2)[0] == s[0]);
            }
        }
        assert(!s.drop_first().contains('\r')) by {
            if s.drop_first().contains('\r') {
                let k = choose|k: int| 0 <= k < s.drop_first().len() && s.drop_first()[k] == '\r';
                assert(s[k + 1] == '\r');
            }
        }
        lemma_no_cr_replace(s.drop_first());
        assert(seq![s[0]] + s.drop_first() =~= s);
    }
}


// ------------------------------------------------------- pictures to fetch

proof fn lemma_wanting_upto(cards: Seq<CardView>, n: int)
    requires
        0 <= n <= cards.len(),
        cards.len() <= usize::MAX,
    ensures
        forall|k: int| 0 <= k < wanting_upto(cards, n).len() ==> #[trigger] wanting_upto(cards, n)[k] < n,
        forall|a: int, b: int|
            0 <= a < b < wanting_upto(cards, n).len() ==> wanting_upto(cards, n)[a] < wanting_upto(cards, n)[b],
        forall|i: int|
            0 <= i < n ==> (wanting_upto(cards, n).contains(i as usize) <==> wants_picture(#[trigger] cards[i])),
    decreases n,
{
    if n > 0 {
        lemma_wanting_upto(cards, n - 1);
        let p = wanting_upto(cards, n - 1);
        let s = wanting_upto(cards, n);
        assert forall|a: int, b: int| 0 <= a < b < s.len() implies s[a] < s[b] by {
            if wants_picture(cards[n - 1]) {
                assert(s == p.push((n - 1) as usize));
                if b == s.len() - 1 {
                    assert(s[a] == p[a]);
                } else {
                    assert(s[a] == p[a] && s[b] == p[b]);
                }
            }
        }
        assert forall|i: int| 0 <= i < n implies (s.contains(i as usize) <==> wants_picture(#[trigger] cards[i])) by {
            if wants_picture(cards[n - 1]) {
                assert(s == p.push((n - 1) as usize));
                if i < n - 1 {
                    if s.contains(i as usize) {
                        let k = choose|k: int| 0 <= k < s.len() && s[k] == i as usize;
                        if k < p.len() {
                            assert(p[k] == s[k]);
                            assert(p.contains(i as usize));
                        }
                    }
                    if p.contains(i as usize) {
                        let k = choose|k: int| 0 <= k < p.len() && p[k] == i as usize;
                        assert(s[k] == p[k]);
                    }
                } else {
                    assert(s[s.len() - 1] == (n - 1) as usize);
                }
            } else {
                assert(s == p);
                if i == n - 1 && s.contains(i as usize) {
                    let k = choose|k: int| 0 <= k < s.len() && s[k] == i as usize;
                    assert(p[k] < n - 1);
                }
            }
        }
    }
}

/// The pages fetched for a share image are exactly those of the articles
/// that have no picture yet and are not briefs (features and leads alike),
/// each once, in increasing order.
pub proof fn pictures_are_fetched_for_bare_articles(cards: Seq<CardView>)
    requires
        cards.len() <= usize::MAX,
    ensures
        forall|k: int|
            0 <= k < wanting_upto(cards, cards.len() as int).len() ==> #[trigger] wanting_upto(
                cards,
                cards.len() as int,
            )[k] < cards.len(),
        forall|a: int, b: int|
            0 <= a < b < wanting_upto(cards, cards.len() as int).len() ==> wanting_upto(cards, cards.len() as int)[a]
                < wanting_upto(cards, cards.len() as int)[b],
        forall|i: int|
            0 <= i < cards.len() ==> (wanting_upto(cards, cards.len() as int).contains(i as usize) <==> (
            #[trigger] cards[i].kind == "article"@ && cards[i].image is None && cards[i].size != "brief"@)),
{
    lemma_wanting_upto(cards, cards.len() as int);
}

// ------------------------------------------------------------ kinds of card

proof fn lemma_accepted_kinds(arr: Seq<JsonValue>)
    ensures
        forall|i: int|
            0 <= i < accepted(arr).len() ==> #[trigger] accepted(arr)[i].kind == kind_of_link(accepted(arr)[i].url),
    decreases arr.len(),
{
    if arr.len() > 0 {
        lemma_accepted_kinds(arr.drop_last());
    }
}

/// A card's kind comes from its link alone: a YouTube video is a video, a
/// post on X that is not a video is a post, and only a link that is
/// neither is an article.
pub proof fn card_kind_follows_the_link(v: JsonValue)
    ensures
        forall|i: int|
            0 <= i < edition_cards(v).len() ==> {
                let c = #[trigger] edition_cards(v)[i];
                &&& spec_youtube_id(c.url) is Some ==> c.kind == "video"@
                &&& spec_youtube_id(c.url) is None && spec_is_post_url(c.url) ==> c.kind == "post"@
                &&& c.kind == "article"@ <==> spec_youtube_id(c.url) is None && !spec_is_post_url(c.url)
            },
{
    let arr = match array_of(json_get(v, "cards"@)) {
        Some(a) => a,
        None => Seq::empty(),
    };
    let cs = accepted(arr);
    lemma_accepted_kinds(arr);
    reveal_strlit("video");
    reveal_strlit("post");
    reveal_strlit("article");
    reveal_strlit("lead");
    reveal_strlit("feature");
    let out = lead_fixed(cs);
    assert(out == edition_cards(v));
    assert forall|i: int| 0 <= i < out.len() implies #[trigger] out[i].kind == kind_of_link(out[i].url) by {
        if lead_before(cs, cs.len() as int) {
            assert(out == demoted(cs));
            assert(out[i].kind == cs[i].kind && out[i].url == cs[i].url);
        } else {
            match first_of_size(cs, "feature"@, 0) {
                Some(j) => {
                    lemma_first_of_size_found(cs, "feature"@, 0);
                    assert(out[i].kind == cs[i].kind && out[i].url == cs[i].url);
                },
                None => {
                    assert(out[i].kind == cs[i].kind && out[i].url == cs[i].url);
                },
            }
        }
    }
}

// -------------------------------------------------------------------- feeds

/// Node `i` is an `item` or `entry` element whose title and link are not
/// empty.
pub open spec fn gives_entry(nodes: Seq<XmlNode>, i: int) -> bool {
    let nd = nodes[i];
    let e = entry_fold(nodes, nd.children@);
    nd.element && (nd.name@ == "item"@ || nd.name@ == "entry"@) && e.title.len() > 0 && e.link.len() > 0
}

/// How many of the first `n` nodes give an entry.
pub open spec fn entries_before(nodes: Seq<XmlNode>, n: int) -> nat
    decreases n,
{
    if n <= 0 {
        0
    } else if gives_entry(nodes, n - 1) {
        entries_before(nodes, n - 1) + 1
    } else {
        entries_before(nodes, n - 1)
    }
}

proof fn lemma_entries_before_grows(nodes: Seq<XmlNode>, i: int, n: int)
    requires
        0 <= i <= n,
    ensures
        entries_before(nodes, i) <= entries_before(nodes, n),
    decreases n - i,
{
    if i < n {
        lemma_entries_before_grows(nodes, i, n - 1);
    }
}

proof fn lemma_feed_fold(nodes: Seq<XmlNode>, n: int)
    requires
        0 <= n <= nodes.len(),
    ensures
        feed_fold(nodes, n).len() == entries_before(nodes, n),
        forall|i: int|
            0 <= i < n && #[trigger] gives_entry(nodes, i) ==> feed_fold(nodes, n)[entries_before(nodes, i) as int]
                == entry_fold(nodes, nodes[i].children@),
        forall|k: int|
            0 <= k < feed_fold(nodes, n).len() ==> (#[trigger] feed_fold(nodes, n)[k]).title.len() > 0 && feed_fold(
                nodes,
                n,
            )[k].link.len() > 0,
    decreases n,
{
    if n > 0 {
        lemma_feed_fold(nodes, n - 1);
        let prev = feed_fold(nodes, n - 1);
        let out = feed_fold(nodes, n);
        assert forall|i: int| 0 <= i < n && #[trigger] gives_entry(nodes, i) implies out[entries_before(
            nodes,
            i,
        ) as int] == entry_fold(nodes, nodes[i].children@) by {
            if i < n - 1 {
                lemma_entries_before_grows(nodes, i + 1, n - 1);
                if gives_entry(nodes, n - 1) {
                    assert(out == prev.push(entry_fold(nodes, nodes[n - 1].children@)));
                } else {
                    assert(out == prev);
                }
            }
        }
    }
}

/// Every `item` or `entry` element with a title and a link gives an entry,
/// in document order: there are as many entries as such elements, and the
/// entry of the k-th such element is the k-th entry. No entry lacks a title
/// or a link.
pub proof fn every_feed_item_gives_an_entry(nodes: Seq<XmlNode>)
    ensures
        forall|k: int|
            0 <= k < feed_fold(nodes, nodes.len() as int).len() ==> (#[trigger] feed_fold(
                nodes,
                nodes.len() as int,
            )[k]).title.len() > 0 && feed_fold(nodes, nodes.len() as int)[k].link.len() > 0,
        feed_fold(nodes, nodes.len() as int).len() == entries_before(nodes, nodes.len() as int),
        forall|i: int|
            0 <= i < nodes.len() && #[trigger] gives_entry(nodes, i) ==> feed_fold(nodes, nodes.len() as int)[entries_before(
                nodes,
                i,
            ) as int] == entry_fold(nodes, nodes[i].children@),
{
    lemma_feed_fold(nodes, nodes.len() as int);
}

// ------------------------------------------------------------------- posts

/// The beat a post names: its "beat" text, trimmed; empty when it gives
/// none.
pub open spec fn named_beat(p: JsonValue) -> Seq<char> {
    match str_of(json_get(p, "beat"@)) {
        Some(b) => trim(b),
        None => Seq::empty(),
    }
}

/// A post read from the reply carries the post's trimmed "beat" text, empty
/// only when the post gives none.
pub proof fn post_carries_its_beat(p: JsonValue)
    ensures
        post_item(p) matches Some(w) ==> w.beat == named_beat(p),
{
}

/// Each post read out of the correspondent's reply comes from one of the
/// reply's posts, whose beat it carries: that post's trimmed "beat" text,
/// empty only when the post gives none.
pub proof fn posts_keep_their_beat(arr: Seq<JsonValue>)
    ensures
        forall|k: int|
            0 <= k < posts_fold(arr).len() ==> exists|j: int|
                0 <= j < arr.len() && post_item(#[trigger] arr[j]) == Some(#[trigger] posts_fold(arr)[k])
                    && posts_fold(arr)[k].beat == named_beat(arr[j]),
    decreases arr.len(),
{
    if arr.len() > 0 {
        post_carries_its_beat(arr.last());
        posts_keep_their_beat(arr.drop_last());
        let prev = posts_fold(arr.drop_last());
        let out = posts_fold(arr);
        assert forall|k: int| 0 <= k < out.len() implies exists|j: int|
            0 <= j < arr.len() && post_item(#[trigger] arr[j]) == Some(#[trigger] out[k]) && out[k].beat == named_beat(
                arr[j],
            ) by {
            if k < prev.len() {
                let j = choose|j: int|
                    0 <= j < arr.drop_last().len() && post_item(#[trigger] arr.drop_last()[j]) == Some(prev[k])
                        && prev[k].beat == named_beat(arr.drop_last()[j]);
                assert(arr.drop_last()[j] == arr[j]);
                assert(out[k] == prev[k]);
            } else {
                let j = arr.len() - 1;
                assert(arr[j] == arr.last());
                assert(post_item(arr[j]) matches Some(w) && out[k] == w);
            }
        }
    }
}

// --------------------------------------------------------------- next game

proof fn lemma_first_next_earliest(gs: Seq<GameView>, now_secs: int, now_nanos: int)
    requires
        ordered_by_start(gs),
    ensures
        first_next(gs, now_secs, now_nanos) matches Some(x) ==> gs.contains(x) && upcoming(x, now_secs, now_nanos)
            && forall|j: int|
            0 <= j < gs.len() && upcoming(#[trigger] gs[j], now_secs, now_nanos) ==> !str_lt(gs[j].start, x.start),
        first_next(gs, now_secs, now_nanos) is None ==> forall|j: int|
            0 <= j < gs.len() ==> !upcoming(#[trigger] gs[j], now_secs, now_nanos),
    decreases gs.len(),
{
    if gs.len() > 0 {
        let rest = gs.drop_first();
        if upcoming(gs[0], now_secs, now_nanos) {
            assert(gs.contains(gs[0]));
            assert forall|j: int| 0 <= j < gs.len() && upcoming(#[trigger] gs[j], now_secs, now_nanos) implies !str_lt(
                gs[j].start,
                gs[0].start,
            ) by {
                if j == 0 {
                    str_lt_irreflexive(gs[0].start);
                }
            }
        } else {
            assert(ordered_by_start(rest)) by {
                assert forall|i: int, j: int| 0 <= i < j < rest.len() implies !str_lt(rest[j].start, rest[i].start) by {
                    assert(rest[i] == gs[i + 1] && rest[j] == gs[j + 1]);
                }
            }
            lemma_first_next_earliest(rest, now_secs, now_nanos);
            match first_next(gs, now_secs, now_nanos) {
                Some(x) => {
                    let k = choose|k: int| 0 <= k < rest.len() && rest[k] == x;
                    assert(gs[k + 1] == x);
                    assert forall|j: int| 0 <= j < gs.len() && upcoming(#[trigger] gs[j], now_secs, now_nanos) implies !str_lt(
                        gs[j].start,
                        x.start,
                    ) by {
                        assert(j > 0);
                        assert(rest[j - 1] == gs[j]);
                    }
                },
                None => {
                    assert forall|j: int| 0 <= j < gs.len() implies !upcoming(#[trigger] gs[j], now_secs, now_nanos) by {
                        if j > 0 {
                            assert(rest[j - 1] == gs[j]);
                        }
                    }
                },
            }
        }
    }
}

proof fn lemma_sorted_same_games(gs: Seq<GameView>)
    ensures
        forall|g: GameView| #[trigger] sorted_by_start(gs).contains(g) <==> gs.contains(g),
    decreases gs.len(),
{
    if gs.len() > 0 {
        lemma_sorted_same_games(gs.drop_last());
        let s = sorted_by_start(gs.drop_last());
        lemma_insert_pos(s, gs.last().start);
        let p = insert_pos(s, gs.last().start) as int;
        let out = s.insert(p, gs.last());
        assert(out == sorted_by_start(gs));
        assert forall|g: GameView| #[trigger] out.contains(g) <==> gs.contains(g) by {
            if out.contains(g) {
                let k = choose|k: int| 0 <= k < out.len() && out[k] == g;
                if k < p {
                    assert(s[k] == g);
                    assert(s.contains(g));
                    let m = choose|m: int| 0 <= m < gs.drop_last().len() && gs.drop_last()[m] == g;
                    assert(gs[m] == g);
                } else if k == p {
                    assert(gs[gs.len() - 1] == g);
                } else {
                    assert(s[k - 1] == g);
                    assert(s.contains(g));
                    let m = choose|m: int| 0 <= m < gs.drop_last().len() && gs.drop_last()[m] == g;
                    assert(gs[m] == g);
                }
            }
            if gs.contains(g) {
                let m = choose|m: int| 0 <= m < gs.len() && gs[m] == g;
                if m == gs.len() - 1 {
                    assert(out[p] == g);
                } else {
                    assert(gs.drop_last()[m] == g);
                    assert(gs.drop_last().contains(g));
                    assert(s.contains(g));
                    let k = choose|k: int| 0 <= k < s.len() && s[k] == g;
                    if k < p {
                        assert(out[k] == g);
                    } else {
                        assert(out[k + 1] == g);
                    }
                }
            }
        }
    }
}

proof fn lemma_no_live(gs: Seq<GameView>)
    ensures
        last_live(gs) is None ==> forall|j: int| 0 <= j < gs.len() ==> (#[trigger] gs[j]).state != "live"@,
    decreases gs.len(),
{
    if gs.len() > 0 && gs.last().state != "live"@ {
        lemma_no_live(gs.drop_last());
        if last_live(gs) is None {
            assert forall|j: int| 0 <= j < gs.len() implies (#[trigger] gs[j]).state != "live"@ by {
                if j < gs.len() - 1 {
                    assert(gs.drop_last()[j] == gs[j]);
                }
            }
        }
    }
}

/// When no game is live, the next game the bug shows is one of the team's
/// scheduled games still to come, and none of those starts before it; it
/// shows none only when no such game is left.
pub proof fn next_game_is_the_first_to_come(schedule: JsonValue, team_id: u32, now_secs: int, now_nanos: int)
    ensures
        ({
            let (game, next) = spec_pick(schedule, team_id, now_secs, now_nanos);
            let all = schedule_games(schedule, team_id);
            &&& next matches Some(x) ==> all.contains(x) && upcoming(x, now_secs, now_nanos) && forall|g: GameView|
                #[trigger] all.contains(g) && upcoming(g, now_secs, now_nanos) ==> !str_lt(g.start, x.start)
            &&& !(game matches Some(g) && g.state == "live"@) ==> (next is None <==> forall|g: GameView|
                #[trigger] all.contains(g) ==> !upcoming(g, now_secs, now_nanos))
        }),
{
    let all = schedule_games(schedule, team_id);
    let gs = sorted_by_start(all);
    games_sorted_by_start(all);
    lemma_sorted_same_games(all);
    lemma_first_next_earliest(gs, now_secs, now_nanos);
    lemma_last_live(gs);
    lemma_no_live(gs);
    reveal_strlit("live");
    reveal_strlit("preview");
    let (game, next) = spec_pick(schedule, team_id, now_secs, now_nanos);
    match last_live(gs) {
        Some(l) => {
            assert(game == Some(l) && l.state == "live"@);
        },
        None => {
            assert(next == first_next(gs, now_secs, now_nanos));
            match next {
                Some(x) => {
                    assert(gs.contains(x));
                    assert forall|g: GameView| #[trigger] all.contains(g) && upcoming(g, now_secs, now_nanos) implies !str_lt(
                        g.start,
                        x.start,
                    ) by {
                        assert(gs.contains(g));
                        let j = choose|j: int| 0 <= j < gs.len() && gs[j] == g;
                        assert(upcoming(gs[j], now_secs, now_nanos));
                    }
                    let k = choose|k: int| 0 <= k < gs.len() && gs[k] == x;
                    assert(all.contains(x));
                },
                None => {
                    assert forall|g: GameView| #[trigger] all.contains(g) implies !upcoming(g, now_secs, now_nanos) by {
                        assert(gs.contains(g));
                        let j = choose|j: int| 0 <= j < gs.len() && gs[j] == g;
                        assert(!upcoming(gs[j], now_secs, now_nanos));
                    }
                },
            }
        },
    }
}

proof fn lemma_ordered_drop_last(gs: Seq<GameView>)
    requires
        gs.len() > 0,
        ordered_by_start(gs),
    ensures
        ordered_by_start(gs.drop_last()),
{
    let r = gs.drop_last();
    assert forall|i: int, j: int| 0 <= i < j < r.len() implies !str_lt(r[j].start, r[i].start) by {
        assert(r[i] == gs[i] && r[j] == gs[j]);
    }
}

proof fn lemma_last_live_latest(gs: Seq<GameView>)
    requires
        ordered_by_start(gs),
    ensures
        last_live(gs) matches Some(x) ==> gs.contains(x) && forall|j: int|
            0 <= j < gs.len() && (#[trigger] gs[j]).state == "live"@ ==> !str_lt(x.start, gs[j].start),
    decreases gs.len(),
{
    if gs.len() > 0 {
        let n = gs.len() - 1;
        if gs.last().state == "live"@ {
            assert(gs.contains(gs[n]));
            assert forall|j: int| 0 <= j < gs.len() && (#[trigger] gs[j]).state == "live"@ implies !str_lt(
                gs[n].start,
                gs[j].start,
            ) by {
                if j == n {
                    str_lt_irreflexive(gs[n].start);
                }
            }
        } else {
            lemma_ordered_drop_last(gs);
            lemma_last_live_latest(gs.drop_last());
            if let Some(x) = last_live(gs) {
                let k = choose|k: int| 0 <= k < gs.drop_last().len() && gs.drop_last()[k] == x;
                assert(gs[k] == x);
                assert forall|j: int| 0 <= j < gs.len() && (#[trigger] gs[j]).state == "live"@ implies !str_lt(
                    x.start,
                    gs[j].start,
                ) by {
                    assert(gs.drop_last()[j] == gs[j]);
                }
            }
        }
    }
}

/// A final that has both scores.
pub open spec fn scored_final(g: GameView) -> bool {
    g.state == "final"@ && g.away.score is Some && g.home.score is Some
}

proof fn lemma_last_final_latest(gs: Seq<GameView>)
    requires
        ordered_by_start(gs),
    ensures
        last_final(gs) matches Some(x) ==> gs.contains(x) && scored_final(x) && forall|j: int|
            0 <= j < gs.len() && scored_final(#[trigger] gs[j]) ==> !str_lt(x.start, gs[j].start),
        last_final(gs) is None ==> forall|j: int| 0 <= j < gs.len() ==> !scored_final(#[trigger] gs[j]),
    decreases gs.len(),
{
    if gs.len() > 0 {
        let n = gs.len() - 1;
        if scored_final(gs.last()) {
            assert(gs.contains(gs[n]));
            assert forall|j: int| 0 <= j < gs.len() && scored_final(#[trigger] gs[j]) implies !str_lt(
                gs[n].start,
                gs[j].start,
            ) by {
                if j == n {
                    str_lt_irreflexive(gs[n].start);
                }
            }
        } else {
            lemma_ordered_drop_last(gs);
            lemma_last_final_latest(gs.drop_last());
            if let Some(x) = last_final(gs) {
                let k = choose|k: int| 0 <= k < gs.drop_last().len() && gs.drop_last()[k] == x;
                assert(gs[k] == x);
                assert forall|j: int| 0 <= j < gs.len() && scored_final(#[trigger] gs[j]) implies !str_lt(
                    x.start,
                    gs[j].start,
                ) by {
                    assert(gs.drop_last()[j] == gs[j]);
                }
            } else {
                assert forall|j: int| 0 <= j < gs.len() implies !scored_final(#[trigger] gs[j]) by {
                    if j < n {
                        assert(gs.drop_last()[j] == gs[j]);
                    }
                }
            }
        }
    }
}

/// The bug shows the team's live game when one is on, and no game is live
/// that started after it; with none live, it shows the latest final that
/// has both scores (no such final started after it), or none only when the
/// schedule has no such final.
pub proof fn bug_shows_the_latest_game(schedule: JsonValue, team_id: u32, now_secs: int, now_nanos: int)
    ensures
        ({
            let (game, next) = spec_pick(schedule, team_id, now_secs, now_nanos);
            let all = schedule_games(schedule, team_id);
            let live_on = exists|g: GameView| #[trigger] all.contains(g) && g.state == "live"@;
            &&& live_on ==> (game matches Some(x) && x.state == "live"@ && all.contains(x) && forall|g: GameView|
                #[trigger] all.contains(g) && g.state == "live"@ ==> !str_lt(x.start, g.start))
            &&& !live_on ==> (game matches Some(x) ==> all.contains(x) && scored_final(x) && forall|g: GameView|
                #[trigger] all.contains(g) && scored_final(g) ==> !str_lt(x.start, g.start))
            &&& !live_on ==> (game is None <==> forall|g: GameView| #[trigger] all.contains(g) ==> !scored_final(g))
        }),
{
    let all = schedule_games(schedule, team_id);
    let gs = sorted_by_start(all);
    games_sorted_by_start(all);
    lemma_sorted_same_games(all);
    lemma_last_live(gs);
    lemma_no_live(gs);
    lemma_last_live_latest(gs);
    lemma_last_final_latest(gs);
    let (game, next) = spec_pick(schedule, team_id, now_secs, now_nanos);
    let live_on = exists|g: GameView| #[trigger] all.contains(g) && g.state == "live"@;
    match last_live(gs) {
        Some(x) => {
            assert(game == Some(x));
            assert(live_on) by {
                assert(all.contains(x));
            }
            assert forall|g: GameView| #[trigger] all.contains(g) && g.state == "live"@ implies !str_lt(
                x.start,
                g.start,
            ) by {
                assert(gs.contains(g));
                let j = choose|j: int| 0 <= j < gs.len() && gs[j] == g;
                assert(gs[j].state == "live"@);
            }
        },
        None => {
            assert(!live_on) by {
                if live_on {
                    let g = choose|g: GameView| #[trigger] all.contains(g) && g.state == "live"@;
                    assert(gs.contains(g));
                    let j = choose|j: int| 0 <= j < gs.len() && gs[j] == g;
                    assert(gs[j].state != "live"@);
                }
            }
            assert(game == last_final(gs));
            match game {
                Some(x) => {
                    assert forall|g: GameView| #[trigger] all.contains(g) && scored_final(g) implies !str_lt(
                        x.start,
                        g.start,
                    ) by {
                        assert(gs.contains(g));
                        let j = choose|j: int| 0 <= j < gs.len() && gs[j] == g;
                        assert(scored_final(gs[j]));
                    }
                    assert(all.contains(x));
                    let k = choose|k: int| 0 <= k < gs.len() && gs[k] == x;
                    assert(!(forall|g: GameView| #[trigger] all.contains(g) ==> !scored_final(g)));
                },
                None => {
                    assert forall|g: GameView| #[trigger] all.contains(g) implies !scored_final(g) by {
                        assert(gs.contains(g));
                        let j = choose|j: int| 0 <= j < gs.len() && gs[j] == g;
                        assert(!scored_final(gs[j]));
                    }
                },
            }
        },
    }
}

} // verus!
