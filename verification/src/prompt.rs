//! The prompt that asks the editor CLI for an edition: the reader's beats,
//! the wire copy as JSON, and the newsroom's standing instructions.

use vstd::prelude::*;

use crate::editor::{BRIEF_CHARS, FEATURE_CHARS, LEAD_CHARS, POST_CHARS};
use crate::json::{json_quote, spec_json_quote};
use crate::model::{interest_views, item_views, Interest, InterestView, WireItem, WireItemView};
use crate::text::{decimal, decimal_string, owned, str_eq, str_trim, trim, join};

verus! {

/// The fixed text of the prompt, in order; the variable parts go between the
/// pieces (see `editor_prompt`).
pub const PROMPT_PIECES: [&'static str; 18] = [
    "You are the editor-in-chief of \"",
    "\", a personal newspaper with exactly one reader. Today is ",
    ".\n\nTHE READER'S BEATS (priority order; disabled beats are already removed):\n",
    "\nWIRE COPY - already fetched for you. These links are real; prefer them.\nVIDEOS (YouTube channel feeds):\n",
    "\n\nNEWS (news search feeds, unranked, may contain junk):\n",
    "\n\nX POSTS (from Grok's live X search):\n",
    "\n\nYOUR JOB\n1. Research - fast. The reader is watching a progress bar, and every extra round of tool calls costs them 30-60 seconds. You get exactly TWO research rounds:\n   - Round 1: decide every search you need and send them all TOGETHER in one message (up to 10 WebSearch calls at once).\n   - Round 2: one more message with everything else TOGETHER: the pages you want to read for the lead and features (up to 5 WebFetch calls) and any follow-up searches (up to 3).\n   - Then the newsroom closes. No third round, no \"one more check\": write the edition with what you have. If a detail is still unknown, leave it out or say it is not yet known - a shorter accurate story beats another search. No commentary between rounds - just the tool calls, then the final JSON.\n   The wire already covers the listed YouTube channels and general news for each beat, so do not re-search those. It is weak on: brand-new interviews and podcast appearances, music releases from the last few days, and videos from channels not on the list. Favor the last 48 hours; nothing older than 7 days unless it is a major release the reader would not want to miss.\n2. Select the best ",
    " to ",
    " items across the reader's beats. Be a ruthless editor: drop junk, duplicates, listicles, SEO filler and anything stale. Never pad with junk - but this paper replaces the reader's browsing, so don't stop early either: every enabled beat with real news gets at least one story, the wire copy below is full of candidates, and an edition under ",
    " stories only happens on a day with truly no news. Give higher-priority beats more room.\n3. Write each card the way a newspaper writer files a short piece. The reader wants to get the whole story from the page itself and only click through when they want more:\n   - \"headline\": your own headline, max 90 characters, no clickbait, no ALL CAPS. For videos you may keep the video's real title if it is already good.\n   - \"dek\": one sentence, max 160 characters - the standfirst under the headline. It must not repeat the story's opening sentence. For \"post\" cards the dek is the post's own text, verbatim.\n   - \"story\": the piece itself, in your own words, plain text, paragraphs separated by a blank line. This is a text-forward newspaper set in narrow columns, not a list of links: every story is a complete little article that leaves the reader knowing what happened. Include the specifics they would otherwise click for: who, what, the numbers, the dates, what was said, what happens next.\n       * LENGTH IS A LAYOUT REQUIREMENT. The page is typeset in columns of about 45 characters per line, and a short story leaves a hole in the column. Count characters (letters, spaces and punctuation) and write toward the TOP of each range:\n           lead     ",
    "-",
    " characters, 4-6 paragraphs\n           feature  ",
    "-",
    " characters, 3-4 paragraphs\n           brief    ",
    "-",
    " characters, 2 paragraphs - a brief is still a full little story, never two sentences\n           post     ",
    "-",
    " characters of context\n         Anything under the minimum is rejected and sent back to you. If you cannot reach the minimum truthfully from what you found, the item is too thin to run: either spend one of your fetches on it, or drop it and pick a meatier one. Never pad with filler or repeat yourself to make length - add real detail: background, the numbers, who else is involved, what came before, what happens next.\n       * VOICE: a feature writer filing copy, never a catalog entry. Do not open with \"This video...\", \"This article...\", \"In this episode...\" or any description of the item as an item. Open with the most interesting concrete thing in it: what was said, shown, decided, scored or shipped. Shape of a good video opener: \"In the latest episode of <show>, <guest> <the most striking thing they said or did>...\" and then the rest of what it covers.\n       * video cards: you have not watched the video, so work like a reporter - use its title and description, and for a lead or feature video spend a search or a fetch on recaps and coverage of it so you can report what was actually said or shown. Say who is in it and how long it runs if you know. Never invent quotes, moments or conclusions; if coverage is thin, write a shorter story about who the guest is and what the description says they get into.\n       * post cards: the story is a short paragraph of context - who this is, what they are responding to, what happened around it, why it matters.\n   - \"why\": optional, max 90 characters, only when the link to the reader's interests is not obvious.\n   GROUNDING: write only what the wire copy, your search results or pages you fetched actually support. When all you have is a headline and a snippet, that item is not ready to run: fetch it or choose another. Do not guess. Never copy sentences from a source; quote sparingly, never more than 15 words, and only words you actually saw.\n4. Lay out the page:\n   - Exactly one card has \"size\":\"lead\" - the single most important or exciting item today.\n   - 3 to 5 cards are \"feature\". Everything else is \"brief\".\n   - Put each card in a section. Use 4 to 7 sections, named like newspaper desks. \"Front Page\" must hold the lead plus 2 to 4 of the features (they run in columns on either side of the lead), whatever their beat. Use \"Video Desk\" for videos not on the front page, and \"The X Wire\" for posts. Invent the rest to fit the day (for example \"Tech & AI\", \"Music\", \"Sports\", \"Range & Gear\", \"Workshop\").\n   - \"sections\" lists the section names in the order they should appear; \"Front Page\" first.\n\nHARD RULES\n- Every \"url\" must come from the wire copy above or from a page you actually saw in your search results or fetched. Never construct, guess or \"fix\" a URL.\n- Videos must be youtube.com/watch?v=... (or youtu.be) links to the specific video, not a channel or search page.\n- \"kind\" is exactly one of: \"article\", \"video\", \"post\".\n- Second link, when you have one: if an \"article\" card is about a specific video (an interview, a trailer, a launch stream, an episode) and you saw that video's real YouTube link, put it in \"video_url\". If a \"video\" card has a good write-up or recap that you used, put that page in \"article_url\". The page then offers both \"Read more\" and \"See the video\". Same rule as every link: only URLs you actually saw.\n- \"published\": ISO 8601 if you know it, otherwise omit it. Do not guess dates.\n- Copy \"image\" through from the wire copy when the item has one; otherwise omit it (the app finds images itself).\n- No duplicate stories: if three outlets cover one event, pick the best one.\n- \"tagline\": a short, dry, one-line motto for today's edition (max 70 characters), in the spirit of a newspaper's front-page slogan.\n\nOUTPUT\nInside every string, quotation marks are typographic: “like this” and ‘this’. Never put a straight double quote (\") inside a string value - it breaks the JSON - and write paragraph breaks as \\n\\n, never as real line breaks.\nYour final message must be the JSON object itself and nothing else - no summary of what you did, no \"the edition is filed\", no prose before or after, no code fence. A program parses your final message; anything but the JSON is a failed edition. Do not write the edition to a file or hand it to any tool.\n\n{\"tagline\":\"...\",\"sections\":[\"Front Page\",\"...\"],\"cards\":[{\"kind\":\"article\",\"size\":\"lead\",\"section\":\"Front Page\",\"headline\":\"...\",\"dek\":\"...\",\"story\":\"First paragraph.\\n\\nSecond paragraph.\",\"source\":\"Publication or channel name\",\"author\":\"optional\",\"url\":\"https://...\",\"video_url\":\"optional https://www.youtube.com/watch?v=...\",\"article_url\":\"optional https://...\",\"image\":\"optional https://...\",\"published\":\"optional ISO 8601\",\"why\":\"optional\"}]}",
];

/// The note in the X block when there are no posts and nobody said why.
pub const NO_X_NOTE: &'static str = "the X wire was unavailable this run";

pub const X_BLOCK_OPEN: &'static str = "(none - ";

pub const X_BLOCK_CLOSE: &'static str = ") If your own searching surfaces a notable post with a real x.com/<handle>/status/<id> link, you may include it as a \"post\" card. Otherwise skip the X section entirely rather than padding it.";

pub open spec fn piece(k: int) -> Seq<char> {
    PROMPT_PIECES@[k]@
}

/// One beat of the reader's list: "3. Name [kind: value] - notes". The value
/// is shown for kinds other than topics and people, and only when it is not
/// blank; the notes only when they are not blank.
pub open spec fn beat_line(n: nat, i: InterestView) -> Seq<char> {
    decimal(n) + ". "@ + i.name + " ["@ + i.kind + (if trim(i.value).len() > 0 && i.kind != "topic"@
        && i.kind != "person"@ {
        ": "@ + trim(i.value)
    } else {
        Seq::<char>::empty()
    }) + "]"@ + (if trim(i.notes).len() > 0 {
        " - "@ + trim(i.notes)
    } else {
        Seq::<char>::empty()
    }) + "\n"@
}

/// The enabled beats, numbered from `done + 1`, one line each.
pub open spec fn beats_text(s: Seq<InterestView>, done: nat) -> Seq<char>
    decreases s.len(),
{
    if s.len() == 0 {
        Seq::empty()
    } else if s[0].enabled {
        beat_line(done + 1, s[0]) + beats_text(s.drop_first(), done + 1)
    } else {
        beats_text(s.drop_first(), done)
    }
}

/// `",\"key\":"` and the quoted value, or nothing when there is no value.
pub open spec fn opt_member(key: Seq<char>, v: Option<Seq<char>>) -> Seq<char> {
    match v {
        Some(x) => key + spec_json_quote(x),
        None => Seq::empty(),
    }
}

/// A wire item as compact JSON: its fields in declaration order, the optional
/// ones left out when empty.
pub open spec fn item_json(w: WireItemView) -> Seq<char> {
    "{\"kind\":"@ + spec_json_quote(w.kind) + ",\"title\":"@ + spec_json_quote(w.title) + ",\"url\":"@
        + spec_json_quote(w.url) + ",\"source\":"@ + spec_json_quote(w.source) + opt_member(
        ",\"author\":"@,
        w.author,
    ) + opt_member(",\"published\":"@, w.published) + opt_member(",\"summary\":"@, w.summary)
        + opt_member(",\"image\":"@, w.image) + ",\"beat\":"@ + spec_json_quote(w.beat) + "}"@
}

/// Whether an item goes in the list being built: the videos, or everything
/// else; `None` takes every item.
pub open spec fn wanted_item(w: WireItemView, videos: Option<bool>) -> bool {
    match videos {
        Some(v) => (w.kind == "video"@) == v,
        None => true,
    }
}

/// The JSON of each wanted item, in order.
pub open spec fn items_json(s: Seq<WireItemView>, videos: Option<bool>) -> Seq<Seq<char>>
    decreases s.len(),
{
    if s.len() == 0 {
        Seq::empty()
    } else {
        let rest = items_json(s.drop_last(), videos);
        if wanted_item(s.last(), videos) {
            rest.push(item_json(s.last()))
        } else {
            rest
        }
    }
}

/// A JSON array of already-written values.
pub open spec fn json_array(parts: Seq<Seq<char>>) -> Seq<char> {
    "["@ + join(parts, ","@) + "]"@
}

/// The X section: the posts as JSON, or a note saying why there are none.
pub open spec fn x_block(x_posts: Seq<WireItemView>, x_note: Option<Seq<char>>) -> Seq<char> {
    if x_posts.len() == 0 {
        X_BLOCK_OPEN@ + (match x_note {
            Some(n) => n,
            None => NO_X_NOTE@,
        }) + X_BLOCK_CLOSE@
    } else {
        json_array(items_json(x_posts, None))
    }
}

/// At least half the cap, and never fewer than eight.
pub open spec fn min_cards_for(max_cards: nat) -> nat {
    if max_cards / 2 >= 8 {
        max_cards / 2
    } else {
        8
    }
}

/// The whole prompt.
pub open spec fn editor_prompt(
    interests: Seq<InterestView>,
    wire: Seq<WireItemView>,
    x_posts: Seq<WireItemView>,
    x_note: Option<Seq<char>>,
    today: Seq<char>,
    max_cards: nat,
    paper: Seq<char>,
) -> Seq<char> {
    let least = min_cards_for(max_cards);
    piece(0) + paper + piece(1) + today + piece(2) + beats_text(interests, 0) + piece(3) + json_array(
        items_json(wire, Some(true)),
    ) + piece(4) + json_array(items_json(wire, Some(false))) + piece(5) + x_block(x_posts, x_note)
        + piece(6) + decimal(least) + piece(7) + decimal(max_cards) + piece(8) + decimal(least) + piece(9)
        + decimal(LEAD_CHARS.0 as nat) + piece(10) + decimal(LEAD_CHARS.1 as nat) + piece(11) + decimal(
        FEATURE_CHARS.0 as nat,
    ) + piece(12) + decimal(FEATURE_CHARS.1 as nat) + piece(13) + decimal(BRIEF_CHARS.0 as nat) + piece(14)
        + decimal(BRIEF_CHARS.1 as nat) + piece(15) + decimal(POST_CHARS.0 as nat) + piece(16) + decimal(
        POST_CHARS.1 as nat,
    ) + piece(17)
}

pub open spec fn note_view(x: Option<&str>) -> Option<Seq<char>> {
    match x {
        Some(s) => Some(s@),
        None => None,
    }
}

fn beat_line_exec(n: usize, i: &Interest) -> (r: String)
    ensures
        r@ == beat_line(n as nat, i@),
{
    let mut line = decimal_string(n);
    line.append(". ");
    line.append(i.name.as_str());
    line.append(" [");
    line.append(i.kind.as_str());
    let v = str_trim(i.value.as_str());
    if !v.as_str().is_empty() && !str_eq(i.kind.as_str(), "topic") && !str_eq(i.kind.as_str(), "person") {
        line.append(": ");
        line.append(v.as_str());
    }
    line.append("]");
    let notes = str_trim(i.notes.as_str());
    if !notes.as_str().is_empty() {
        line.append(" - ");
        line.append(notes.as_str());
    }
    line.append("\n");
    line
}

proof fn lemma_beats_step(s: Seq<InterestView>, i: int, done: nat)
    requires
        0 <= i < s.len(),
    ensures
        beats_text(s.skip(i), done) == if s[i].enabled {
            beat_line(done + 1, s[i]) + beats_text(s.skip(i + 1), done + 1)
        } else {
            beats_text(s.skip(i + 1), done)
        },
{
    assert(s.skip(i).drop_first() =~= s.skip(i + 1));
    assert(s.skip(i)[0] == s[i]);
}

fn beats_exec(interests: &[Interest]) -> (r: String)
    ensures
        r@ == beats_text(interest_views(interests@), 0),
{
    let ghost iv = interest_views(interests@);
    let mut out = String::new();
    let mut done: usize = 0;
    let mut i: usize = 0;
    assert(iv.skip(0) =~= iv);
    while i < interests.len()
        invariant
            i <= interests.len(),
            done <= i,
            iv == interest_views(interests@),
            iv.len() == interests.len(),
            out@ + beats_text(iv.skip(i as int), done as nat) == beats_text(iv, 0),
        decreases interests.len() - i,
    {
        proof {
            lemma_beats_step(iv, i as int, done as nat);
        }
        assert(iv[i as int] == interests[i as int]@);
        if interests[i].enabled {
            let line = beat_line_exec(done + 1, &interests[i]);
            let ghost before = out@;
            out.append(line.as_str());
            assert(before + (line@ + beats_text(iv.skip(i + 1), (done + 1) as nat)) =~= out@ + beats_text(
                iv.skip(i + 1),
                (done + 1) as nat,
            ));
            done = done + 1;
        }
        i = i + 1;
    }
    assert(iv.skip(i as int) =~= Seq::<InterestView>::empty());
    assert(out@ =~= out@ + Seq::<char>::empty());
    out
}

fn opt_member_exec(out: &mut String, key: &str, v: &Option<String>)
    ensures
        final(out)@ == old(out)@ + opt_member(key@, v.deep_view()),
{
    match v {
        Some(x) => {
            let q = json_quote(x.as_str());
            let ghost before = out@;
            out.append(key);
            out.append(q.as_str());
            assert(out@ =~= before + (key@ + q@));
        },
        None => {
            assert(old(out)@ =~= old(out)@ + Seq::<char>::empty());
        },
    }
}

fn item_json_exec(w: &WireItem) -> (r: String)
    ensures
        r@ == item_json(w@),
{
    let mut s = owned("{\"kind\":");
    s.append(json_quote(w.kind.as_str()).as_str());
    s.append(",\"title\":");
    s.append(json_quote(w.title.as_str()).as_str());
    s.append(",\"url\":");
    s.append(json_quote(w.url.as_str()).as_str());
    s.append(",\"source\":");
    s.append(json_quote(w.source.as_str()).as_str());
    opt_member_exec(&mut s, ",\"author\":", &w.author);
    opt_member_exec(&mut s, ",\"published\":", &w.published);
    opt_member_exec(&mut s, ",\"summary\":", &w.summary);
    opt_member_exec(&mut s, ",\"image\":", &w.image);
    s.append(",\"beat\":");
    s.append(json_quote(w.beat.as_str()).as_str());
    s.append("}");
    s
}

/// The wanted items of a list as a JSON array.
pub fn items_array(items: &[WireItem], videos: Option<bool>) -> (r: String)
    ensures
        r@ == json_array(items_json(item_views(items@), videos)),
{
    let ghost iv = item_views(items@);
    let mut out = owned("[");
    let mut count: usize = 0;
    let mut i: usize = 0;
    assert(iv.take(0) =~= Seq::<WireItemView>::empty());
    while i < items.len()
        invariant
            i <= items.len(),
            iv == item_views(items@),
            iv.len() == items.len(),
            count == items_json(iv.take(i as int), videos).len(),
            count <= i,
            out@ == "["@ + join(items_json(iv.take(i as int), videos), ","@),
        decreases items.len() - i,
    {
        let ghost parts = items_json(iv.take(i as int), videos);
        assert(iv.take(i + 1).drop_last() =~= iv.take(i as int));
        assert(iv.take(i + 1).last() == iv[i as int]);
        assert(iv[i as int] == items[i as int]@);
        let w = &items[i];
        let keep = match videos {
            Some(v) => str_eq(w.kind.as_str(), "video") == v,
            None => true,
        };
        if keep {
            let j = item_json_exec(w);
            let ghost before = out@;
            if count > 0 {
                out.append(",");
            }
            out.append(j.as_str());
            assert(parts.push(j@).drop_last() =~= parts);
            assert(out@ =~= "["@ + join(parts.push(j@), ","@));
            count = count + 1;
        }
        i = i + 1;
    }
    assert(iv.take(i as int) =~= iv);
    let ghost before = out@;
    out.append("]");
    out
}

/// The prompt for the editor: the reader's enabled beats in order, the wire
/// copy (videos, then everything else) and the X posts as JSON, today's
/// date, the paper's name, and how many stories of what length to file.
pub fn build_prompt(
    interests: &[Interest],
    wire_items: &[WireItem],
    x_posts: &[WireItem],
    x_note: Option<&str>,
    today_long: &str,
    max_cards: usize,
    paper: &str,
) -> (r: String)
    ensures
        r@ == editor_prompt(
            interest_views(interests@),
            item_views(wire_items@),
            item_views(x_posts@),
            note_view(x_note),
            today_long@,
            max_cards as nat,
            paper@,
        ),
{
    let beats = beats_exec(interests);
    let videos = items_array(wire_items, Some(true));
    let articles = items_array(wire_items, Some(false));
    let x = if x_posts.len() == 0 {
        let mut b = owned(X_BLOCK_OPEN);
        match x_note {
            Some(n) => b.append(n),
            None => b.append(NO_X_NOTE),
        }
        b.append(X_BLOCK_CLOSE);
        b
    } else {
        items_array(x_posts, None)
    };
    assert(x_posts@.len() == 0 <==> item_views(x_posts@).len() == 0);
    let least = if max_cards / 2 >= 8 {
        max_cards / 2
    } else {
        8
    };
    let mut out = String::new();
    out.append(PROMPT_PIECES[0]);
    out.append(paper);
    out.append(PROMPT_PIECES[1]);
    out.append(today_long);
    out.append(PROMPT_PIECES[2]);
    out.append(beats.as_str());
    out.append(PROMPT_PIECES[3]);
    out.append(videos.as_str());
    out.append(PROMPT_PIECES[4]);
    out.append(articles.as_str());
    out.append(PROMPT_PIECES[5]);
    out.append(x.as_str());
    out.append(PROMPT_PIECES[6]);
    out.append(decimal_string(least).as_str());
    out.append(PROMPT_PIECES[7]);
    out.append(decimal_string(max_cards).as_str());
    out.append(PROMPT_PIECES[8]);
    out.append(decimal_string(least).as_str());
    out.append(PROMPT_PIECES[9]);
    out.append(decimal_string(LEAD_CHARS.0).as_str());
    out.append(PROMPT_PIECES[10]);
    out.append(decimal_string(LEAD_CHARS.1).as_str());
    out.append(PROMPT_PIECES[11]);
    out.append(decimal_string(FEATURE_CHARS.0).as_str());
    out.append(PROMPT_PIECES[12]);
    out.append(decimal_string(FEATURE_CHARS.1).as_str());
    out.append(PROMPT_PIECES[13]);
    out.append(decimal_string(BRIEF_CHARS.0).as_str());
    out.append(PROMPT_PIECES[14]);
    out.append(decimal_string(BRIEF_CHARS.1).as_str());
    out.append(PROMPT_PIECES[15]);
    out.append(decimal_string(POST_CHARS.0).as_str());
    out.append(PROMPT_PIECES[16]);
    out.append(decimal_string(POST_CHARS.1).as_str());
    out.append(PROMPT_PIECES[17]);
    out
}

} // verus!
