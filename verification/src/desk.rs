//! The copy desk: stories that came in short go back to the same editor
//! session once, with a note on how long each must be; what comes back is
//! taken only where it is longer than what ran.

use vstd::prelude::*;

use crate::editor::{
    extract_json, min_chars, object_in_reply, spec_min_chars, spec_story_len, spec_tidy_story,
    story_len, tidy_story,
};
use crate::json::{json_get, json_quote, spec_json_quote, str_of, JsonValue};
use crate::model::{card_views, Card, CardView};
use crate::stream::{model_args, push_arg, push_model_args};
use crate::text::{decimal, decimal_string, join, owned, str_eq};
use crate::wire::{spec_truncate, truncate};

verus! {

pub const REWRITE_HEAD: &'static str = "The copy desk bounced these stories: each is under its minimum length and leaves a hole in its column. Rewrite ONLY these, each to at least its minimum_characters (aim 15% over), in the same voice and paragraph style as before. Use what you already found in your research in this conversation - background, numbers, names, dates, what happens next. No new tool calls. Do not pad, repeat yourself, or invent anything; if you truly have nothing more, tighten what is there and get as close as you honestly can.\n\n";

pub const REWRITE_TAIL: &'static str = "\n\nYour reply must be ONLY a JSON object mapping each key to its new story text, paragraphs separated by a blank line: {\"0\": \"...\"}";

/// Longest story the desk takes back, in characters.
pub const REWRITE_MAX_CHARS: usize = 3200;

pub open spec fn or_blank(s: Option<Seq<char>>) -> Seq<char> {
    match s {
        Some(x) => x,
        None => Seq::empty(),
    }
}

/// The size the desk asks for: posts by their kind, the rest by size.
pub open spec fn asked_size(c: CardView) -> Seq<char> {
    if c.kind == "post"@ {
        "post"@
    } else {
        c.size
    }
}

/// One bounced story as a pretty-printed JSON object (members in key order,
/// as `serde_json` writes a map).
pub open spec fn bounced_json(i: nat, c: CardView) -> Seq<char> {
    "  {\n    \"current_characters\": "@ + decimal(spec_story_len(c)) + ",\n    \"current_story\": "@
        + spec_json_quote(or_blank(c.story)) + ",\n    \"headline\": "@ + spec_json_quote(c.headline)
        + ",\n    \"key\": "@ + spec_json_quote(decimal(i)) + ",\n    \"minimum_characters\": "@ + decimal(
        spec_min_chars(c),
    ) + ",\n    \"size\": "@ + spec_json_quote(asked_size(c)) + "\n  }"@
}

pub open spec fn bounced_items(cards: Seq<CardView>, short: Seq<usize>) -> Seq<Seq<char>>
    decreases short.len(),
{
    if short.len() == 0 {
        Seq::empty()
    } else {
        bounced_items(cards, short.drop_last()).push(
            bounced_json(short.last() as nat, cards[short.last() as int]),
        )
    }
}

/// The note to the editor: the bounced stories as a pretty JSON array
/// between the desk's instructions.
pub open spec fn rewrite_prompt(cards: Seq<CardView>, short: Seq<usize>) -> Seq<char> {
    REWRITE_HEAD@ + (if short.len() == 0 {
        "[]"@
    } else {
        "[\n"@ + join(bounced_items(cards, short), ",\n"@) + "\n]"@
    }) + REWRITE_TAIL@
}

pub open spec fn in_range(cards: Seq<Card>, short: Seq<usize>) -> bool {
    forall|k: int| 0 <= k < short.len() ==> #[trigger] short[k] < cards.len()
}

fn bounced_json_exec(i: usize, c: &Card) -> (r: String)
    ensures
        r@ == bounced_json(i as nat, c@),
{
    let mut s = owned("  {\n    \"current_characters\": ");
    s.append(decimal_string(story_len(c)).as_str());
    s.append(",\n    \"current_story\": ");
    let story = match &c.story {
        Some(x) => json_quote(x.as_str()),
        None => json_quote(String::new().as_str()),
    };
    s.append(story.as_str());
    s.append(",\n    \"headline\": ");
    s.append(json_quote(c.headline.as_str()).as_str());
    s.append(",\n    \"key\": ");
    s.append(json_quote(decimal_string(i).as_str()).as_str());
    s.append(",\n    \"minimum_characters\": ");
    s.append(decimal_string(min_chars(c)).as_str());
    s.append(",\n    \"size\": ");
    let size = if str_eq(c.kind.as_str(), "post") {
        json_quote("post")
    } else {
        json_quote(c.size.as_str())
    };
    s.append(size.as_str());
    s.append("\n  }");
    s
}

/// The request that sends the short stories back (`short` are their
/// positions, as `short_cards` gives them).
pub fn build_rewrite_prompt(cards: &[Card], short: &[usize]) -> (r: String)
    requires
        in_range(cards@, short@),
    ensures
        r@ == rewrite_prompt(card_views(cards@), short@),
{
    let ghost cv = card_views(cards@);
    let mut out = owned(REWRITE_HEAD);
    if short.len() == 0 {
        out.append("[]");
        out.append(REWRITE_TAIL);
        return out;
    }
    let mut body = owned("[\n");
    let mut k: usize = 0;
    assert(short@.take(0) =~= Seq::<usize>::empty());
    while k < short.len()
        invariant
            k <= short.len(),
            in_range(cards@, short@),
            cv == card_views(cards@),
            body@ == "[\n"@ + join(bounced_items(cv, short@.take(k as int)), ",\n"@),
            bounced_items(cv, short@.take(k as int)).len() == k,
        decreases short.len() - k,
    {
        let ghost parts = bounced_items(cv, short@.take(k as int));
        assert(short@.take(k + 1).drop_last() =~= short@.take(k as int));
        assert(short@.take(k + 1).last() == short@[k as int]);
        let i = short[k];
        assert(cv[i as int] == cards@[i as int]@);
        let j = bounced_json_exec(i, &cards[i]);
        if k > 0 {
            body.append(",\n");
        }
        body.append(j.as_str());
        assert(parts.push(j@).drop_last() =~= parts);
        assert(body@ =~= "[\n"@ + join(parts.push(j@), ",\n"@));
        k = k + 1;
    }
    assert(short@.take(k as int) =~= short@);
    body.append("\n]");
    out.append(body.as_str());
    out.append(REWRITE_TAIL);
    out
}

/// The arguments that resume the editor's session for the rewrite.
pub open spec fn rewrite_args(session_id: Seq<char>, model: Seq<char>) -> Seq<Seq<char>> {
    seq!["-p"@, "--resume"@, session_id, "--output-format"@, "json"@] + model_args(model)
}

pub fn rewrite_args_exec(session_id: &str, model: &str) -> (r: Vec<String>)
    ensures
        r.deep_view() == rewrite_args(session_id@, model@),
{
    let mut args: Vec<String> = Vec::new();
    push_arg(&mut args, "-p");
    push_arg(&mut args, "--resume");
    push_arg(&mut args, session_id);
    push_arg(&mut args, "--output-format");
    push_arg(&mut args, "json");
    push_model_args(&mut args, model);
    args
}

/// The object the rewrite answered with: the CLI's JSON envelope, and inside
/// it the object in its `result` text when there is one (else the envelope
/// itself).
pub open spec fn rewrite_reply(stdout: Seq<char>) -> Option<JsonValue> {
    match object_in_reply(stdout, false) {
        None => None,
        Some(env) => Some(
            match str_of(json_get(env, "result"@)) {
                Some(r) => match object_in_reply(r, false) {
                    Some(x) => x,
                    None => env,
                },
                None => env,
            },
        ),
    }
}

/// The new text for story `i`: the reply's member named by its position,
/// tidied and cut to the desk's maximum.
pub open spec fn rewrite_of(reply: JsonValue, i: nat) -> Option<Seq<char>> {
    match str_of(json_get(reply, decimal(i))) {
        Some(t) => Some(spec_truncate(spec_tidy_story(t), REWRITE_MAX_CHARS as nat)),
        None => None,
    }
}

/// The cards after the rewrites of `short` are taken, in order, and how many
/// were: a rewrite is taken only when it is longer than the story it
/// replaces.
pub open spec fn apply_upto(cards: Seq<CardView>, short: Seq<usize>, reply: JsonValue) -> (Seq<CardView>, nat)
    decreases short.len(),
{
    if short.len() == 0 {
        (cards, 0)
    } else {
        let (cs, n) = apply_upto(cards, short.drop_last(), reply);
        let i = short.last() as int;
        match rewrite_of(reply, i as nat) {
            Some(t) => if t.len() > spec_story_len(cs[i]) {
                (cs.update(i, CardView { story: Some(t), ..cs[i] }), n + 1)
            } else {
                (cs, n)
            },
            None => (cs, n),
        }
    }
}

/// Takes the rewrites out of the CLI's output and into the cards; the
/// number taken. Output that holds no JSON object changes nothing.
pub fn apply_rewrites(cards: &mut Vec<Card>, short: &[usize], stdout: &str) -> (fixed: usize)
    requires
        in_range(old(cards)@, short@),
    ensures
        match rewrite_reply(stdout@) {
            None => fixed == 0 && final(cards)@ == old(cards)@,
            Some(reply) => {
                &&& card_views(final(cards)@) == apply_upto(card_views(old(cards)@), short@, reply).0
                &&& fixed == apply_upto(card_views(old(cards)@), short@, reply).1
            },
        },
{
    let envelope = match extract_json(stdout) {
        Some(e) => e,
        None => return 0,
    };
    let inner = match envelope.get("result") {
        Some(r) => match r.as_str() {
            Some(t) => extract_json(t.as_str()),
            None => None,
        },
        None => None,
    };
    let reply = match inner {
        Some(x) => x,
        None => envelope,
    };
    let ghost cv0 = card_views(cards@);
    let mut fixed: usize = 0;
    let mut k: usize = 0;
    assert(short@.take(0) =~= Seq::<usize>::empty());
    while k < short.len()
        invariant
            k <= short.len(),
            in_range(cards@, short@),
            cards@.len() == cv0.len(),
            (card_views(cards@), fixed as nat) == apply_upto(cv0, short@.take(k as int), reply),
            fixed <= k,
        decreases short.len() - k,
    {
        assert(short@.take(k + 1).drop_last() =~= short@.take(k as int));
        assert(short@.take(k + 1).last() == short@[k as int]);
        let i = short[k];
        let key = decimal_string(i);
        match reply.get(key.as_str()) {
            Some(v) => match v.as_str() {
                Some(t) => {
                    let text = truncate(tidy_story(t.as_str()).as_str(), REWRITE_MAX_CHARS);
                    let n = crate::text::chars_of(text.as_str()).len();
                    if n > story_len(&cards[i]) {
                        let mut c = cards[i].copy();
                        c.story = Some(text);
                        let ghost before = card_views(cards@);
                        cards.set(i, c);
                        assert(card_views(cards@) =~= before.update(i as int, c@));
                        fixed = fixed + 1;
                    }
                },
                None => {},
            },
            None => {},
        }
        k = k + 1;
    }
    assert(short@.take(k as int) =~= short@);
    fixed
}

} // verus!
