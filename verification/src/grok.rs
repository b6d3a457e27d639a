//! The X wire: what the library does with xAI's Grok CLI. The prompt that
//! asks it for posts, reading the posts out of its reply, and the note left
//! for the reader when it gives none.

use vstd::prelude::*;

use crate::editor::{extract_json, object_in_reply};
use crate::json::{array_of, json_get, str_of, JsonValue};
use crate::links::{parse_url, spec_parse_url, UrlParts};
use crate::model::{interest_views, item_views, Interest, InterestView, WireItem, WireItemView};
use crate::stream::push_arg;
use crate::text::{
    chars_of, contains, decimal, decimal_u64, is_ascii_digit, join, owned, replace_seq, seq_eq,
    spec_to_lowercase, spec_utf8_lossy, split, split_vec, str_concat, str_contains, str_eq, str_trim,
    string_of, strip_all_prefix, strip_all_prefix_vec, to_lowercase, trim, trim_start_char,
    trim_start_char_vec, trim_vec, utf8_lossy,
};
use crate::wire::{spec_truncate, truncate};

verus! {

// ------------------------------------------------------------------- posts

/// The non-empty segments of a path, in order.
pub open spec fn non_empty_segments(segs: Seq<Seq<char>>) -> Seq<Seq<char>>
    decreases segs.len(),
{
    if segs.len() == 0 {
        Seq::empty()
    } else if segs.last().len() > 0 {
        non_empty_segments(segs.drop_last()).push(segs.last())
    } else {
        non_empty_segments(segs.drop_last())
    }
}

pub open spec fn all_digits(s: Seq<char>) -> bool {
    forall|i: int| 0 <= i < s.len() ==> is_ascii_digit(#[trigger] s[i])
}

/// A link to one post on X (or Twitter): https, the host x.com or
/// twitter.com (after any "www." and "mobile." prefixes), and a path
/// `<handle>/status/<digits>`.
pub open spec fn post_url_parts(p: UrlParts) -> bool {
    let host = strip_all_prefix(
        strip_all_prefix(
            match p.host {
                Some(h) => h,
                None => Seq::empty(),
            },
            "www."@,
        ),
        "mobile."@,
    );
    let segs = non_empty_segments(
        match p.segments {
            Some(s) => s,
            None => Seq::empty(),
        },
    );
    &&& host == "x.com"@ || host == "twitter.com"@
    &&& p.scheme == "https"@
    &&& segs.len() >= 3
    &&& segs[1] == "status"@
    &&& all_digits(segs[2])
    &&& segs[2].len() > 0
}

pub open spec fn spec_is_post_url(u: Seq<char>) -> bool {
    match spec_parse_url(u) {
        Some(p) => post_url_parts(p),
        None => false,
    }
}

#[verifier::loop_isolation(false)]
pub fn is_post_url(u: &str) -> (r: bool)
    ensures
        r == spec_is_post_url(u@),
{
    let parsed = match parse_url(u) {
        Some(p) => p,
        None => return false,
    };
    let host0 = match &parsed.host {
        Some(h) => chars_of(h),
        None => Vec::new(),
    };
    let www = chars_of("www.");
    let mobile = chars_of("mobile.");
    let h1 = strip_all_prefix_vec(host0.as_slice(), www.as_slice());
    let host = strip_all_prefix_vec(h1.as_slice(), mobile.as_slice());
    let x = chars_of("x.com");
    let tw = chars_of("twitter.com");
    let ok_host = seq_eq(host.as_slice(), x.as_slice()) || seq_eq(host.as_slice(), tw.as_slice());
    let empty: Vec<String> = Vec::new();
    let all_segs: &Vec<String> = match &parsed.segments {
        Some(s) => s,
        None => &empty,
    };
    let ghost raw = match parsed@.segments {
        Some(s) => s,
        None => Seq::<Seq<char>>::empty(),
    };
    assert(all_segs.deep_view() == raw);
    let mut segs: Vec<&String> = Vec::new();
    let mut i: usize = 0;
    while i < all_segs.len()
        invariant
            i <= all_segs@.len(),
            all_segs.deep_view() == raw,
            segs@.map_values(|s: &String| s@) == non_empty_segments(raw.take(i as int)),
        decreases all_segs@.len() - i,
    {
        assert(raw.take(i + 1).drop_last() =~= raw.take(i as int));
        assert(raw.take(i + 1).last() == all_segs@[i as int]@);
        if !all_segs[i].as_str().is_empty() {
            let ghost before = segs@;
            segs.push(&all_segs[i]);
            assert(segs@.map_values(|s: &String| s@) =~= before.map_values(|s: &String| s@).push(all_segs@[i as int]@));
        }
        i = i + 1;
    }
    assert(raw.take(all_segs@.len() as int) =~= raw);
    let ghost sv = segs@.map_values(|s: &String| s@);
    if !(ok_host && str_eq(&parsed.scheme, "https") && segs.len() >= 3) {
        return false;
    }
    assert(sv[1] == segs@[1]@ && sv[2] == segs@[2]@);
    if !str_eq(segs[1], "status") {
        return false;
    }
    let id = chars_of(segs[2]);
    if id.len() == 0 {
        return false;
    }
    let mut k: usize = 0;
    while k < id.len()
        invariant
            k <= id@.len(),
            forall|j: int| 0 <= j < k ==> is_ascii_digit(#[trigger] id@[j]),
        decreases id@.len() - k,
    {
        if !('0' <= id[k] && id[k] <= '9') {
            assert(!is_ascii_digit(id@[k as int]));
            return false;
        }
        k = k + 1;
    }
    true
}

/// A text field of a post: trimmed, and only when it is not empty.
pub open spec fn post_field(p: JsonValue, key: Seq<char>) -> Option<Seq<char>> {
    match str_of(json_get(p, key)) {
        Some(s) => if trim(s).len() > 0 {
            Some(trim(s))
        } else {
            None
        },
        None => None,
    }
}

/// "Name (@handle)", or whichever of the two the post gave.
pub open spec fn post_author(p: JsonValue) -> Option<Seq<char>> {
    let handle = match post_field(p, "handle"@) {
        Some(h) => Some("@"@ + trim_start_char(h, '@')),
        None => None,
    };
    match (post_field(p, "author"@), handle) {
        (Some(a), Some(h)) => Some(a + " ("@ + h + ")"@),
        (Some(a), None) => Some(a),
        (None, h) => h,
    }
}

/// One post of Grok's reply as wire copy: only with a real post link and
/// some text.
pub open spec fn post_item(p: JsonValue) -> Option<WireItemView> {
    match str_of(json_get(p, "url"@)) {
        Some(u) => {
            let url = trim(u);
            let text = match str_of(json_get(p, "text"@)) {
                Some(t) => trim(t),
                None => Seq::empty(),
            };
            if !spec_is_post_url(url) || text.len() == 0 {
                None
            } else {
                Some(
                    WireItemView {
                        kind: "post"@,
                        title: spec_truncate(text, 300),
                        url: replace_seq(url, "://twitter.com/"@, "://x.com/"@),
                        source: "X"@,
                        author: post_author(p),
                        published: post_field(p, "posted_at"@),
                        summary: post_field(p, "why"@),
                        image: None,
                        beat: match post_field(p, "beat"@) {
                            Some(b) => b,
                            None => Seq::empty(),
                        },
                    },
                )
            }
        },
        None => None,
    }
}

pub open spec fn posts_fold(arr: Seq<JsonValue>) -> Seq<WireItemView>
    decreases arr.len(),
{
    if arr.len() == 0 {
        Seq::empty()
    } else {
        let prev = posts_fold(arr.drop_last());
        match post_item(arr.last()) {
            Some(w) => prev.push(w),
            None => prev,
        }
    }
}

/// Grok's reply: the envelope's "text" (itself JSON) when it has one, else
/// the envelope itself; its "posts", each that is a real post.
pub open spec fn spec_parse_posts(stdout: Seq<char>) -> Seq<WireItemView> {
    match object_in_reply(stdout, false) {
        Some(envelope) => {
            let reply = match str_of(json_get(envelope, "text"@)) {
                Some(text) => object_in_reply(text, false),
                None => Some(envelope),
            };
            match reply {
                Some(r) => match array_of(json_get(r, "posts"@)) {
                    Some(arr) => posts_fold(arr),
                    None => Seq::empty(),
                },
                None => Seq::empty(),
            }
        },
        None => Seq::empty(),
    }
}

fn field_exec(p: &JsonValue, key: &str) -> (r: Option<String>)
    ensures
        r.deep_view() == post_field(*p, key@),
{
    match p.get(key) {
        Some(v) => match v.as_str() {
            Some(s) => {
                let t = str_trim(s);
                if t.as_str().is_empty() {
                    None
                } else {
                    Some(t)
                }
            },
            None => None,
        },
        None => None,
    }
}

fn post_item_exec(p: &JsonValue) -> (r: Option<WireItem>)
    ensures
        match r {
            Some(w) => post_item(*p) == Some(w@),
            None => post_item(*p) is None,
        },
{
    let url = match p.get("url") {
        Some(v) => match v.as_str() {
            Some(u) => str_trim(u),
            None => return None,
        },
        None => return None,
    };
    if !is_post_url(&url) {
        return None;
    }
    let text = match p.get("text") {
        Some(v) => match v.as_str() {
            Some(t) => str_trim(t),
            None => String::new(),
        },
        None => String::new(),
    };
    if text.as_str().is_empty() {
        return None;
    }
    let handle = match field_exec(p, "handle") {
        Some(h) => {
            let hv = chars_of(&h);
            let bare = crate::text::trim_start_char_vec(hv.as_slice(), '@');
            let b = string_of(bare.as_slice());
            Some(str_concat("@", &b))
        },
        None => None,
    };
    let author = match (field_exec(p, "author"), handle) {
        (Some(a), Some(h)) => {
            let x = str_concat(&a, " (");
            let y = str_concat(&x, &h);
            Some(str_concat(&y, ")"))
        },
        (Some(a), None) => Some(a),
        (None, h) => h,
    };
    let uv = chars_of(&url);
    let from = chars_of("://twitter.com/");
    let to = chars_of("://x.com/");
    proof {
        reveal_strlit("://twitter.com/");
    }
    let fixed = crate::text::replace_vec(uv.as_slice(), from.as_slice(), to.as_slice());
    Some(WireItem {
        kind: owned("post"),
        title: truncate(&text, 300),
        url: string_of(fixed.as_slice()),
        source: owned("X"),
        author,
        published: field_exec(p, "posted_at"),
        summary: field_exec(p, "why"),
        image: None,
        beat: match field_exec(p, "beat") {
            Some(b) => b,
            None => String::new(),
        },
    })
}

/// The posts in the Grok CLI's output. stdout is one JSON object
/// {"text": "...", ...} whose `text` is the model's reply, itself our JSON;
/// with plain output the reply is the object itself. Anything else: none.
pub fn parse_posts(stdout: &str) -> (r: Vec<WireItem>)
    ensures
        item_views(r@) == spec_parse_posts(stdout@),
{
    let mut out: Vec<WireItem> = Vec::new();
    let envelope = match extract_json(stdout) {
        Some(e) => e,
        None => {
            assert(item_views(out@) =~= Seq::<WireItemView>::empty());
            return out;
        },
    };
    let inner: Option<JsonValue> = match envelope.get("text") {
        Some(t) => match t.as_str() {
            Some(text) => match extract_json(text) {
                Some(v) => Some(v),
                None => {
                    assert(item_views(out@) =~= Seq::<WireItemView>::empty());
                    return out;
                },
            },
            None => None,
        },
        None => None,
    };
    let reply: &JsonValue = match &inner {
        Some(v) => v,
        None => &envelope,
    };
    let arr = match reply.get("posts") {
        Some(a) => match a.as_array() {
            Some(arr) => arr,
            None => {
                assert(item_views(out@) =~= Seq::<WireItemView>::empty());
                return out;
            },
        },
        None => {
            assert(item_views(out@) =~= Seq::<WireItemView>::empty());
            return out;
        },
    };
    let mut i: usize = 0;
    while i < arr.len()
        invariant
            i <= arr@.len(),
            item_views(out@) == posts_fold(arr@.take(i as int)),
        decreases arr@.len() - i,
    {
        assert(arr@.take(i + 1).drop_last() =~= arr@.take(i as int));
        match post_item_exec(&arr[i]) {
            Some(w) => {
                let ghost before = out@;
                out.push(w);
                assert(item_views(out@) =~= item_views(before).push(w@));
            },
            None => {},
        }
        i = i + 1;
    }
    assert(arr@.take(arr@.len() as int) =~= arr@);
    out
}


// ------------------------------------------------------------------ prompt

pub const GROK_PROMPT_HEAD: &'static str = "Today is ";

pub const GROK_PROMPT_ASK: &'static str = ". You are the X (Twitter) correspondent for a one-reader personal newspaper.\n\nSearch X for posts from roughly the last 48 hours that this reader would want to see. Their interests, in priority order:\n";

pub const GROK_PROMPT_RULES: &'static str = "\nWhat makes a good pick: a post from the actual person or an official account, real news breaking on X, a genuinely funny or sharp post, a demo or clip worth watching. Skip engagement bait, reply-guy threads, crypto spam and rage politics.\n\nReturn 10 to 15 posts. Rules:\n- Only include posts whose URL you actually saw in your search results. Never build or guess a URL.\n- URLs must look like https://x.com/<handle>/status/<id>.\n- \"text\" is the post's own words, verbatim, trimmed to 280 characters.\n- Output ONLY a JSON object, no commentary, no code fence:\n\n{\"posts\":[{\"author\":\"Display Name\",\"handle\":\"@handle\",\"text\":\"...\",\"url\":\"https://x.com/handle/status/123\",\"posted_at\":\"2026-01-31T18:00:00Z or a plain description like '3 hours ago'\",\"beat\":\"which interest this matches\",\"why\":\"one short line on why the reader would care\"}]}";

/// One beat for the correspondent: "- Name: notes".
pub open spec fn grok_beat(i: InterestView) -> Seq<char> {
    "- "@ + i.name + (if trim(i.notes).len() > 0 {
        ": "@ + trim(i.notes)
    } else {
        Seq::<char>::empty()
    }) + "\n"@
}

/// The handle of an X account interest, "@" and all, when it has one.
pub open spec fn account_of(i: InterestView) -> Option<Seq<char>> {
    let h = trim_start_char(trim(i.value), '@');
    if i.kind == "x_account"@ && h.len() > 0 {
        Some("@"@ + h)
    } else {
        None
    }
}

/// The enabled beats, one line each, and the X accounts among them.
pub open spec fn grok_beats(s: Seq<InterestView>) -> (Seq<char>, Seq<Seq<char>>)
    decreases s.len(),
{
    if s.len() == 0 {
        (Seq::empty(), Seq::empty())
    } else {
        let (b, a) = grok_beats(s.drop_last());
        let i = s.last();
        if i.enabled {
            (
                b + grok_beat(i),
                match account_of(i) {
                    Some(h) => a.push(h),
                    None => a,
                },
            )
        } else {
            (b, a)
        }
    }
}

/// The prompt for the X correspondent: today's date, the beats in order,
/// and the accounts to check first.
pub open spec fn grok_prompt(interests: Seq<InterestView>, today: Seq<char>) -> Seq<char> {
    let (beats, accounts) = grok_beats(interests);
    let accounts_line = if accounts.len() == 0 {
        Seq::<char>::empty()
    } else {
        "\nCheck these accounts first: "@ + join(accounts, ", "@) + "\n"@
    };
    GROK_PROMPT_HEAD@ + today + GROK_PROMPT_ASK@ + beats + accounts_line + GROK_PROMPT_RULES@
}

fn account_exec(i: &Interest) -> (r: Option<String>)
    ensures
        r.deep_view() == account_of(i@),
{
    let v = chars_of(i.value.as_str());
    let t = trim_vec(v.as_slice());
    let h = trim_start_char_vec(t.as_slice(), '@');
    if str_eq(i.kind.as_str(), "x_account") && h.len() > 0 {
        let hs = string_of(h.as_slice());
        Some(str_concat("@", hs.as_str()))
    } else {
        None
    }
}

pub fn build_prompt(interests: &[Interest], today: &str) -> (r: String)
    ensures
        r@ == grok_prompt(interest_views(interests@), today@),
{
    let ghost iv = interest_views(interests@);
    let mut beats = String::new();
    let mut accounts: Vec<String> = Vec::new();
    let mut k: usize = 0;
    assert(iv.take(0) =~= Seq::<InterestView>::empty());
    assert(accounts.deep_view() =~= Seq::<Seq<char>>::empty());
    while k < interests.len()
        invariant
            k <= interests.len(),
            iv == interest_views(interests@),
            (beats@, accounts.deep_view()) == grok_beats(iv.take(k as int)),
        decreases interests.len() - k,
    {
        assert(iv.take(k + 1).drop_last() =~= iv.take(k as int));
        assert(iv.take(k + 1).last() == iv[k as int]);
        assert(iv[k as int] == interests@[k as int]@);
        let i = &interests[k];
        if i.enabled {
            match account_exec(i) {
                Some(h) => {
                    let ghost before = accounts.deep_view();
                    let ghost hv = h@;
                    accounts.push(h);
                    assert(accounts.deep_view() =~= before.push(hv));
                },
                None => {},
            }
            let ghost b0 = beats@;
            beats.append("- ");
            beats.append(i.name.as_str());
            let notes = str_trim(i.notes.as_str());
            if !notes.as_str().is_empty() {
                beats.append(": ");
                beats.append(notes.as_str());
            }
            beats.append("\n");
            assert(beats@ =~= b0 + grok_beat(i@));
        }
        k = k + 1;
    }
    assert(iv.take(k as int) =~= iv);
    let mut out = owned(GROK_PROMPT_HEAD);
    out.append(today);
    out.append(GROK_PROMPT_ASK);
    out.append(beats.as_str());
    if accounts.len() > 0 {
        let mut line = owned("\nCheck these accounts first: ");
        let mut j: usize = 0;
        let mut joined = String::new();
        assert(accounts.deep_view().take(0) =~= Seq::<Seq<char>>::empty());
        while j < accounts.len()
            invariant
                j <= accounts.len(),
                joined@ == join(accounts.deep_view().take(j as int), ", "@),
            decreases accounts.len() - j,
        {
            let ghost parts = accounts.deep_view().take(j as int);
            assert(accounts.deep_view().take(j + 1).drop_last() =~= parts);
            assert(accounts.deep_view().take(j + 1).last() == accounts@[j as int]@);
            if j > 0 {
                joined.append(", ");
            }
            joined.append(accounts[j].as_str());
            assert(joined@ =~= join(accounts.deep_view().take(j + 1), ", "@));
            j = j + 1;
        }
        assert(accounts.deep_view().take(j as int) =~= accounts.deep_view());
        line.append(joined.as_str());
        line.append("\n");
        out.append(line.as_str());
    }
    out.append(GROK_PROMPT_RULES);
    out
}

// --------------------------------------------------------------- the command

/// Everything that can write, run a shell, fan out, or generate media.
pub const DENYLIST: [&'static str; 18] = [
    "run_terminal_cmd",
    "run_terminal_command",
    "search_replace",
    "write",
    "ask_user_question",
    "Agent",
    "spawn_subagent",
    "task",
    "use_tool",
    "search_tool",
    "image_gen",
    "image_edit",
    "image_to_video",
    "reference_to_video",
    "monitor",
    "scheduler_create",
    "scheduler_delete",
    "scheduler_list",
];

pub open spec fn denylist_text() -> Seq<char> {
    join(DENYLIST@.map_values(|t: &str| t@), ","@)
}

/// The arguments of a run: the prompt, JSON output, auto-approval; unless
/// `minimal`, also a turn cap, the tool denylist, no subagents, a read-only
/// sandbox and no self-update.
pub open spec fn grok_args(prompt: Seq<char>, minimal: bool) -> Seq<Seq<char>> {
    seq!["-p"@, prompt, "--output-format"@, "json"@, "--always-approve"@] + if minimal {
        Seq::empty()
    } else {
        seq![
            "--max-turns"@,
            "16"@,
            "--disallowed-tools"@,
            denylist_text(),
            "--no-subagents"@,
            "--sandbox"@,
            "read-only"@,
            "--no-auto-update"@,
        ]
    }
}

fn denylist_exec() -> (r: String)
    ensures
        r@ == denylist_text(),
{
    let ghost names = DENYLIST@.map_values(|t: &str| t@);
    let mut out = String::new();
    let mut j: usize = 0;
    assert(names.take(0) =~= Seq::<Seq<char>>::empty());
    while j < DENYLIST.len()
        invariant
            j <= DENYLIST@.len(),
            names == DENYLIST@.map_values(|t: &str| t@),
            out@ == join(names.take(j as int), ","@),
        decreases DENYLIST@.len() - j,
    {
        assert(names.take(j + 1).drop_last() =~= names.take(j as int));
        assert(names.take(j + 1).last() == DENYLIST@[j as int]@);
        if j > 0 {
            out.append(",");
        }
        out.append(DENYLIST[j]);
        assert(out@ =~= join(names.take(j + 1), ","@));
        j = j + 1;
    }
    assert(names.take(j as int) =~= names);
    out
}

pub fn grok_args_exec(prompt: &str, minimal: bool) -> (r: Vec<String>)
    ensures
        r.deep_view() == grok_args(prompt@, minimal),
{
    let mut args: Vec<String> = Vec::new();
    push_arg(&mut args, "-p");
    push_arg(&mut args, prompt);
    push_arg(&mut args, "--output-format");
    push_arg(&mut args, "json");
    push_arg(&mut args, "--always-approve");
    if !minimal {
        push_arg(&mut args, "--max-turns");
        push_arg(&mut args, "16");
        push_arg(&mut args, "--disallowed-tools");
        let d = denylist_exec();
        push_arg(&mut args, d.as_str());
        push_arg(&mut args, "--no-subagents");
        push_arg(&mut args, "--sandbox");
        push_arg(&mut args, "read-only");
        push_arg(&mut args, "--no-auto-update");
    }
    assert(args.deep_view() =~= grok_args(prompt@, minimal));
    args
}

/// The note when the run outlasts its time limit.
pub fn grok_timeout_note(secs: u64) -> (r: String)
    ensures
        r@ == "X wire: Grok took longer than "@ + decimal(secs as nat) + "s, skipped it this edition."@,
{
    let a = str_concat("X wire: Grok took longer than ", decimal_u64(secs).as_str());
    str_concat(a.as_str(), "s, skipped it this edition.")
}

// --------------------------------------------------------------- outcome

/// What the X wire gives the editor: posts, or a note on why there are none.
pub struct GrokOutcome {
    pub posts: Vec<WireItem>,
    pub note: Option<String>,
}

pub const REJECTED_NEEDLES: [&'static str; 4] = ["unexpected argument", "unrecognized", "unknown option", "invalid value"];

pub const SIGNED_OUT_NEEDLES: [&'static str; 4] = ["login", "unauthor", "not authenticated", "sign in"];

pub open spec fn any_of(hay: Seq<char>, needles: Seq<&str>) -> bool {
    exists|k: int| 0 <= k < needles.len() && contains(hay, #[trigger] needles[k]@)
}

fn any_of_exec(hay: &str, needles: &[&str]) -> (r: bool)
    ensures
        r == any_of(hay@, needles@),
{
    let mut k: usize = 0;
    while k < needles.len()
        invariant
            k <= needles.len(),
            forall|j: int| 0 <= j < k ==> !contains(hay@, #[trigger] needles@[j]@),
        decreases needles.len() - k,
    {
        if str_contains(hay, needles[k]) {
            return true;
        }
        k = k + 1;
    }
    false
}

/// After a failed run: whether the CLI turned down a flag, so that a run
/// with the basic flags is worth a try.
pub fn rejected_a_flag(stderr_bytes: &[u8]) -> (r: bool)
    ensures
        r == any_of(spec_to_lowercase(spec_utf8_lossy(stderr_bytes@)), REJECTED_NEEDLES@),
{
    let err = to_lowercase(utf8_lossy(stderr_bytes).as_str());
    any_of_exec(err.as_str(), REJECTED_NEEDLES.as_slice())
}

/// A line without the `\r` of a `\r\n` ending.
pub open spec fn strip_cr(l: Seq<char>) -> Seq<char> {
    if l.len() > 0 && l.last() == '\r' {
        l.drop_last()
    } else {
        l
    }
}

/// `str::lines`: the text split at `\n`, a `\r` before a `\n` dropped, no
/// empty line after a final `\n`.
pub open spec fn text_lines(s: Seq<char>) -> Seq<Seq<char>> {
    let parts = split(s, "\n"@);
    if parts.len() > 0 && parts.last().len() == 0 {
        parts.drop_last().map_values(|l: Seq<char>| strip_cr(l))
    } else if parts.len() > 0 {
        parts.drop_last().map_values(|l: Seq<char>| strip_cr(l)).push(parts.last())
    } else {
        Seq::empty()
    }
}

/// The last three lines of the error output, joined with " | ".
pub open spec fn error_tail(stderr_text: Seq<char>) -> Seq<char> {
    let ls = text_lines(stderr_text);
    join(if ls.len() <= 3 { ls } else { ls.skip(ls.len() - 3) }, " | "@)
}

/// Why a run gave no posts: not signed in; an error (with the end of its
/// output); or an answer without usable posts.
pub open spec fn grok_hint(stdout_text: Seq<char>, stderr_text: Seq<char>, success: bool) -> Seq<char> {
    let lower = spec_to_lowercase(stdout_text + "\n"@ + stderr_text);
    if any_of(lower, SIGNED_OUT_NEEDLES@) {
        "Grok isn't signed in. Run `grok login` in PowerShell once."@
    } else if !success {
        "Grok exited with an error: "@ + spec_truncate(trim(error_tail(stderr_text)), 200)
    } else {
        "Grok answered but returned no usable posts."@
    }
}

/// The X wire from a finished run: its posts when it gave any, else a note.
pub open spec fn grok_outcome(stdout_bytes: Seq<u8>, stderr_bytes: Seq<u8>, success: bool) -> (
    Seq<WireItemView>,
    Option<Seq<char>>,
) {
    let out = spec_utf8_lossy(stdout_bytes);
    let err = spec_utf8_lossy(stderr_bytes);
    let posts = spec_parse_posts(out);
    if posts.len() > 0 {
        (posts, None)
    } else {
        (Seq::empty(), Some("X wire: "@ + grok_hint(out, err, success)))
    }
}

fn lines_exec(s: &str) -> (r: Vec<String>)
    ensures
        r.deep_view() == text_lines(s@),
{
    let cs = chars_of(s);
    let nl = chars_of("\n");
    proof {
        reveal_strlit("\n");
    }
    let parts = split_vec(cs.as_slice(), nl.as_slice());
    let ghost pv = parts.deep_view();
    let mut out: Vec<String> = Vec::new();
    let n = parts.len();
    if n == 0 {
        assert(out.deep_view() =~= text_lines(s@));
        return out;
    }
    let mut k: usize = 0;
    while k + 1 < n
        invariant
            k + 1 <= n,
            n == parts.len(),
            pv == parts.deep_view(),
            pv == split(s@, "\n"@),
            out.deep_view() == pv.take(k as int).map_values(|l: Seq<char>| strip_cr(l)),
        decreases n - k,
    {
        let p = &parts[k];
        assert(pv[k as int] == p@);
        let line = if p.len() > 0 && p[p.len() - 1] == '\r' {
            let q = crate::text::slice_vec(p.as_slice(), 0, p.len() - 1);
            assert(q@ =~= p@.drop_last());
            assert(p@.last() == '\r');
            string_of(q.as_slice())
        } else {
            string_of(p.as_slice())
        };
        assert(line@ == strip_cr(pv[k as int]));
        let ghost before = out.deep_view();
        let ghost lv = line@;
        out.push(line);
        assert(out.deep_view() =~= before.push(lv));
        assert(pv.take(k + 1).map_values(|l: Seq<char>| strip_cr(l)) =~= pv.take(k as int).map_values(
            |l: Seq<char>| strip_cr(l),
        ).push(strip_cr(pv[k as int])));
        k = k + 1;
    }
    assert(pv.take(k as int) =~= pv.drop_last());
    assert(pv[n - 1] == parts@[n - 1]@);
    if parts[n - 1].len() > 0 {
        let ghost before = out.deep_view();
        out.push(string_of(parts[n - 1].as_slice()));
        assert(out.deep_view() =~= before.push(pv.last()));
    }
    out
}

fn error_tail_exec(stderr_text: &str) -> (r: String)
    ensures
        r@ == error_tail(stderr_text@),
{
    let ls = lines_exec(stderr_text);
    let ghost lv = ls.deep_view();
    let start: usize = if ls.len() <= 3 {
        0
    } else {
        ls.len() - 3
    };
    let ghost picked = lv.skip(start as int);
    assert(picked =~= if lv.len() <= 3 { lv } else { lv.skip(lv.len() - 3) });
    let mut out = String::new();
    let mut j: usize = start;
    assert(picked.take(0) =~= Seq::<Seq<char>>::empty());
    while j < ls.len()
        invariant
            start <= j <= ls.len(),
            lv == ls.deep_view(),
            picked == lv.skip(start as int),
            out@ == join(picked.take(j - start), " | "@),
        decreases ls.len() - j,
    {
        assert(picked.take(j - start + 1).drop_last() =~= picked.take(j - start));
        assert(picked.take(j - start + 1).last() == ls@[j as int]@);
        if j > start {
            out.append(" | ");
        }
        out.append(ls[j].as_str());
        assert(out@ =~= join(picked.take(j - start + 1), " | "@));
        j = j + 1;
    }
    assert(picked.take(j - start) =~= picked);
    out
}

/// The outcome of a finished run (`success` is whether the process exited
/// well).
pub fn outcome_of(stdout_bytes: &[u8], stderr_bytes: &[u8], success: bool) -> (r: GrokOutcome)
    ensures
        (item_views(r.posts@), r.note.deep_view()) == grok_outcome(stdout_bytes@, stderr_bytes@, success),
{
    let out = utf8_lossy(stdout_bytes);
    let err = utf8_lossy(stderr_bytes);
    let posts = parse_posts(out.as_str());
    if posts.len() > 0 {
        return GrokOutcome { posts, note: None };
    }
    let a = str_concat(out.as_str(), "\n");
    let b = str_concat(a.as_str(), err.as_str());
    let lower = to_lowercase(b.as_str());
    let hint = if any_of_exec(lower.as_str(), SIGNED_OUT_NEEDLES.as_slice()) {
        owned("Grok isn't signed in. Run `grok login` in PowerShell once.")
    } else if !success {
        let tail = error_tail_exec(err.as_str());
        let t = truncate(str_trim(tail.as_str()).as_str(), 200);
        str_concat("Grok exited with an error: ", t.as_str())
    } else {
        owned("Grok answered but returned no usable posts.")
    };
    let empty: Vec<WireItem> = Vec::new();
    assert(item_views(empty@) =~= Seq::<WireItemView>::empty());
    GrokOutcome { posts: empty, note: Some(str_concat("X wire: ", hint.as_str())) }
}

} // verus!
