//! The editor-in-chief's desk: what the library does with the editor CLI's
//! reply. Story lengths and the copy desk, mending and finding the JSON in a
//! reply, turning it into cards, and the prompt that asks for it.

use vstd::prelude::*;

use crate::json::{
    array_of, json_get, json_prefix, json_quote, lookup, parse_json, spec_json_prefix, spec_parse_json,
    spec_json_quote, str_of, JsonValue,
};
use crate::model::{card_views, Card, CardView};
use crate::text::{
    chars_of, concat_vec, contains, contains_exec, is_whitespace, is_ws, join, join_vec,
    owned, replace_seq, replace_vec, spec_to_lowercase, split, split_vec, str_concat, str_eq,
    string_of, to_lowercase, trim, trim_vec, words, words_vec,
};
use crate::wire::{host_label, normalize_date, spec_host_label, spec_normalize_date, spec_truncate, spec_youtube_id, truncate, youtube_id};
use crate::grok::{is_post_url, spec_is_post_url};
use crate::links::{parse_url, spec_parse_url};

pub use crate::prompt::build_prompt;
pub use crate::stream::EditorOutput;

verus! {

// ------------------------------------------------------------------ lengths
//
// Story lengths in characters (min, max). The page is set in columns; a story
// under its minimum leaves a visible hole, so short ones are sent back once.

pub const LEAD_CHARS: (usize, usize) = (1500, 2300);
pub const FEATURE_CHARS: (usize, usize) = (900, 1350);
pub const BRIEF_CHARS: (usize, usize) = (520, 800);
pub const POST_CHARS: (usize, usize) = (240, 420);

/// The least a story may run: posts by their own rule, then by size.
pub open spec fn spec_min_chars(c: CardView) -> nat {
    if c.kind == "post"@ {
        POST_CHARS.0 as nat
    } else if c.size == "lead"@ {
        LEAD_CHARS.0 as nat
    } else if c.size == "feature"@ {
        FEATURE_CHARS.0 as nat
    } else {
        BRIEF_CHARS.0 as nat
    }
}

pub fn min_chars(card: &Card) -> (r: usize)
    ensures
        r == spec_min_chars(card@),
{
    if str_eq(&card.kind, "post") {
        return POST_CHARS.0;
    }
    if str_eq(&card.size, "lead") {
        LEAD_CHARS.0
    } else if str_eq(&card.size, "feature") {
        FEATURE_CHARS.0
    } else {
        BRIEF_CHARS.0
    }
}

/// Characters in a card's story (0 without one).
pub open spec fn spec_story_len(c: CardView) -> nat {
    match c.story {
        Some(s) => s.len(),
        None => 0,
    }
}

pub fn story_len(card: &Card) -> (r: usize)
    ensures
        r == spec_story_len(card@),
{
    match &card.story {
        Some(s) => chars_of(s).len(),
        None => 0,
    }
}

/// A story meaningfully under length: shorter than 90% of its minimum.
pub open spec fn is_short(c: CardView) -> bool {
    spec_story_len(c) * 10 < spec_min_chars(c) * 9
}

/// Positions of the short stories among the first `n` cards, in order.
pub open spec fn short_upto(cards: Seq<CardView>, n: int) -> Seq<usize>
    decreases n,
{
    if n <= 0 {
        Seq::empty()
    } else if is_short(cards[n - 1]) {
        short_upto(cards, n - 1).push((n - 1) as usize)
    } else {
        short_upto(cards, n - 1)
    }
}

/// Cards whose story came in meaningfully under length (10% grace).
pub fn short_cards(cards: &[Card]) -> (r: Vec<usize>)
    ensures
        r@ == short_upto(card_views(cards@), cards@.len() as int),
{
    let ghost cv = card_views(cards@);
    let mut out: Vec<usize> = Vec::new();
    let mut i: usize = 0;
    while i < cards.len()
        invariant
            i <= cards@.len(),
            cv == card_views(cards@),
            out@ == short_upto(cv, i as int),
        decreases cards@.len() - i,
    {
        let len = story_len(&cards[i]) as u128;
        let min = min_chars(&cards[i]) as u128;
        assert(cv[i as int] == cards@[i as int]@);
        if len * 10 < min * 9 {
            out.push(i);
        }
        i = i + 1;
    }
    out
}

// ---------------------------------------------------------------- failures

pub const REJECTED_FLAG_NEEDLES: [&'static str; 5] = [
    "unknown option",
    "unknown argument",
    "unexpected argument",
    "unrecognized option",
    "unrecognized argument",
];

/// Some needle of `needles` occurs in `hay`.
pub open spec fn any_in(hay: Seq<char>, needles: Seq<&str>) -> bool {
    exists|i: int| 0 <= i < needles.len() && contains(hay, #[trigger] needles[i]@)
}

fn any_in_exec(hay: &[char], needles: &[&str]) -> (r: bool)
    ensures
        r == any_in(hay@, needles@),
{
    let mut i: usize = 0;
    while i < needles.len()
        invariant
            i <= needles@.len(),
            forall|k: int| 0 <= k < i ==> !contains(hay@, #[trigger] needles@[k]@),
        decreases needles@.len() - i,
    {
        let n = chars_of(needles[i]);
        if contains_exec(hay, n.as_slice()) {
            return true;
        }
        i = i + 1;
    }
    false
}

/// An error that says the CLI did not know one of the flags it was given.
pub fn looks_like_rejected_flag(err: &str) -> (r: bool)
    ensures
        r == any_in(spec_to_lowercase(err@), REJECTED_FLAG_NEEDLES@),
{
    let e = to_lowercase(err);
    let ev = chars_of(&e);
    any_in_exec(ev.as_slice(), REJECTED_FLAG_NEEDLES.as_slice())
}

pub const SIGNED_OUT_NEEDLES: [&'static str; 4] = ["/login", "not logged in", "invalid api key", "authentication"];

pub const LIMIT_NEEDLES: [&'static str; 3] = ["usage limit", "rate limit", "limit reached"];

pub const SIGNED_OUT_MESSAGE: &'static str = "The editor CLI isn't signed in. Open PowerShell, run the editor CLI, then `/login`, and hit Refresh again.";

/// The message shown when an editor run fails: signed out and usage limits
/// get their own words; anything else is the error, shortened, with the tail
/// of the CLI's error output after it.
pub open spec fn spec_explain_failure(msg: Seq<char>, tail: Seq<char>) -> Seq<char> {
    let all = spec_to_lowercase(msg + "\n"@ + tail);
    if any_in(all, SIGNED_OUT_NEEDLES@) {
        SIGNED_OUT_MESSAGE@
    } else if any_in(all, LIMIT_NEEDLES@) {
        "The editor says you've hit a usage limit: "@ + spec_truncate(trim(msg), 200)
    } else if trim(tail).len() > 0 {
        spec_truncate(trim(msg), 300) + " - "@ + spec_truncate(trim(tail), 300)
    } else {
        spec_truncate(trim(msg), 300)
    }
}

pub fn explain_failure(msg: &str, stderr_tail: &str) -> (r: String)
    ensures
        r@ == spec_explain_failure(msg@, stderr_tail@),
{
    let joined = str_concat(msg, "\n");
    let joined = str_concat(&joined, stderr_tail);
    let all = to_lowercase(&joined);
    let av = chars_of(&all);
    if any_in_exec(av.as_slice(), SIGNED_OUT_NEEDLES.as_slice()) {
        return owned(SIGNED_OUT_MESSAGE);
    }
    let m = crate::text::str_trim(msg);
    if any_in_exec(av.as_slice(), LIMIT_NEEDLES.as_slice()) {
        let t = truncate(&m, 200);
        return str_concat("The editor says you've hit a usage limit: ", &t);
    }
    let out = truncate(&m, 300);
    let t = crate::text::str_trim(stderr_tail);
    if !t.as_str().is_empty() {
        let tt = truncate(&t, 300);
        let a = str_concat(&out, " - ");
        return str_concat(&a, &tt);
    }
    out
}

// ------------------------------------------------------------------ stories

/// One line of a story read into the paragraphs so far: `st.0` the
/// finished paragraphs, `st.1` the open one (empty when none is open). A
/// blank line (nothing but white space) ends the open paragraph; any other
/// line's words join it, a space apart.
pub open spec fn para_step(st: (Seq<Seq<char>>, Seq<char>), line: Seq<char>) -> (Seq<Seq<char>>, Seq<char>) {
    let j = join(words(line), " "@);
    if j.len() == 0 {
        if st.1.len() > 0 {
            (st.0.push(st.1), Seq::empty())
        } else {
            (st.0, Seq::empty())
        }
    } else if st.1.len() > 0 {
        (st.0, st.1 + " "@ + j)
    } else {
        (st.0, j)
    }
}

pub open spec fn para_fold(lines: Seq<Seq<char>>) -> (Seq<Seq<char>>, Seq<char>)
    decreases lines.len(),
{
    if lines.len() == 0 {
        (Seq::empty(), Seq::empty())
    } else {
        para_step(para_fold(lines.drop_last()), lines.last())
    }
}

/// The paragraphs of a story's lines: runs of lines that are not blank,
/// each run's words a space apart.
pub open spec fn paragraphs(lines: Seq<Seq<char>>) -> Seq<Seq<char>> {
    let st = para_fold(lines);
    if st.1.len() > 0 {
        st.0.push(st.1)
    } else {
        st.0
    }
}

/// Paragraphs normalised: line endings to `\n`, paragraphs are the runs of
/// lines that are not blank (a line of nothing but white space is blank),
/// each paragraph's white space squeezed to single spaces, and the
/// paragraphs joined by one blank line.
pub open spec fn spec_tidy_story(text: Seq<char>) -> Seq<char> {
    let unix = replace_seq(text, "\r\n"@, "\n"@);
    join(paragraphs(split(unix, "\n"@)), "\n\n"@)
}

/// Normalise paragraph breaks: any run of blank lines becomes exactly one,
/// single newlines inside a paragraph become spaces.
pub fn tidy_story(text: &str) -> (r: String)
    ensures
        r@ == spec_tidy_story(text@),
{
    let v = chars_of(text);
    let crlf = chars_of("\r\n");
    let lf = chars_of("\n");
    proof {
        reveal_strlit("\r\n");
        reveal_strlit("\n");
    }
    let unix = replace_vec(v.as_slice(), crlf.as_slice(), lf.as_slice());
    let lines = split_vec(unix.as_slice(), lf.as_slice());
    let ghost lv = lines.deep_view();
    let space = chars_of(" ");
    let mut closed: Vec<Vec<char>> = Vec::new();
    let mut cur: Vec<char> = Vec::new();
    let mut i: usize = 0;
    assert(lv.take(0) =~= Seq::<Seq<char>>::empty());
    while i < lines.len()
        invariant
            i <= lines@.len(),
            space@ == " "@,
            lv == lines.deep_view(),
            (closed.deep_view(), cur@) == para_fold(lv.take(i as int)),
        decreases lines@.len() - i,
    {
        assert(lv.take(i + 1).drop_last() =~= lv.take(i as int));
        assert(lv.take(i + 1).last() == lv[i as int]);
        proof {
            crate::text::lemma_deep_chars(lines@[i as int]);
        }
        let ws = words_vec(lines[i].as_slice());
        let j = join_vec(&ws, space.as_slice());
        let ghost before = closed.deep_view();
        if j.len() == 0 {
            if cur.len() > 0 {
                proof {
                    crate::text::lemma_deep_chars(cur);
                }
                closed.push(cur);
                assert(closed.deep_view() =~= before.push(para_fold(lv.take(i as int)).1));
                cur = Vec::new();
            }
        } else if cur.len() > 0 {
            let a = concat_vec(cur.as_slice(), space.as_slice());
            cur = concat_vec(a.as_slice(), j.as_slice());
        } else {
            cur = j;
        }
        i = i + 1;
    }
    assert(lv.take(lines@.len() as int) =~= lv);
    if cur.len() > 0 {
        let ghost before = closed.deep_view();
        proof {
            crate::text::lemma_deep_chars(cur);
        }
        closed.push(cur);
        assert(closed.deep_view() =~= before.push(para_fold(lv).1));
    }
    let sep = chars_of("\n\n");
    proof {
        reveal_strlit("\n\n");
    }
    let out = join_vec(&closed, sep.as_slice());
    string_of(out.as_slice())
}

// ------------------------------------------------------------- repair_json

/// The first position at or after `from` that is not white space.
pub open spec fn next_non_space(chars: Seq<char>, from: int) -> Option<int>
    decreases chars.len() - from,
{
    if from < 0 || from >= chars.len() {
        None
    } else if !is_ws(chars[from]) {
        Some(from)
    } else {
        next_non_space(chars, from + 1)
    }
}

/// Whether the `"` at `i`, inside a string, really closes it: what follows
/// looks like JSON structure (`:` `}` `]`, the end, or `,` and then the next
/// string, object or array).
pub open spec fn quote_closes(chars: Seq<char>, i: int) -> bool {
    match next_non_space(chars, i + 1) {
        None => true,
        Some(j) => {
            let c = chars[j];
            if c == ':' || c == '}' || c == ']' {
                true
            } else if c == ',' {
                match next_non_space(chars, j + 1) {
                    Some(k) => chars[k] == '"' || chars[k] == '{' || chars[k] == '[',
                    None => false,
                }
            } else {
                false
            }
        },
    }
}

/// The mended text from position `i` on, `in_string` telling whether `i`
/// is inside a string.
pub open spec fn repair_from(chars: Seq<char>, i: int, in_string: bool) -> Seq<char>
    decreases chars.len() - i,
{
    if i < 0 || i >= chars.len() {
        Seq::empty()
    } else {
        let c = chars[i];
        if !in_string {
            seq![c] + repair_from(chars, i + 1, c == '"')
        } else if c == '\\' {
            if i + 1 < chars.len() {
                seq![c, chars[i + 1]] + repair_from(chars, i + 2, true)
            } else {
                seq![c] + repair_from(chars, i + 1, true)
            }
        } else if c == '"' {
            if quote_closes(chars, i) {
                seq!['"'] + repair_from(chars, i + 1, false)
            } else {
                seq!['\\', '"'] + repair_from(chars, i + 1, true)
            }
        } else if c == '\n' {
            seq!['\\', 'n'] + repair_from(chars, i + 1, true)
        } else if c == '\r' {
            repair_from(chars, i + 1, true)
        } else if c == '\t' {
            seq![' '] + repair_from(chars, i + 1, true)
        } else {
            seq![c] + repair_from(chars, i + 1, true)
        }
    }
}

fn next_non_space_exec(chars: &[char], from: usize) -> (r: Option<usize>)
    ensures
        match r {
            Some(j) => next_non_space(chars@, from as int) == Some(j as int) && j < chars@.len(),
            None => next_non_space(chars@, from as int) is None,
        },
{
    let mut j = from;
    while j < chars.len()
        invariant
            from <= j,
            next_non_space(chars@, from as int) == next_non_space(chars@, j as int),
        decreases chars@.len() - j,
    {
        if !is_whitespace(chars[j]) {
            return Some(j);
        }
        j = j + 1;
    }
    None
}

fn quote_closes_exec(chars: &[char], i: usize) -> (r: bool)
    requires
        i < chars@.len(),
    ensures
        r == quote_closes(chars@, i as int),
{
    assert(chars@.len() == chars.len());
    match next_non_space_exec(chars, i + 1) {
        None => true,
        Some(j) => {
            let c = chars[j];
            if c == ':' || c == '}' || c == ']' {
                true
            } else if c == ',' {
                match next_non_space_exec(chars, j + 1) {
                    Some(k) => chars[k] == '"' || chars[k] == '{' || chars[k] == '[',
                    None => false,
                }
            } else {
                false
            }
        },
    }
}

/// Escape what JSON strings can't hold raw. A `"` inside a string only counts
/// as the closing quote when what follows looks like JSON structure
/// (`:` `}` `]`, end of text, or `,` and then the next string / object / array);
/// otherwise it is escaped. Raw line breaks inside strings become `\n`,
/// carriage returns are dropped and tabs become spaces.
pub fn repair_json(text: &str) -> (r: String)
    ensures
        r@ == repair_from(text@, 0, false),
{
    let chars = chars_of(text);
    let ghost cs = chars@;
    let mut out: Vec<char> = Vec::new();
    let mut in_string = false;
    let mut i: usize = 0;
    while i < chars.len()
        invariant
            i <= chars@.len(),
            cs == chars@,
            out@ + repair_from(cs, i as int, in_string) == repair_from(cs, 0, false),
        decreases chars@.len() - i,
    {
        let c = chars[i];
        let ghost before = out@;
        if !in_string {
            in_string = c == '"';
            out.push(c);
            assert(before + (seq![c] + repair_from(cs, i + 1, in_string)) =~= out@ + repair_from(cs, i + 1, in_string));
            i = i + 1;
            continue;
        }
        if c == '\\' {
            out.push(c);
            if i + 1 < chars.len() {
                out.push(chars[i + 1]);
                assert(before + (seq![c, cs[i + 1]] + repair_from(cs, i + 2, true)) =~= out@ + repair_from(cs, i + 2, true));
                i = i + 1;
            } else {
                assert(before + (seq![c] + repair_from(cs, i + 1, true)) =~= out@ + repair_from(cs, i + 1, true));
            }
        } else if c == '"' {
            if quote_closes_exec(chars.as_slice(), i) {
                in_string = false;
                out.push('"');
                assert(before + (seq!['"'] + repair_from(cs, i + 1, false)) =~= out@ + repair_from(cs, i + 1, false));
            } else {
                out.push('\\');
                out.push('"');
                assert(before + (seq!['\\', '"'] + repair_from(cs, i + 1, true)) =~= out@ + repair_from(cs, i + 1, true));
            }
        } else if c == '\n' {
            out.push('\\');
            out.push('n');
            assert(before + (seq!['\\', 'n'] + repair_from(cs, i + 1, true)) =~= out@ + repair_from(cs, i + 1, true));
        } else if c == '\r' {
        } else if c == '\t' {
            out.push(' ');
            assert(before + (seq![' '] + repair_from(cs, i + 1, true)) =~= out@ + repair_from(cs, i + 1, true));
        } else {
            out.push(c);
            assert(before + (seq![c] + repair_from(cs, i + 1, true)) =~= out@ + repair_from(cs, i + 1, true));
        }
        i = i + 1;
    }
    assert(out@ + Seq::<char>::empty() =~= out@);
    string_of(out.as_slice())
}

// ------------------------------------------------------------------ parsing

/// The kind of object wanted from a reply: any object, or an edition (an
/// object whose "cards" member is an array).
pub open spec fn wanted(v: JsonValue, need_cards: bool) -> bool {
    v is Object && (!need_cards || array_of(json_get(v, "cards"@)) is Some)
}

/// The first `{` at or after `k` where a wanted object starts.
pub open spec fn object_from(t: Seq<char>, k: int, need_cards: bool) -> Option<JsonValue>
    decreases t.len() - k,
{
    if k < 0 || k >= t.len() {
        None
    } else if t[k] == '{' && spec_json_prefix(t.skip(k)) is Some && wanted(
        spec_json_prefix(t.skip(k))->0,
        need_cards,
    ) {
        spec_json_prefix(t.skip(k))
    } else {
        object_from(t, k + 1, need_cards)
    }
}

/// A wanted object in a text: the trimmed text as a whole, else the first
/// object that starts at one of its `{`.
pub open spec fn object_in(text: Seq<char>, need_cards: bool) -> Option<JsonValue> {
    let t = trim(text);
    match spec_parse_json(t) {
        Some(v) if wanted(v, need_cards) => Some(v),
        _ => object_from(t, 0, need_cards),
    }
}

/// A wanted object in the text as it stands, else in the mended text.
pub open spec fn object_in_reply(text: Seq<char>, need_cards: bool) -> Option<JsonValue> {
    match object_in(text, need_cards) {
        Some(v) => Some(v),
        None => object_in(repair_from(text, 0, false), need_cards),
    }
}

fn is_wanted(v: &JsonValue, need_cards: bool) -> (r: bool)
    ensures
        r == wanted(*v, need_cards),
{
    if !v.is_object() {
        return false;
    }
    if !need_cards {
        return true;
    }
    match v.get("cards") {
        Some(c) => c.is_array(),
        None => false,
    }
}

#[verifier::loop_isolation(false)]
fn object_in_exec(text: &str, need_cards: bool) -> (r: Option<JsonValue>)
    ensures
        r == object_in(text@, need_cards),
{
    let t = crate::text::str_trim(text);
    match parse_json(&t) {
        Some(v) => {
            if is_wanted(&v, need_cards) {
                return Some(v);
            }
        },
        None => {},
    }
    let tv = chars_of(&t);
    let mut k: usize = 0;
    while k < tv.len()
        invariant
            k <= tv@.len(),
            tv@ == trim(text@),
            object_from(tv@, 0, need_cards) == object_from(tv@, k as int, need_cards),
        decreases tv@.len() - k,
    {
        if tv[k] == '{' {
            let rest = crate::text::slice_vec(tv.as_slice(), k, tv.len());
            let rs = string_of(rest.as_slice());
            assert(rs@ =~= tv@.skip(k as int));
            match json_prefix(&rs) {
                Some(v) => {
                    if is_wanted(&v, need_cards) {
                        return Some(v);
                    }
                },
                None => {},
            }
        }
        k = k + 1;
    }
    None
}

fn object_in_reply_exec(text: &str, need_cards: bool) -> (r: Option<JsonValue>)
    ensures
        r == object_in_reply(text@, need_cards),
{
    match object_in_exec(text, need_cards) {
        Some(v) => Some(v),
        None => {
            let mended = repair_json(text);
            object_in_exec(&mended, need_cards)
        },
    }
}

/// The first JSON object in a reply, forgiving the usual model slips: a bare
/// object, a ```json fence, prose or log lines around it, and (after
/// mending) straight quotes and raw line breaks inside strings.
pub fn extract_json(text: &str) -> (r: Option<JsonValue>)
    ensures
        r == object_in_reply(text@, false),
{
    object_in_reply_exec(text, false)
}

// ---------------------------------------------------------------- salvage

/// The cards parsed one by one from position `k` of a text, inside the
/// `"cards":[` array: `depth` is the brace depth, `in_string` / `escaped`
/// the string state, `start` where the current top-level object began.
pub open spec fn scan_cards(t: Seq<char>, k: int, depth: nat, in_string: bool, escaped: bool, start: Option<int>) -> Seq<JsonValue>
    decreases t.len() - k,
{
    if k < 0 || k >= t.len() {
        Seq::empty()
    } else {
        let b = t[k];
        if in_string {
            if escaped {
                scan_cards(t, k + 1, depth, true, false, start)
            } else if b == '\\' {
                scan_cards(t, k + 1, depth, true, true, start)
            } else if b == '"' {
                scan_cards(t, k + 1, depth, false, false, start)
            } else {
                scan_cards(t, k + 1, depth, true, false, start)
            }
        } else if b == '"' {
            scan_cards(t, k + 1, depth, true, false, start)
        } else if b == '{' {
            scan_cards(t, k + 1, depth + 1, false, false, if depth == 0 { Some(k) } else { start })
        } else if b == '}' && depth > 0 {
            if depth == 1 {
                match start {
                    Some(s) => match spec_parse_json(t.subrange(s, k + 1)) {
                        Some(v) => seq![v] + scan_cards(t, k + 1, 0, false, false, None),
                        None => scan_cards(t, k + 1, 0, false, false, None),
                    },
                    None => scan_cards(t, k + 1, 0, false, false, None),
                }
            } else {
                scan_cards(t, k + 1, (depth - 1) as nat, false, false, start)
            }
        } else if b == ']' && depth == 0 {
            Seq::empty()
        } else {
            scan_cards(t, k + 1, depth, false, false, start)
        }
    }
}

/// The last position before `upto` holding `c`.
pub open spec fn last_before(t: Seq<char>, c: char, upto: int) -> Option<int>
    decreases upto,
{
    if upto <= 0 {
        None
    } else if t[upto - 1] == c {
        Some(upto - 1)
    } else {
        last_before(t, c, upto - 1)
    }
}

/// Where the salvage reads from: the `"cards"` key and the first `[` after it.
pub open spec fn cards_key(t: Seq<char>) -> Option<(int, int)> {
    match crate::text::first_occ_from(t, "\"cards\""@, 0) {
        Some(start) => match crate::text::first_occ_from(t, seq!['['], start) {
            Some(open) => Some((start, open)),
            None => None,
        },
        None => None,
    }
}

/// The cards that parse on their own inside the `"cards"` array.
pub open spec fn salvaged_cards(t: Seq<char>) -> Seq<JsonValue> {
    match cards_key(t) {
        Some((start, open)) => scan_cards(t, open + 1, 0, false, false, None),
        None => Seq::empty(),
    }
}

/// The bounds of the head of the object (what precedes `"cards"`): from the
/// last `{` to the last `,` before the key.
pub open spec fn head_bounds(t: Seq<char>, start: int) -> (int, int) {
    let head_end = match last_before(t, ',', start) {
        Some(i) => i,
        None => start,
    };
    let head_start = match last_before(t, '{', start) {
        Some(i) => i,
        None => 0,
    };
    (head_start, head_end)
}

/// The salvage can cut out the head of the object: when there are cards to
/// keep, the last `{` before the key comes no later than the last `,`
/// (slicing the head the other way round is out of bounds).
pub open spec fn salvage_in_bounds(t: Seq<char>) -> bool {
    match cards_key(t) {
        Some((start, open)) => salvaged_cards(t).len() > 0 ==> head_bounds(t, start).0 <= head_bounds(t, start).1,
        None => true,
    }
}

/// The members of the head of the object: the head cut out and closed with
/// `}`, when that parses as an object; none otherwise.
pub open spec fn salvaged_head(t: Seq<char>) -> Seq<(String, JsonValue)> {
    match cards_key(t) {
        Some((start, open)) => {
            let (hs, he) = head_bounds(t, start);
            match spec_parse_json(t.subrange(hs, he) + seq!['}']) {
                Some(JsonValue::Object(pairs)) => pairs@,
                _ => Seq::empty(),
            }
        },
        None => Seq::empty(),
    }
}

/// `r` is the object `head` with its "cards" member set to the array `cards`.
pub open spec fn object_with_cards(r: JsonValue, head: Seq<(String, JsonValue)>, cards: Seq<JsonValue>) -> bool {
    &&& r is Object
    &&& array_of(json_get(r, "cards"@)) == Some(cards)
    &&& forall|k: Seq<char>| k != "cards"@ ==> #[trigger] json_get(r, k) == lookup(head, k)
}

/// Last resort: every card object inside `"cards":[ ... ]` that parses on its
/// own, under the head of the object. `None` when no card parses.
pub open spec fn salvage_ok(t: Seq<char>, r: Option<JsonValue>) -> bool {
    if salvaged_cards(t).len() == 0 {
        r is None
    } else {
        r matches Some(v) && object_with_cards(v, salvaged_head(t), salvaged_cards(t))
    }
}

pub proof fn lemma_lookup_update(pairs: Seq<(String, JsonValue)>, i: int, x: (String, JsonValue), k: Seq<char>)
    requires
        0 <= i < pairs.len(),
        pairs[i].0@ == x.0@,
        k != x.0@,
    ensures
        lookup(pairs.update(i, x), k) == lookup(pairs, k),
    decreases pairs.len(),
{
    if i > 0 {
        lemma_lookup_update(pairs.drop_first(), i - 1, x, k);
        assert(pairs.update(i, x).drop_first() =~= pairs.drop_first().update(i - 1, x));
    } else {
        assert(pairs.update(i, x).drop_first() =~= pairs.drop_first());
    }
}

pub proof fn lemma_lookup_push(pairs: Seq<(String, JsonValue)>, x: (String, JsonValue), k: Seq<char>)
    requires
        k != x.0@ || lookup(pairs, k) is Some,
    ensures
        lookup(pairs.push(x), k) == lookup(pairs, k),
    decreases pairs.len(),
{
    if pairs.len() > 0 {
        assert(pairs.push(x)[0] == pairs[0]);
        if pairs[0].0@ != k {
            lemma_lookup_push(pairs.drop_first(), x, k);
            assert(pairs.push(x).drop_first() =~= pairs.drop_first().push(x));
        }
    } else {
        assert(pairs.push(x).drop_first() =~= pairs);
    }
}

pub proof fn lemma_lookup_first(pairs: Seq<(String, JsonValue)>, i: int, k: Seq<char>)
    requires
        0 <= i < pairs.len(),
        pairs[i].0@ == k,
        forall|j: int| 0 <= j < i ==> pairs[j].0@ != k,
    ensures
        lookup(pairs, k) == Some(pairs[i].1),
    decreases i,
{
    if i > 0 {
        lemma_lookup_first(pairs.drop_first(), i - 1, k);
    }
}

pub proof fn lemma_lookup_absent(pairs: Seq<(String, JsonValue)>, k: Seq<char>)
    requires
        forall|j: int| 0 <= j < pairs.len() ==> pairs[j].0@ != k,
    ensures
        lookup(pairs, k) is None,
    decreases pairs.len(),
{
    if pairs.len() > 0 {
        lemma_lookup_absent(pairs.drop_first(), k);
    }
}

fn last_before_exec(t: &[char], c: char, upto: usize) -> (r: Option<usize>)
    requires
        upto <= t@.len(),
    ensures
        match r {
            Some(i) => last_before(t@, c, upto as int) == Some(i as int) && i < upto,
            None => last_before(t@, c, upto as int) is None,
        },
{
    let mut k = upto;
    while k > 0
        invariant
            k <= upto <= t@.len(),
            last_before(t@, c, upto as int) == last_before(t@, c, k as int),
        decreases k,
    {
        if t[k - 1] == c {
            return Some(k - 1);
        }
        k = k - 1;
    }
    None
}

/// The cards from position `k` on, one by one (see `scan_cards`).
fn scan_cards_exec(t: &[char], from: usize) -> (r: Vec<JsonValue>)
    ensures
        r@ == scan_cards(t@, from as int, 0, false, false, None),
{
    let mut out: Vec<JsonValue> = Vec::new();
    let mut depth: usize = 0;
    let mut in_string = false;
    let mut escaped = false;
    let mut start: Option<usize> = None;
    let mut k = from;
    let ghost target = scan_cards(t@, from as int, 0, false, false, None);
    let ghost st: Option<int> = None;
    while k < t.len()
        invariant
            from <= k,
            target == scan_cards(t@, from as int, 0, false, false, None),
            depth <= k,
            !in_string ==> !escaped,
            st == match start {
                Some(s) => Some(s as int),
                None => None::<int>,
            },
            start matches Some(s) ==> s < k,
            out@ + scan_cards(t@, k as int, depth as nat, in_string, escaped, st) == target,
        decreases t@.len() - k,
    {
        let b = t[k];
        let ghost before = out@;
        if in_string {
            if escaped {
                escaped = false;
            } else if b == '\\' {
                escaped = true;
            } else if b == '"' {
                in_string = false;
            }
            k = k + 1;
            continue;
        }
        if b == '"' {
            in_string = true;
        } else if b == '{' {
            if depth == 0 {
                start = Some(k);
                proof {
                    st = Some(k as int);
                }
            }
            depth = depth + 1;
        } else if b == '}' && depth > 0 {
            depth = depth - 1;
            if depth == 0 {
                match start {
                    Some(s) => {
                        let piece = crate::text::slice_vec(t, s, k + 1);
                        let ps = string_of(piece.as_slice());
                        match parse_json(&ps) {
                            Some(v) => {
                                out.push(v);
                                assert(before + (seq![v] + scan_cards(t@, k + 1, 0, false, false, None)) =~= out@
                                    + scan_cards(t@, k + 1, 0, false, false, None));
                            },
                            None => {},
                        }
                    },
                    None => {},
                }
                start = None;
                proof {
                    st = None;
                }
            }
        } else if b == ']' && depth == 0 {
            assert(t@[k as int] == b);
            assert(scan_cards(t@, k as int, depth as nat, in_string, escaped, st) =~= Seq::<JsonValue>::empty());
            assert(out@ + Seq::<JsonValue>::empty() =~= out@);
            return out;
        }
        k = k + 1;
    }
    assert(out@ + Seq::<JsonValue>::empty() =~= out@);
    out
}

/// Whether the salvage of this (mended) text can cut out its head.
pub fn salvage_in_bounds_exec(text: &str) -> (r: bool)
    ensures
        r == salvage_in_bounds(text@),
{
    let t = chars_of(text);
    let key = chars_of("\"cards\"");
    let open_bracket: [char; 1] = ['['];
    assert(open_bracket@ =~= seq!['[']);
    let start = match crate::text::find_first_from(t.as_slice(), key.as_slice(), 0) {
        Some(s) => s,
        None => return true,
    };
    let open = match crate::text::find_first_from(t.as_slice(), open_bracket.as_slice(), start) {
        Some(o) => o,
        None => return true,
    };
    assert(crate::text::occurs_at(t@, seq!['['], open as int));
    assert(seq!['['].len() == 1);
    assert(open < t.len());
    let cards = scan_cards_exec(t.as_slice(), open + 1);
    if cards.len() == 0 {
        return true;
    }
    let head_end = match last_before_exec(t.as_slice(), ',', start) {
        Some(i) => i,
        None => start,
    };
    let head_start = match last_before_exec(t.as_slice(), '{', start) {
        Some(i) => i,
        None => 0,
    };
    head_start <= head_end
}

fn salvage_cards(text: &str) -> (r: Option<JsonValue>)
    requires
        salvage_in_bounds(text@),
    ensures
        salvage_ok(text@, r),
{
    let t = chars_of(text);
    let key = chars_of("\"cards\"");
    let open_bracket: [char; 1] = ['['];
    assert(open_bracket@ =~= seq!['[']);
    let start = match crate::text::find_first_from(t.as_slice(), key.as_slice(), 0) {
        Some(s) => s,
        None => return None,
    };
    let open = match crate::text::find_first_from(t.as_slice(), open_bracket.as_slice(), start) {
        Some(o) => o,
        None => return None,
    };
    assert(crate::text::occurs_at(t@, seq!['['], open as int));
    assert(seq!['['].len() == 1);
    assert(open < t.len());
    let cards = scan_cards_exec(t.as_slice(), open + 1);
    if cards.len() == 0 {
        return None;
    }
    let head_end = match last_before_exec(t.as_slice(), ',', start) {
        Some(i) => i,
        None => start,
    };
    let head_start = match last_before_exec(t.as_slice(), '{', start) {
        Some(i) => i,
        None => 0,
    };
    let head_chars = crate::text::slice_vec(t.as_slice(), head_start, head_end);
    let close: [char; 1] = ['}'];
    let head_text = concat_vec(head_chars.as_slice(), close.as_slice());
    assert(close@ =~= seq!['}']);
    let hs = string_of(head_text.as_slice());
    let mut pairs: Vec<(String, JsonValue)> = match parse_json(&hs) {
        Some(JsonValue::Object(p)) => p,
        _ => Vec::new(),
    };
    let ghost head = pairs@;
    assert(head == salvaged_head(text@));
    let ghost cv = cards@;
    // Put the cards where the head's own "cards" member is, or add them.
    let mut i: usize = 0;
    while i < pairs.len() && !str_eq(&pairs[i].0, "cards")
        invariant
            i <= pairs@.len(),
            pairs@ == head,
            forall|j: int| 0 <= j < i ==> head[j].0@ != "cards"@,
        decreases pairs@.len() - i,
    {
        i = i + 1;
    }
    let entry = (owned("cards"), JsonValue::Array(cards));
    if i < pairs.len() && str_eq(&pairs[i].0, "cards") {
        pairs.set(i, entry);
        proof {
            lemma_lookup_first(pairs@, i as int, "cards"@);
            assert forall|k: Seq<char>| k != "cards"@ implies #[trigger] lookup(pairs@, k) == lookup(head, k) by {
                lemma_lookup_update(head, i as int, entry, k);
            }
        }
    } else {
        pairs.push(entry);
        proof {
            assert forall|j: int| 0 <= j < head.len() implies head[j].0@ != "cards"@ by {
                if j >= i {
                    assert(i == head.len());
                }
            }
            lemma_lookup_absent(head, "cards"@);
            lemma_lookup_first(pairs@, i as int, "cards"@);
            assert forall|k: Seq<char>| k != "cards"@ implies #[trigger] lookup(pairs@, k) == lookup(head, k) by {
                lemma_lookup_push(head, entry, k);
            }
        }
    }
    let r = JsonValue::Object(pairs);
    assert(array_of(json_get(r, "cards"@)) == Some(cv));
    Some(r)
}

/// The edition in a reply: the object that has a "cards" array, else
/// (still broken somewhere) every card that parses on its own under the
/// head of the object, rather than losing the whole edition to one bad comma.
pub open spec fn edition_ok(text: Seq<char>, r: Option<JsonValue>) -> bool {
    match object_in_reply(text, true) {
        Some(v) => r == Some(v),
        None => salvage_ok(repair_from(text, 0, false), r),
    }
}

/// The inputs the salvage cannot take: an edition found without it, or a
/// mended text whose head can be cut out.
pub open spec fn edition_in_bounds(text: Seq<char>) -> bool {
    object_in_reply(text, true) is Some || salvage_in_bounds(repair_from(text, 0, false))
}

/// The edition in a reply: the object that has a "cards" array.
pub fn extract_edition(text: &str) -> (r: Option<JsonValue>)
    requires
        edition_in_bounds(text@),
    ensures
        edition_ok(text@, r),
{
    match object_in_reply_exec(text, true) {
        Some(v) => Some(v),
        None => {
            let mended = repair_json(text);
            salvage_cards(&mended)
        },
    }
}

/// Whether `extract_edition` can take this reply (see `edition_in_bounds`).
pub fn edition_in_bounds_exec(text: &str) -> (r: bool)
    ensures
        r == edition_in_bounds(text@),
{
    if object_in_reply_exec(text, true).is_some() {
        return true;
    }
    let mended = repair_json(text);
    salvage_in_bounds_exec(&mended)
}

// -------------------------------------------------------------------- cards

/// A text member of a card: trimmed, and only when it is neither empty nor
/// the word "null".
pub open spec fn card_field(o: JsonValue, k: Seq<char>) -> Option<Seq<char>> {
    match str_of(json_get(o, k)) {
        Some(x) => if trim(x).len() > 0 && trim(x) != "null"@ {
            Some(trim(x))
        } else {
            None
        },
        None => None,
    }
}

/// An http or https URL with a host.
pub open spec fn web_link(u: Seq<char>) -> bool {
    match spec_parse_url(u) {
        Some(p) => (p.scheme == "http"@ || p.scheme == "https"@) && p.host is Some,
        None => false,
    }
}

/// What a link is, whatever the editor claimed: a YouTube video, a post on
/// X, or an article.
pub open spec fn kind_of_link(url: Seq<char>) -> Seq<char> {
    if spec_youtube_id(url) is Some {
        "video"@
    } else if spec_is_post_url(url) {
        "post"@
    } else {
        "article"@
    }
}

pub open spec fn size_of(claimed: Option<Seq<char>>) -> Seq<char> {
    match claimed {
        Some(s) => if s == "lead"@ {
            "lead"@
        } else if s == "feature"@ {
            "feature"@
        } else {
            "brief"@
        },
        None => "brief"@,
    }
}

pub open spec fn map_truncate(s: Option<Seq<char>>, max: nat) -> Option<Seq<char>> {
    match s {
        Some(x) => Some(spec_truncate(x, max)),
        None => None,
    }
}

/// The card the editor's item `c` (at position `n`) makes, before duplicate
/// links are dropped and the lead is settled: none without a headline and a
/// web link. The kind comes from the link; second links are kept only when
/// they are the right kind (a YouTube video for an article, a web page that
/// is not a video for a video).
pub open spec fn candidate(c: JsonValue, n: nat) -> Option<CardView> {
    match (card_field(c, "url"@), card_field(c, "headline"@)) {
        (Some(url), Some(headline)) => if !web_link(url) {
            None
        } else {
            let kind = kind_of_link(url);
            let is_video = kind == "video"@;
            Some(
                CardView {
                    id: "c"@ + crate::text::decimal(n),
                    kind: kind,
                    size: size_of(card_field(c, "size"@)),
                    section: match card_field(c, "section"@) {
                        Some(x) => x,
                        None => "Front Page"@,
                    },
                    headline: spec_truncate(headline, 140),
                    dek: match card_field(c, "dek"@) {
                        Some(d) => spec_truncate(d, 320),
                        None => Seq::empty(),
                    },
                    story: match card_field(c, "story"@) {
                        Some(t) => Some(spec_truncate(spec_tidy_story(t), 3200)),
                        None => None,
                    },
                    source: match card_field(c, "source"@) {
                        Some(x) => x,
                        None => spec_host_label(url),
                    },
                    author: card_field(c, "author"@),
                    url: url,
                    video_url: if is_video {
                        None
                    } else {
                        match card_field(c, "video_url"@) {
                            Some(v) => if spec_youtube_id(v) is Some {
                                Some(v)
                            } else {
                                None
                            },
                            None => None,
                        }
                    },
                    article_url: if is_video {
                        match card_field(c, "article_url"@) {
                            Some(a) => if web_link(a) && spec_youtube_id(a) is None {
                                Some(a)
                            } else {
                                None
                            },
                            None => None,
                        }
                    } else {
                        None
                    },
                    image: match card_field(c, "image"@) {
                        Some(i) => if crate::text::starts_with(i, "http"@) {
                            Some(i)
                        } else {
                            None
                        },
                        None => None,
                    },
                    published: match card_field(c, "published"@) {
                        Some(p) => spec_normalize_date(p),
                        None => None,
                    },
                    why: map_truncate(card_field(c, "why"@), 120),
                },
            )
        },
        _ => None,
    }
}

pub open spec fn has_url(cs: Seq<CardView>, url: Seq<char>) -> bool {
    exists|k: int| 0 <= k < cs.len() && cs[k].url == url
}

/// The cards the editor's items make, in order, a link seen before dropped.
pub open spec fn accepted(arr: Seq<JsonValue>) -> Seq<CardView>
    decreases arr.len(),
{
    if arr.len() == 0 {
        Seq::empty()
    } else {
        let prev = accepted(arr.drop_last());
        match candidate(arr.last(), (arr.len() - 1) as nat) {
            Some(c) => if has_url(prev, c.url) {
                prev
            } else {
                prev.push(c)
            },
            None => prev,
        }
    }
}

pub open spec fn lead_before(cs: Seq<CardView>, i: int) -> bool {
    exists|j: int| 0 <= j < i && cs[j].size == "lead"@
}

/// Every lead after the first demoted to a feature.
pub open spec fn demoted(cs: Seq<CardView>) -> Seq<CardView> {
    Seq::new(
        cs.len(),
        |i: int|
            if cs[i].size == "lead"@ && lead_before(cs, i) {
                CardView { size: "feature"@, ..cs[i] }
            } else {
                cs[i]
            },
    )
}

/// The first card of the given size.
pub open spec fn first_of_size(cs: Seq<CardView>, size: Seq<char>, from: int) -> Option<int>
    decreases cs.len() - from,
{
    if from < 0 || from >= cs.len() {
        None
    } else if cs[from].size == size {
        Some(from)
    } else {
        first_of_size(cs, size, from + 1)
    }
}

/// Exactly one lead: keep the first, demote extras; with none, promote the
/// first feature (else the first card) and put it on the front page.
pub open spec fn lead_fixed(cs: Seq<CardView>) -> Seq<CardView> {
    if lead_before(cs, cs.len() as int) {
        demoted(cs)
    } else {
        let p = match first_of_size(cs, "feature"@, 0) {
            Some(i) => Some(i),
            None => if cs.len() > 0 {
                Some(0int)
            } else {
                None
            },
        };
        match p {
            Some(i) => cs.update(i, CardView { size: "lead"@, section: "Front Page"@, ..cs[i] }),
            None => cs,
        }
    }
}

/// The section names the editor listed, trimmed, blank ones and non-strings
/// skipped.
pub open spec fn listed_sections(a: Seq<JsonValue>) -> Seq<Seq<char>>
    decreases a.len(),
{
    if a.len() == 0 {
        Seq::empty()
    } else {
        let prev = listed_sections(a.drop_last());
        match str_of(Some(a.last())) {
            Some(x) => if trim(x).len() > 0 {
                prev.push(trim(x))
            } else {
                prev
            },
            None => prev,
        }
    }
}

pub open spec fn has_text(secs: Seq<Seq<char>>, x: Seq<char>) -> bool {
    exists|k: int| 0 <= k < secs.len() && secs[k] == x
}

/// The listed sections, then each card's section the list forgot, in card
/// order.
pub open spec fn with_missing(secs: Seq<Seq<char>>, cs: Seq<CardView>) -> Seq<Seq<char>>
    decreases cs.len(),
{
    if cs.len() == 0 {
        secs
    } else {
        let prev = with_missing(secs, cs.drop_last());
        if has_text(prev, cs.last().section) {
            prev
        } else {
            prev.push(cs.last().section)
        }
    }
}

/// The sections that hold at least one card, in order.
pub open spec fn used_sections(secs: Seq<Seq<char>>, cs: Seq<CardView>) -> Seq<Seq<char>>
    decreases secs.len(),
{
    if secs.len() == 0 {
        Seq::empty()
    } else {
        let prev = used_sections(secs.drop_last(), cs);
        if exists|k: int| 0 <= k < cs.len() && cs[k].section == secs.last() {
            prev.push(secs.last())
        } else {
            prev
        }
    }
}

/// The first position of a text in a list.
pub open spec fn position_of(secs: Seq<Seq<char>>, x: Seq<char>, from: int) -> Option<int>
    decreases secs.len() - from,
{
    if from < 0 || from >= secs.len() {
        None
    } else if secs[from] == x {
        Some(from)
    } else {
        position_of(secs, x, from + 1)
    }
}

/// "Front Page" (its first mention) moved to the front.
pub open spec fn front_page_first(secs: Seq<Seq<char>>) -> Seq<Seq<char>> {
    match position_of(secs, "Front Page"@, 0) {
        Some(i) => seq!["Front Page"@] + secs.remove(i),
        None => secs,
    }
}

/// Section order: what the editor asked for, then anything it forgot; only
/// sections with cards; "Front Page" first.
pub open spec fn section_order(v: JsonValue, cs: Seq<CardView>) -> Seq<Seq<char>> {
    let listed = match array_of(json_get(v, "sections"@)) {
        Some(a) => listed_sections(a),
        None => Seq::empty(),
    };
    front_page_first(used_sections(with_missing(listed, cs), cs))
}

/// The edition's cards: the editor's items, lenient (one malformed card is
/// dropped, not fatal), with exactly one lead.
pub open spec fn edition_cards(v: JsonValue) -> Seq<CardView> {
    lead_fixed(
        accepted(
            match array_of(json_get(v, "cards"@)) {
                Some(a) => a,
                None => Seq::empty(),
            },
        ),
    )
}

fn card_field_exec(o: &JsonValue, k: &str) -> (r: Option<String>)
    ensures
        r.deep_view() == card_field(*o, k@),
{
    match o.get(k) {
        Some(v) => match v.as_str() {
            Some(x) => {
                let t = crate::text::str_trim(x);
                if !t.as_str().is_empty() && !str_eq(&t, "null") {
                    Some(t)
                } else {
                    None
                }
            },
            None => None,
        },
        None => None,
    }
}

fn is_web_url(u: &str) -> (r: bool)
    ensures
        r == web_link(u@),
{
    match parse_url(u) {
        Some(p) => (str_eq(&p.scheme, "http") || str_eq(&p.scheme, "https")) && p.host.is_some(),
        None => false,
    }
}

fn build_card(c: &JsonValue, n: usize) -> (r: Option<Card>)
    ensures
        match r {
            Some(card) => candidate(*c, n as nat) == Some(card@),
            None => candidate(*c, n as nat) is None,
        },
{
    let url = match card_field_exec(c, "url") {
        Some(u) => u,
        None => return None,
    };
    let headline = match card_field_exec(c, "headline") {
        Some(h) => h,
        None => return None,
    };
    if !is_web_url(&url) {
        return None;
    }
    let kind = if youtube_id(&url).is_some() {
        owned("video")
    } else if is_post_url(&url) {
        owned("post")
    } else {
        owned("article")
    };
    let is_video = str_eq(&kind, "video");
    let size = match card_field_exec(c, "size") {
        Some(sz) => if str_eq(&sz, "lead") {
            owned("lead")
        } else if str_eq(&sz, "feature") {
            owned("feature")
        } else {
            owned("brief")
        },
        None => owned("brief"),
    };
    let section = match card_field_exec(c, "section") {
        Some(x) => x,
        None => owned("Front Page"),
    };
    let dek = match card_field_exec(c, "dek") {
        Some(d) => truncate(&d, 320),
        None => String::new(),
    };
    let story = match card_field_exec(c, "story") {
        Some(t) => {
            let tidy = tidy_story(&t);
            Some(truncate(&tidy, 3200))
        },
        None => None,
    };
    let source = match card_field_exec(c, "source") {
        Some(x) => x,
        None => host_label(&url),
    };
    let video_url = if is_video {
        None
    } else {
        match card_field_exec(c, "video_url") {
            Some(v) => if youtube_id(&v).is_some() {
                Some(v)
            } else {
                None
            },
            None => None,
        }
    };
    let article_url = if is_video {
        match card_field_exec(c, "article_url") {
            Some(a) => if is_web_url(&a) && youtube_id(&a).is_none() {
                Some(a)
            } else {
                None
            },
            None => None,
        }
    } else {
        None
    };
    let image = match card_field_exec(c, "image") {
        Some(i) => if crate::text::str_starts_with(&i, "http") {
            Some(i)
        } else {
            None
        },
        None => None,
    };
    let published = match card_field_exec(c, "published") {
        Some(p) => normalize_date(&p),
        None => None,
    };
    let why = match card_field_exec(c, "why") {
        Some(w) => Some(truncate(&w, 120)),
        None => None,
    };
    let num = crate::text::decimal_string(n);
    Some(Card {
        id: str_concat("c", &num),
        kind,
        size,
        section,
        headline: truncate(&headline, 140),
        dek,
        story,
        source,
        author: card_field_exec(c, "author"),
        url,
        video_url,
        article_url,
        image,
        published,
        why,
    })
}

fn has_url_exec(cards: &Vec<Card>, url: &String) -> (r: bool)
    ensures
        r == has_url(card_views(cards@), url@),
{
    let mut i: usize = 0;
    while i < cards.len()
        invariant
            i <= cards@.len(),
            forall|k: int| 0 <= k < i ==> card_views(cards@)[k].url != url@,
        decreases cards@.len() - i,
    {
        if str_eq(&cards[i].url, url) {
            assert(card_views(cards@)[i as int].url == url@);
            return true;
        }
        i = i + 1;
    }
    false
}

fn has_text_exec(secs: &Vec<String>, x: &String) -> (r: bool)
    ensures
        r == has_text(secs.deep_view(), x@),
{
    let mut i: usize = 0;
    while i < secs.len()
        invariant
            i <= secs@.len(),
            forall|k: int| 0 <= k < i ==> secs.deep_view()[k] != x@,
        decreases secs@.len() - i,
    {
        if str_eq(&secs[i], x) {
            assert(secs.deep_view()[i as int] == x@);
            return true;
        }
        i = i + 1;
    }
    false
}

fn card_in_section(cards: &Vec<Card>, sec: &String) -> (r: bool)
    ensures
        r == exists|k: int| 0 <= k < cards@.len() && card_views(cards@)[k].section == sec@,
{
    let mut i: usize = 0;
    while i < cards.len()
        invariant
            i <= cards@.len(),
            forall|k: int| 0 <= k < i ==> card_views(cards@)[k].section != sec@,
        decreases cards@.len() - i,
    {
        if str_eq(&cards[i].section, sec) {
            assert(card_views(cards@)[i as int].section == sec@);
            return true;
        }
        i = i + 1;
    }
    false
}

fn section_list(v: &JsonValue, cards: &Vec<Card>) -> (r: Vec<String>)
    ensures
        r.deep_view() == section_order(*v, card_views(cards@)),
{
    let ghost cs = card_views(cards@);
    // What the editor asked for.
    let mut listed: Vec<String> = Vec::new();
    let empty: Vec<JsonValue> = Vec::new();
    let arr: &Vec<JsonValue> = match v.get("sections") {
        Some(x) => match x.as_array() {
            Some(a) => a,
            None => &empty,
        },
        None => &empty,
    };
    let mut i: usize = 0;
    while i < arr.len()
        invariant
            i <= arr@.len(),
            listed.deep_view() == listed_sections(arr@.take(i as int)),
        decreases arr@.len() - i,
    {
        assert(arr@.take(i + 1).drop_last() =~= arr@.take(i as int));
        assert(arr@.take(i + 1).last() == arr@[i as int]);
        match arr[i].as_str() {
            Some(x) => {
                let t = crate::text::str_trim(x);
                if !t.as_str().is_empty() {
                    let ghost before = listed.deep_view();
                    listed.push(t);
                    assert(listed.deep_view() =~= before.push(trim(x@)));
                }
            },
            None => {},
        }
        i = i + 1;
    }
    assert(arr@.take(arr@.len() as int) =~= arr@);
    let ghost listed_v = listed.deep_view();
    // Then anything it forgot.
    let mut secs = listed;
    let mut k: usize = 0;
    while k < cards.len()
        invariant
            k <= cards@.len(),
            cs == card_views(cards@),
            secs.deep_view() == with_missing(listed_v, cs.take(k as int)),
        decreases cards@.len() - k,
    {
        assert(cs.take(k + 1).drop_last() =~= cs.take(k as int));
        assert(cs.take(k + 1).last() == cards@[k as int]@);
        if !has_text_exec(&secs, &cards[k].section) {
            let ghost before = secs.deep_view();
            secs.push(owned(&cards[k].section));
            assert(secs.deep_view() =~= before.push(cards@[k as int].section@));
        }
        k = k + 1;
    }
    assert(cs.take(cards@.len() as int) =~= cs);
    let ghost all_v = secs.deep_view();
    // Only sections that hold a card.
    let mut used: Vec<String> = Vec::new();
    let mut j: usize = 0;
    while j < secs.len()
        invariant
            j <= secs@.len(),
            cs == card_views(cards@),
            all_v == secs.deep_view(),
            used.deep_view() == used_sections(all_v.take(j as int), cs),
        decreases secs@.len() - j,
    {
        assert(all_v.take(j + 1).drop_last() =~= all_v.take(j as int));
        assert(all_v.take(j + 1).last() == secs@[j as int]@);
        if card_in_section(cards, &secs[j]) {
            let ghost before = used.deep_view();
            used.push(owned(&secs[j]));
            assert(used.deep_view() =~= before.push(secs@[j as int]@));
        }
        j = j + 1;
    }
    assert(all_v.take(secs@.len() as int) =~= all_v);
    let ghost used_v = used.deep_view();
    // "Front Page" first.
    let mut m: usize = 0;
    while m < used.len() && !str_eq(&used[m], "Front Page")
        invariant
            m <= used@.len(),
            used_v == used.deep_view(),
            position_of(used_v, "Front Page"@, 0) == position_of(used_v, "Front Page"@, m as int),
        decreases used@.len() - m,
    {
        m = m + 1;
    }
    if m < used.len() {
        let fp = used.remove(m);
        used.insert(0, fp);
        assert(used.deep_view() =~= seq!["Front Page"@] + used_v.remove(m as int));
    }
    used
}

/// Lenient: one malformed card is dropped, not fatal. Returns the tagline
/// (at most 90 characters), the section order and the cards.
pub fn cards_from_json(v: &JsonValue) -> (r: (Option<String>, Vec<String>, Vec<Card>))
    ensures
        r.0.deep_view() == map_truncate(card_field(*v, "tagline"@), 90),
        card_views(r.2@) == edition_cards(*v),
        r.1.deep_view() == section_order(*v, edition_cards(*v)),
{
    let tagline = match card_field_exec(v, "tagline") {
        Some(t) => Some(truncate(&t, 90)),
        None => None,
    };
    let empty: Vec<JsonValue> = Vec::new();
    let arr: &Vec<JsonValue> = match v.get("cards") {
        Some(c) => match c.as_array() {
            Some(a) => a,
            None => &empty,
        },
        None => &empty,
    };
    let ghost av = arr@;
    assert(av == match array_of(json_get(*v, "cards"@)) {
        Some(a) => a,
        None => Seq::<JsonValue>::empty(),
    });
    let mut cards: Vec<Card> = Vec::new();
    let mut n: usize = 0;
    while n < arr.len()
        invariant
            n <= arr@.len(),
            av == arr@,
            card_views(cards@) == accepted(av.take(n as int)),
        decreases arr@.len() - n,
    {
        assert(av.take(n + 1).drop_last() =~= av.take(n as int));
        assert(av.take(n + 1).last() == av[n as int]);
        match build_card(&arr[n], n) {
            Some(card) => {
                if !has_url_exec(&cards, &card.url) {
                    let ghost before = cards@;
                    cards.push(card);
                    assert(card_views(cards@) =~= card_views(before).push(card@));
                }
            },
            None => {},
        }
        n = n + 1;
    }
    assert(av.take(arr@.len() as int) =~= av);
    let ghost raw = card_views(cards@);
    // Exactly one lead: keep the first, demote extras; promote if none.
    let mut fixed: Vec<Card> = Vec::new();
    let mut lead_seen = false;
    let mut i: usize = 0;
    while i < cards.len()
        invariant
            i <= cards@.len(),
            raw == card_views(cards@),
            lead_seen == lead_before(raw, i as int),
            card_views(fixed@) == demoted(raw).take(i as int),
        decreases cards@.len() - i,
    {
        let mut c = cards[i].copy();
        let ghost orig = raw[i as int];
        assert(c@ == orig);
        let was_lead = str_eq(&c.size, "lead");
        if was_lead {
            if lead_seen {
                c.size = owned("feature");
            }
            lead_seen = true;
        }
        proof {
            assert(demoted(raw)[i as int] == c@);
            if lead_before(raw, i as int) {
                let j = choose|j: int| 0 <= j < i && raw[j].size == "lead"@;
                assert(lead_before(raw, i + 1));
            } else if orig.size == "lead"@ {
                assert(lead_before(raw, i + 1));
            } else {
                assert forall|j: int| 0 <= j < i + 1 implies raw[j].size != "lead"@ by {
                    if j < i {
                        assert(!(0 <= j < i && raw[j].size == "lead"@));
                    }
                }
            }
        }
        let ghost before = card_views(fixed@);
        fixed.push(c);
        assert(card_views(fixed@) =~= before.push(c@));
        assert(card_views(fixed@) =~= demoted(raw).take(i + 1));
        i = i + 1;
    }
    assert(demoted(raw).take(cards@.len() as int) =~= demoted(raw));
    if !lead_seen {
        assert(demoted(raw) =~= raw);
        let mut k: usize = 0;
        while k < fixed.len() && !str_eq(&fixed[k].size, "feature")
            invariant
                k <= fixed@.len(),
                card_views(fixed@) == raw,
                first_of_size(raw, "feature"@, 0) == first_of_size(raw, "feature"@, k as int),
            decreases fixed@.len() - k,
        {
            k = k + 1;
        }
        let p: Option<usize> = if k < fixed.len() {
            Some(k)
        } else {
            None
        };
        assert(p matches Some(x) ==> first_of_size(raw, "feature"@, 0) == Some(x as int));
        assert(p is None ==> first_of_size(raw, "feature"@, 0) is None);
        let pick = match p {
            Some(i) => Some(i),
            None => if fixed.len() > 0 {
                Some(0usize)
            } else {
                None
            },
        };
        match pick {
            Some(i) => {
                let mut c = fixed[i].copy();
                c.size = owned("lead");
                c.section = owned("Front Page");
                let ghost before = card_views(fixed@);
                fixed.set(i, c);
                assert(card_views(fixed@) =~= before.update(i as int, c@));
                assert(card_views(fixed@) =~= lead_fixed(raw));
            },
            None => {},
        }
    }
    let ghost final_cards = card_views(fixed@);
    assert(final_cards == edition_cards(*v));
    let sections = section_list(v, &fixed);
    (tagline, sections, fixed)
}

} // verus!
