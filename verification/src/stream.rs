//! Reading the editor CLI's event stream. The CLI prints one JSON event per
//! line; the library keeps a running account of the run (searches, pages,
//! the text it wrote, the final result) and says which status lines to show.
//! The caller reads the lines and shows the notes; the decisions are here.

use vstd::prelude::*;

use crate::json::{
    array_of, bool_of, deref_opt, get_in, get_opt, json_get, parse_json, spec_parse_json, str_of,
    JsonValue,
};
use crate::editor::{
    card_field, cards_from_json, edition_cards, edition_in_bounds, edition_in_bounds_exec, edition_ok,
    explain_failure, extract_edition, map_truncate, object_in_reply, repair_from, salvaged_cards,
    section_order, spec_explain_failure,
};
use crate::model::{card_views, Card, CardView};
use crate::text::{contains, decimal, decimal_u64, owned, str_concat, str_contains, str_eq, str_trim, trim};
use crate::model::Settings;
use crate::wire::{host_label, spec_host_label, spec_truncate, truncate};

verus! {

pub const AT_DESK: &'static str = "The editor's at the desk";

pub const RESEARCHING: &'static str = "The editor's researching";

pub const READING: &'static str = "The editor's reading";

pub const BUILDING: &'static str = "Building new Daily brief";

/// A status line for the progress display: stage, message and an optional
/// detail.
pub struct StatusNote {
    pub stage: String,
    pub message: String,
    pub detail: Option<String>,
}

pub open spec fn note_view(n: StatusNote) -> (Seq<char>, Seq<char>, Option<Seq<char>>) {
    (n.stage@, n.message@, n.detail.deep_view())
}

pub open spec fn note_views(ns: Seq<StatusNote>) -> Seq<(Seq<char>, Seq<char>, Option<Seq<char>>)> {
    ns.map_values(|n: StatusNote| note_view(n))
}

pub open spec fn note(stage: Seq<char>, message: Seq<char>, detail: Option<Seq<char>>) -> Seq<
    (Seq<char>, Seq<char>, Option<Seq<char>>),
> {
    seq![(stage, message, detail)]
}

fn make_note(stage: &str, message: &str, detail: Option<String>) -> (r: StatusNote)
    ensures
        note_view(r) == (stage@, message@, detail.deep_view()),
{
    StatusNote { stage: owned(stage), message: owned(message), detail }
}

/// The running account of one run of the editor.
pub struct StreamState {
    /// The session the CLI reported first.
    pub session_id: Option<String>,
    pub searches: u32,
    pub pages_read: u32,
    /// The final result's text, when the run ended well.
    pub result_text: Option<String>,
    /// The final result's error, when it did not.
    pub result_error: Option<String>,
    /// The last non-blank text the model wrote.
    pub last_text: String,
    /// Every text it wrote, and every tool argument that held an edition, in
    /// order.
    pub texts: Vec<String>,
    /// "Building new Daily brief" has been shown.
    pub announced_writing: bool,
    /// The result event has arrived: read no further.
    pub finished: bool,
}

pub struct StreamView {
    pub session_id: Option<Seq<char>>,
    pub searches: u32,
    pub pages_read: u32,
    pub result_text: Option<Seq<char>>,
    pub result_error: Option<Seq<char>>,
    pub last_text: Seq<char>,
    pub texts: Seq<Seq<char>>,
    pub announced_writing: bool,
    pub finished: bool,
}

impl View for StreamState {
    type V = StreamView;

    open spec fn view(&self) -> StreamView {
        StreamView {
            session_id: self.session_id.deep_view(),
            searches: self.searches,
            pages_read: self.pages_read,
            result_text: self.result_text.deep_view(),
            result_error: self.result_error.deep_view(),
            last_text: self.last_text@,
            texts: self.texts.deep_view(),
            announced_writing: self.announced_writing,
            finished: self.finished,
        }
    }
}

pub type Notes = Seq<(Seq<char>, Seq<char>, Option<Seq<char>>)>;

/// One more, wrapping to 0 at `u32::MAX`.
pub open spec fn bump(n: u32) -> u32 {
    if n == u32::MAX {
        0
    } else {
        (n + 1) as u32
    }
}

fn bump_exec(n: u32) -> (r: u32)
    ensures
        r == bump(n),
{
    if n == u32::MAX {
        0
    } else {
        n + 1
    }
}

pub open spec fn or_empty(s: Option<Seq<char>>) -> Seq<char> {
    match s {
        Some(x) => x,
        None => Seq::empty(),
    }
}

/// The string members of a tool's input that hold an edition (`"cards"`), in
/// order: an edition handed to a tool is still an edition.
pub open spec fn card_strings(pairs: Seq<(String, JsonValue)>) -> Seq<Seq<char>>
    decreases pairs.len(),
{
    if pairs.len() == 0 {
        Seq::empty()
    } else {
        let rest = card_strings(pairs.drop_last());
        match pairs.last().1 {
            JsonValue::Str(s) => if contains(s@, "\"cards\""@) {
                rest.push(s@)
            } else {
                rest
            },
            _ => rest,
        }
    }
}

pub open spec fn input_card_strings(input: Option<JsonValue>) -> Seq<Seq<char>> {
    match input {
        Some(JsonValue::Object(pairs)) => card_strings(pairs@),
        _ => Seq::empty(),
    }
}

/// One content block of an assistant message. A tool call may carry an
/// edition; a web search or fetch counts and says what it looks at. A text
/// block that is not blank is kept, and the first that holds `"cards"`
/// announces the writing.
pub open spec fn block_step(st: StreamView, b: JsonValue) -> (StreamView, Notes) {
    let ty = or_empty(str_of(json_get(b, "type"@)));
    if ty == "tool_use"@ {
        let name = or_empty(str_of(json_get(b, "name"@)));
        let input = json_get(b, "input"@);
        let st1 = StreamView { texts: st.texts + input_card_strings(input), ..st };
        if name == "WebSearch"@ {
            (
                StreamView { searches: bump(st.searches), ..st1 },
                note(
                    "research"@,
                    RESEARCHING@,
                    Some(spec_truncate(or_empty(str_of(get_opt(input, "query"@))), 90)),
                ),
            )
        } else if name == "WebFetch"@ {
            (
                StreamView { pages_read: bump(st.pages_read), ..st1 },
                note("research"@, READING@, Some(spec_host_label(or_empty(str_of(get_opt(input, "url"@)))))),
            )
        } else {
            (st1, Seq::empty())
        }
    } else if ty == "text"@ {
        match str_of(json_get(b, "text"@)) {
            Some(t) => if trim(t).len() > 0 {
                let st1 = StreamView { last_text: t, texts: st.texts.push(t), ..st };
                if !st.announced_writing && contains(t, "\"cards\""@) {
                    (StreamView { announced_writing: true, ..st1 }, note("writing"@, BUILDING@, None))
                } else {
                    (st1, Seq::empty())
                }
            } else {
                (st, Seq::empty())
            },
            None => (st, Seq::empty()),
        }
    } else {
        (st, Seq::empty())
    }
}

/// The blocks of one message, first to last.
pub open spec fn blocks_step(st: StreamView, blocks: Seq<JsonValue>) -> (StreamView, Notes)
    decreases blocks.len(),
{
    if blocks.len() == 0 {
        (st, Seq::empty())
    } else {
        let (s1, n1) = blocks_step(st, blocks.drop_last());
        let (s2, n2) = block_step(s1, blocks.last());
        (s2, n1 + n2)
    }
}

/// One line of the stream. A line that is not JSON changes nothing. The
/// first session id seen is kept. Assistant messages are read block by
/// block; the first text delta after some research announces the writing;
/// the result event ends the run, with its text or its error (the subtype
/// when the error has no text).
pub open spec fn event_step(st: StreamView, ev: Option<JsonValue>) -> (StreamView, Notes) {
    match ev {
        None => (st, Seq::empty()),
        Some(e) => {
            let st0 = if st.session_id is None {
                StreamView { session_id: str_of(json_get(e, "session_id"@)), ..st }
            } else {
                st
            };
            let ty = or_empty(str_of(json_get(e, "type"@)));
            if ty == "assistant"@ {
                let blocks = match array_of(get_opt(json_get(e, "message"@), "content"@)) {
                    Some(b) => b,
                    None => Seq::empty(),
                };
                blocks_step(st0, blocks)
            } else if ty == "stream_event"@ {
                let delta = str_of(get_opt(get_opt(json_get(e, "event"@), "delta"@), "type"@));
                if delta == Some("text_delta"@) && !st0.announced_writing && (st0.searches > 0
                    || st0.pages_read > 0) {
                    (
                        StreamView { announced_writing: true, ..st0 },
                        note("writing"@, BUILDING@, Some("Writing the stories"@)),
                    )
                } else {
                    (st0, Seq::empty())
                }
            } else if ty == "result"@ {
                let text = or_empty(str_of(json_get(e, "result"@)));
                let is_error = match bool_of(json_get(e, "is_error"@)) {
                    Some(b) => b,
                    None => false,
                };
                if is_error {
                    let err = if text.len() == 0 {
                        match str_of(json_get(e, "subtype"@)) {
                            Some(s) => s,
                            None => "error"@,
                        }
                    } else {
                        text
                    };
                    (StreamView { result_error: Some(err), finished: true, ..st0 }, Seq::empty())
                } else {
                    (StreamView { result_text: Some(text), finished: true, ..st0 }, Seq::empty())
                }
            } else {
                (st0, Seq::empty())
            }
        },
    }
}

/// The text of a string member, when `v` has one.
fn str_member(v: Option<&JsonValue>, key: &str) -> (r: Option<String>)
    ensures
        r.deep_view() == str_of(get_opt(deref_opt(v), key@)),
{
    match get_in(v, key) {
        Some(x) => match x.as_str() {
            Some(s) => Some(owned(s.as_str())),
            None => None,
        },
        None => None,
    }
}

fn text_or_empty(s: Option<String>) -> (r: String)
    ensures
        r@ == or_empty(s.deep_view()),
{
    match s {
        Some(x) => x,
        None => String::new(),
    }
}

proof fn lemma_note_views_push(ns: Seq<StatusNote>, n: StatusNote)
    ensures
        note_views(ns.push(n)) == note_views(ns) + seq![note_view(n)],
{
    assert(note_views(ns.push(n)) =~= note_views(ns) + seq![note_view(n)]);
}

impl StreamState {
    /// A run that has not started, and the note that opens it.
    pub fn new() -> (r: (StreamState, StatusNote))
        ensures
            r.0@ == (StreamView {
                session_id: None,
                searches: 0,
                pages_read: 0,
                result_text: None,
                result_error: None,
                last_text: Seq::empty(),
                texts: Seq::empty(),
                announced_writing: false,
                finished: false,
            }),
            note_view(r.1) == ("research"@, AT_DESK@, Some("Reading the wire copy"@)),
    {
        let st = StreamState {
            session_id: None,
            searches: 0,
            pages_read: 0,
            result_text: None,
            result_error: None,
            last_text: String::new(),
            texts: Vec::new(),
            announced_writing: false,
            finished: false,
        };
        assert(st.texts.deep_view() =~= Seq::<Seq<char>>::empty());
        (st, make_note("research", AT_DESK, Some(owned("Reading the wire copy"))))
    }

    fn push_card_strings(&mut self, input: Option<&JsonValue>)
        ensures
            final(self)@ == (StreamView { texts: old(self)@.texts + input_card_strings(deref_opt(input)), ..old(self)@ }),
    {
        let pairs = match input {
            Some(JsonValue::Object(p)) => p,
            _ => {
                assert(old(self)@.texts =~= old(self)@.texts + Seq::<Seq<char>>::empty());
                return;
            },
        };
        let ghost start = self@;
        let mut j: usize = 0;
        assert(pairs@.take(0) =~= Seq::<(String, JsonValue)>::empty());
        assert(start.texts =~= start.texts + card_strings(pairs@.take(0)));
        while j < pairs.len()
            invariant
                j <= pairs.len(),
                self@ == (StreamView { texts: start.texts + card_strings(pairs@.take(j as int)), ..start }),
            decreases pairs.len() - j,
        {
            assert(pairs@.take(j + 1).drop_last() =~= pairs@.take(j as int));
            assert(pairs@.take(j + 1).last() == pairs@[j as int]);
            match &pairs[j].1 {
                JsonValue::Str(s) => {
                    if str_contains(s.as_str(), "\"cards\"") {
                        let ghost before = self.texts.deep_view();
                        self.texts.push(owned(s.as_str()));
                        assert(self.texts.deep_view() =~= before.push(s@));
                        assert(start.texts + card_strings(pairs@.take(j + 1)) =~= (start.texts + card_strings(
                            pairs@.take(j as int),
                        )).push(s@));
                    }
                },
                _ => {},
            }
            j = j + 1;
        }
        assert(pairs@.take(j as int) =~= pairs@);
    }

    fn read_block(&mut self, b: &JsonValue, notes: &mut Vec<StatusNote>)
        ensures
            final(self)@ == block_step(old(self)@, *b).0,
            note_views(final(notes)@) == note_views(old(notes)@) + block_step(old(self)@, *b).1,
    {
        let ghost st = self@;
        let ghost before = note_views(notes@);
        let ty = text_or_empty(str_member(Some(b), "type"));
        if str_eq(ty.as_str(), "tool_use") {
            let name = text_or_empty(str_member(Some(b), "name"));
            let input = b.get("input");
            self.push_card_strings(input);
            if str_eq(name.as_str(), "WebSearch") {
                self.searches = bump_exec(self.searches);
                let q = text_or_empty(str_member(input, "query"));
                let n = make_note("research", RESEARCHING, Some(truncate(q.as_str(), 90)));
                proof {
                    lemma_note_views_push(notes@, n);
                }
                notes.push(n);
            } else if str_eq(name.as_str(), "WebFetch") {
                self.pages_read = bump_exec(self.pages_read);
                let u = text_or_empty(str_member(input, "url"));
                let n = make_note("research", READING, Some(host_label(u.as_str())));
                proof {
                    lemma_note_views_push(notes@, n);
                }
                notes.push(n);
            } else {
                assert(note_views(notes@) =~= before + Seq::empty());
            }
        } else if str_eq(ty.as_str(), "text") {
            match b.get("text") {
                Some(x) => match x.as_str() {
                    Some(t) => {
                        let tt = str_trim(t.as_str());
                        if !tt.as_str().is_empty() {
                            self.last_text = owned(t.as_str());
                            let ghost texts_before = self.texts.deep_view();
                            self.texts.push(owned(t.as_str()));
                            assert(self.texts.deep_view() =~= texts_before.push(t@));
                            if !self.announced_writing && str_contains(t.as_str(), "\"cards\"") {
                                self.announced_writing = true;
                                let n = make_note("writing", BUILDING, None);
                                proof {
                                    lemma_note_views_push(notes@, n);
                                }
                                notes.push(n);
                            } else {
                                assert(note_views(notes@) =~= before + Seq::empty());
                            }
                        } else {
                            assert(note_views(notes@) =~= before + Seq::empty());
                        }
                    },
                    None => {
                        assert(note_views(notes@) =~= before + Seq::empty());
                    },
                },
                None => {
                    assert(note_views(notes@) =~= before + Seq::empty());
                },
            }
        } else {
            assert(note_views(notes@) =~= before + Seq::empty());
        }
    }

    /// Takes in one line of the stream and gives back the notes to show.
    pub fn read_line(&mut self, line: &str) -> (notes: Vec<StatusNote>)
        ensures
            final(self)@ == event_step(old(self)@, spec_parse_json(line@)).0,
            note_views(notes@) == event_step(old(self)@, spec_parse_json(line@)).1,
    {
        let mut notes: Vec<StatusNote> = Vec::new();
        assert(note_views(notes@) =~= Seq::empty());
        let ev = parse_json(line);
        let e = match ev {
            Some(e) => e,
            None => {
                return notes;
            },
        };
        if self.session_id.is_none() {
            self.session_id = str_member(Some(&e), "session_id");
        }
        let ghost st0 = self@;
        let ty = text_or_empty(str_member(Some(&e), "type"));
        if str_eq(ty.as_str(), "assistant") {
            let content = get_in(e.get("message"), "content");
            let empty: Vec<JsonValue> = Vec::new();
            let blocks: &Vec<JsonValue> = match content {
                Some(c) => match c.as_array() {
                    Some(a) => a,
                    None => &empty,
                },
                None => &empty,
            };
            let mut i: usize = 0;
            assert(blocks@.take(0) =~= Seq::<JsonValue>::empty());
            while i < blocks.len()
                invariant
                    i <= blocks.len(),
                    (self@, note_views(notes@)) == blocks_step(st0, blocks@.take(i as int)),
                decreases blocks.len() - i,
            {
                assert(blocks@.take(i + 1).drop_last() =~= blocks@.take(i as int));
                assert(blocks@.take(i + 1).last() == blocks@[i as int]);
                self.read_block(&blocks[i], &mut notes);
                i = i + 1;
            }
            assert(blocks@.take(i as int) =~= blocks@);
        } else if str_eq(ty.as_str(), "stream_event") {
            let delta = str_member(get_in(e.get("event"), "delta"), "type");
            let is_delta = match &delta {
                Some(d) => str_eq(d.as_str(), "text_delta"),
                None => false,
            };
            if is_delta && !self.announced_writing && (self.searches > 0 || self.pages_read > 0) {
                self.announced_writing = true;
                let n = make_note("writing", BUILDING, Some(owned("Writing the stories")));
                proof {
                    lemma_note_views_push(notes@, n);
                }
                notes.push(n);
                assert(note_views(notes@) =~= note("writing"@, BUILDING@, Some("Writing the stories"@)));
            }
        } else if str_eq(ty.as_str(), "result") {
            let text = text_or_empty(str_member(Some(&e), "result"));
            let is_error = match e.get("is_error") {
                Some(x) => match x.as_bool() {
                    Some(b) => b,
                    None => false,
                },
                None => false,
            };
            if is_error {
                let err = if text.as_str().is_empty() {
                    match str_member(Some(&e), "subtype") {
                        Some(s) => s,
                        None => owned("error"),
                    }
                } else {
                    text
                };
                self.result_error = Some(err);
            } else {
                self.result_text = Some(text);
            }
            self.finished = true;
        }
        notes
    }
}

// ------------------------------------------------------------------ the end

/// What a finished run gives the caller: the cards and how the run went.
pub struct EditorOutput {
    pub session_id: Option<String>,
    pub tagline: Option<String>,
    pub sections: Vec<String>,
    pub cards: Vec<Card>,
    pub searches: u32,
    pub pages_read: u32,
}

pub const NO_CARDS: &'static str = "The editor returned an edition with no usable cards.";

/// The reply to read: the final result when it is not blank, else the last
/// text the model wrote when that is not blank.
pub open spec fn chosen_text(st: StreamView) -> Option<Seq<char>> {
    match st.result_text {
        Some(t) if trim(t).len() > 0 => Some(t),
        _ => if trim(st.last_text).len() > 0 {
            Some(st.last_text)
        } else {
            None
        },
    }
}

/// `extract_edition` can take the text and finds an edition in it.
pub open spec fn usable(t: Seq<char>) -> bool {
    &&& edition_in_bounds(t)
    &&& (object_in_reply(t, true) is Some || salvaged_cards(repair_from(t, 0, false)).len() > 0)
}

/// The newest usable text among `texts`.
pub open spec fn last_usable(texts: Seq<Seq<char>>) -> Option<Seq<char>>
    decreases texts.len(),
{
    if texts.len() == 0 {
        None
    } else if usable(texts.last()) {
        Some(texts.last())
    } else {
        last_usable(texts.drop_last())
    }
}

/// The reply itself first, then everything written before it, newest first:
/// the first that holds an edition.
pub open spec fn pick_candidate(text: Seq<char>, texts: Seq<Seq<char>>) -> Option<Seq<char>> {
    if usable(text) {
        Some(text)
    } else {
        last_usable(texts)
    }
}

pub open spec fn exit_message(code: Seq<char>) -> Seq<char> {
    "The editor exited (code "@ + code + ") without an edition."@
}

pub open spec fn unparsed_message(text: Seq<char>) -> Seq<char> {
    "The editor replied, but not with an edition I could parse. It started: \""@ + spec_truncate(trim(text), 160)
        + "\""@
}

/// The output made from edition `v` at the end of the run `st`.
pub open spec fn output_from(o: EditorOutput, st: StreamView, v: JsonValue) -> bool {
    &&& o.session_id.deep_view() == st.session_id
    &&& o.tagline.deep_view() == map_truncate(card_field(v, "tagline"@), 90)
    &&& o.sections.deep_view() == section_order(v, edition_cards(v))
    &&& card_views(o.cards@) == edition_cards(v)
    &&& o.searches == st.searches
    &&& o.pages_read == st.pages_read
}

/// How a run ends. An error result is explained; with no reply at all, the
/// exit code is. Otherwise "Building new Daily brief" is shown if it was not
/// yet, and the first candidate that holds an edition is read: its cards, or
/// an error when it has none; when no candidate holds one, an error quoting
/// the start of the reply.
pub open spec fn finish_ok(
    st: StreamView,
    code: Seq<char>,
    tail: Seq<char>,
    notes: Notes,
    r: Result<EditorOutput, String>,
) -> bool {
    match st.result_error {
        Some(e) => notes.len() == 0 && (r matches Err(m) && m@ == spec_explain_failure(e, tail)),
        None => match chosen_text(st) {
            None => notes.len() == 0 && (r matches Err(m) && m@ == spec_explain_failure(exit_message(code), tail)),
            Some(text) => {
                &&& notes == (if st.announced_writing {
                    Seq::empty()
                } else {
                    note("writing"@, BUILDING@, None)
                })
                &&& match pick_candidate(text, st.texts) {
                    None => r matches Err(m) && m@ == unparsed_message(text),
                    Some(c) => exists|v: JsonValue|
                        edition_ok(c, Some(v)) && (if edition_cards(v).len() == 0 {
                            r matches Err(m) && m@ == NO_CARDS@
                        } else {
                            r matches Ok(o) && output_from(o, st, v)
                        }),
                }
            },
        },
    }
}

/// Reads the edition out of one candidate, when it can take it and has one.
fn try_candidate(t: &str) -> (r: Option<JsonValue>)
    ensures
        r is Some <==> usable(t@),
        r matches Some(v) ==> edition_ok(t@, Some(v)),
{
    if edition_in_bounds_exec(t) {
        extract_edition(t)
    } else {
        None
    }
}

impl StreamState {
    /// The end of a run: `exit_code` is how the process ended ("1",
    /// "signal", "unknown") and `stderr_tail` the last lines of its error
    /// output.
    pub fn finish(self, exit_code: &str, stderr_tail: &str) -> (r: (Vec<StatusNote>, Result<EditorOutput, String>))
        ensures
            finish_ok(self@, exit_code@, stderr_tail@, note_views(r.0@), r.1),
    {
        let mut notes: Vec<StatusNote> = Vec::new();
        assert(note_views(notes@) =~= Seq::empty());
        let ghost st = self@;
        match &self.result_error {
            Some(e) => {
                return (notes, Err(explain_failure(e.as_str(), stderr_tail)));
            },
            None => {},
        }
        let from_result = match &self.result_text {
            Some(t) => !str_trim(t.as_str()).as_str().is_empty(),
            None => false,
        };
        let text: &String = if from_result {
            match &self.result_text {
                Some(t) => t,
                None => &self.last_text,
            }
        } else if !str_trim(self.last_text.as_str()).as_str().is_empty() {
            &self.last_text
        } else {
            let m = str_concat("The editor exited (code ", exit_code);
            let m = str_concat(m.as_str(), ") without an edition.");
            return (notes, Err(explain_failure(m.as_str(), stderr_tail)));
        };
        assert(chosen_text(st) == Some(text@));
        if !self.announced_writing {
            let n = make_note("writing", BUILDING, None);
            proof {
                lemma_note_views_push(notes@, n);
            }
            notes.push(n);
        }
        let mut found = try_candidate(text.as_str());
        let ghost mut cand: Seq<char> = text@;
        if found.is_none() {
            let mut k: usize = self.texts.len();
            assert(st.texts.take(k as int) =~= st.texts);
            while k > 0 && found.is_none()
                invariant
                    k <= self.texts.len(),
                    self.texts.deep_view() == st.texts,
                    found is None ==> !usable(text@) && last_usable(st.texts) == last_usable(st.texts.take(
                        k as int,
                    )),
                    found matches Some(v) ==> !usable(text@) && last_usable(st.texts) == Some(cand)
                        && edition_ok(cand, Some(v)),
                decreases k,
            {
                let ghost tk = st.texts.take(k as int);
                assert(tk.last() == st.texts[k - 1]);
                assert(tk.drop_last() =~= st.texts.take(k - 1));
                found = try_candidate(self.texts[k - 1].as_str());
                proof {
                    cand = st.texts[k - 1];
                }
                k = k - 1;
            }
            if found.is_none() {
                assert(st.texts.take(k as int) =~= Seq::<Seq<char>>::empty());
            } else {
                assert(st.texts.take(st.texts.len() as int) =~= st.texts);
            }
        }
        let v = match found {
            Some(v) => v,
            None => {
                let t = truncate(str_trim(text.as_str()).as_str(), 160);
                let m = str_concat("The editor replied, but not with an edition I could parse. It started: \"", t.as_str());
                let m = str_concat(m.as_str(), "\"");
                return (notes, Err(m));
            },
        };
        assert(pick_candidate(text@, st.texts) == Some(cand));
        let (tagline, sections, cards) = cards_from_json(&v);
        if cards.len() == 0 {
            assert(edition_ok(cand, Some(v)));
            return (notes, Err(owned(NO_CARDS)));
        }
        let out = EditorOutput {
            session_id: self.session_id,
            tagline,
            sections,
            cards,
            searches: self.searches,
            pages_read: self.pages_read,
        };
        assert(output_from(out, st, v));
        (notes, Ok(out))
    }
}

// ------------------------------------------------------------ the command

/// `--model`: "sonnet" when the setting is blank, nothing for "default"
/// (whatever the CLI is set to), else the setting.
pub open spec fn model_args(model: Seq<char>) -> Seq<Seq<char>> {
    let m = trim(model);
    if m.len() == 0 {
        seq!["--model"@, "sonnet"@]
    } else if m == "default"@ {
        Seq::empty()
    } else {
        seq!["--model"@, m]
    }
}

/// The arguments of a run. The nice-to-have flags (partial messages, the
/// tool denylist, no MCP servers, a turn cap, the effort) are left out of a
/// `minimal` run for CLIs too old to know them.
pub open spec fn editor_args(effort: Seq<char>, model: Seq<char>, minimal: bool) -> Seq<Seq<char>> {
    let base = seq![
        "-p"@,
        "--output-format"@,
        "stream-json"@,
        "--verbose"@,
        "--allowedTools"@,
        "WebSearch,WebFetch"@,
    ];
    let e = trim(effort);
    let extra = if minimal {
        Seq::empty()
    } else {
        seq![
            "--include-partial-messages"@,
            "--disallowedTools"@,
            "Bash,Edit,Write,NotebookEdit"@,
            "--strict-mcp-config"@,
            "--max-turns"@,
            "60"@,
        ] + if e.len() > 0 && e != "default"@ {
            seq!["--effort"@, e]
        } else {
            Seq::empty()
        }
    };
    base + extra + model_args(model)
}

pub fn push_arg(args: &mut Vec<String>, a: &str)
    ensures
        final(args).deep_view() == old(args).deep_view().push(a@),
{
    let ghost before = args.deep_view();
    args.push(owned(a));
    assert(args.deep_view() =~= before.push(a@));
}

pub fn push_model_args(args: &mut Vec<String>, model: &str)
    ensures
        final(args).deep_view() == old(args).deep_view() + model_args(model@),
{
    let m = str_trim(model);
    let ghost before = args.deep_view();
    if m.as_str().is_empty() {
        push_arg(args, "--model");
        push_arg(args, "sonnet");
        assert(args.deep_view() =~= before + model_args(model@));
    } else if str_eq(m.as_str(), "default") {
        assert(args.deep_view() =~= before + model_args(model@));
    } else {
        push_arg(args, "--model");
        push_arg(args, m.as_str());
        assert(args.deep_view() =~= before + model_args(model@));
    }
}

/// The command-line arguments for a run of the editor with these settings.
pub fn editor_args_exec(settings: &Settings, minimal: bool) -> (r: Vec<String>)
    ensures
        r.deep_view() == editor_args(settings.claude_effort@, settings.claude_model@, minimal),
{
    let mut args: Vec<String> = Vec::new();
    push_arg(&mut args, "-p");
    push_arg(&mut args, "--output-format");
    push_arg(&mut args, "stream-json");
    push_arg(&mut args, "--verbose");
    push_arg(&mut args, "--allowedTools");
    push_arg(&mut args, "WebSearch,WebFetch");
    if !minimal {
        push_arg(&mut args, "--include-partial-messages");
        push_arg(&mut args, "--disallowedTools");
        push_arg(&mut args, "Bash,Edit,Write,NotebookEdit");
        push_arg(&mut args, "--strict-mcp-config");
        push_arg(&mut args, "--max-turns");
        push_arg(&mut args, "60");
        let e = str_trim(settings.claude_effort.as_str());
        if !e.as_str().is_empty() && !str_eq(e.as_str(), "default") {
            push_arg(&mut args, "--effort");
            push_arg(&mut args, e.as_str());
        }
    }
    push_model_args(&mut args, settings.claude_model.as_str());
    assert(args.deep_view() =~= editor_args(settings.claude_effort@, settings.claude_model@, minimal));
    args
}

/// The note shown when the CLI turns down the full set of flags and the run
/// starts over with the basic ones.
pub fn retry_note() -> (r: StatusNote)
    ensures
        note_view(r) == ("research"@, AT_DESK@, Some("Older CLI - retrying with basic options"@)),
{
    make_note("research", AT_DESK, Some(owned("Older CLI - retrying with basic options")))
}

/// The error when the run outlasts its time limit of `secs` seconds.
pub fn timeout_message(secs: u64) -> (r: String)
    ensures
        r@ == "The editor ran past the "@ + decimal(secs as nat)
            + "-second limit. Try Refresh again, or raise claudeTimeoutSecs in settings.json."@,
{
    let n = decimal_u64(secs);
    let m = str_concat("The editor ran past the ", n.as_str());
    str_concat(m.as_str(), "-second limit. Try Refresh again, or raise claudeTimeoutSecs in settings.json.")
}

} // verus!
