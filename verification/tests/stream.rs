use my_daily_newspaper::model::Settings;
use my_daily_newspaper::stream::{editor_args_exec, retry_note, timeout_message, StreamState};

fn edition_json(headline: &str) -> String {
    format!(
        r#"{{"tagline":"t","sections":["Front Page"],"cards":[{{"kind":"article","size":"lead","section":"Front Page","headline":"{headline}","dek":"d","url":"https://a.test/1"}}]}}"#
    )
}

fn quoted(s: &str) -> String {
    let mut out = String::from("\"");
    for c in s.chars() {
        match c {
            '"' => out.push_str("\\\""),
            '\\' => out.push_str("\\\\"),
            '\n' => out.push_str("\\n"),
            _ => out.push(c),
        }
    }
    out.push('"');
    out
}

#[test]
fn a_run_is_read_event_by_event() {
    let (mut st, first) = StreamState::new();
    assert_eq!(first.stage, "research");
    assert_eq!(first.detail.as_deref(), Some("Reading the wire copy"));

    assert!(st.read_line("not json").is_empty());
    st.read_line(r#"{"type":"system","session_id":"abc"}"#);
    st.read_line(r#"{"type":"system","session_id":"later"}"#);
    assert_eq!(st.session_id.as_deref(), Some("abc"));

    let notes = st.read_line(
        r#"{"type":"assistant","message":{"content":[
            {"type":"tool_use","name":"WebSearch","input":{"query":"rocket launch today"}},
            {"type":"tool_use","name":"WebFetch","input":{"url":"https://www.example.com/a"}},
            {"type":"text","text":"   "}
        ]}}"#,
    );
    assert_eq!(notes.len(), 2);
    assert_eq!(notes[0].message, "The editor's researching");
    assert_eq!(notes[0].detail.as_deref(), Some("rocket launch today"));
    assert_eq!(notes[1].message, "The editor's reading");
    assert_eq!(notes[1].detail.as_deref(), Some("example.com"));
    assert_eq!((st.searches, st.pages_read), (1, 1));

    let notes = st.read_line(r#"{"type":"stream_event","event":{"delta":{"type":"text_delta","text":"{"}}}"#);
    assert_eq!(notes.len(), 1);
    assert_eq!(notes[0].stage, "writing");
    assert_eq!(notes[0].detail.as_deref(), Some("Writing the stories"));
    assert!(st.read_line(r#"{"type":"stream_event","event":{"delta":{"type":"text_delta"}}}"#).is_empty());

    let text = edition_json("From the text");
    st.read_line(&format!(r#"{{"type":"assistant","message":{{"content":[{{"type":"text","text":{}}}]}}}}"#, quoted(&text)));
    assert_eq!(st.last_text, text);
    st.read_line(r#"{"type":"result","is_error":false,"result":"All done, the edition is filed."}"#);
    assert!(st.finished);

    let (notes, out) = st.finish("0", "");
    assert!(notes.is_empty());
    let out = out.unwrap();
    assert_eq!(out.session_id.as_deref(), Some("abc"));
    assert_eq!(out.cards.len(), 1);
    assert_eq!(out.cards[0].headline, "From the text");
    assert_eq!((out.searches, out.pages_read), (1, 1));
}

#[test]
fn an_edition_handed_to_a_tool_still_counts() {
    let (mut st, _) = StreamState::new();
    let e = edition_json("Via a tool");
    let notes = st.read_line(&format!(
        r#"{{"type":"assistant","message":{{"content":[{{"type":"tool_use","name":"Write","input":{{"content":{},"path":"x"}}}}]}}}}"#,
        quoted(&e)
    ));
    assert!(notes.is_empty());
    assert_eq!(st.texts.len(), 1);
    st.read_line(r#"{"type":"result","result":"done"}"#);
    let (notes, out) = st.finish("0", "");
    assert_eq!(notes.len(), 1);
    assert_eq!(notes[0].message, "Building new Daily brief");
    assert_eq!(out.unwrap().cards[0].headline, "Via a tool");
}

#[test]
fn failures_are_explained() {
    let (mut st, _) = StreamState::new();
    st.read_line(r#"{"type":"result","is_error":true,"subtype":"error_max_turns","result":""}"#);
    let (_, out) = st.finish("1", "");
    assert_eq!(out.err().as_deref(), Some("error_max_turns"));

    let (st, _) = StreamState::new();
    let (_, out) = st.finish("1", "error: unknown option '--include-partial-messages'");
    let msg = out.err().unwrap();
    assert_eq!(msg, "The editor exited (code 1) without an edition. - error: unknown option '--include-partial-messages'");

    let (mut st, _) = StreamState::new();
    st.read_line(r#"{"type":"result","result":"Sorry, I could not do it."}"#);
    let (_, out) = st.finish("0", "");
    assert_eq!(out.err().as_deref(), Some("The editor replied, but not with an edition I could parse. It started: \"Sorry, I could not do it.\""));

    let (mut st, _) = StreamState::new();
    st.read_line(r#"{"type":"result","result":"{\"cards\":[{\"headline\":\"no url\"}]}"}"#);
    let (_, out) = st.finish("0", "");
    assert_eq!(out.err().as_deref(), Some("The editor returned an edition with no usable cards."));
}

#[test]
fn command_line_follows_the_settings() {
    let mut s = Settings::default();
    let args = editor_args_exec(&s, false);
    assert_eq!(
        args,
        vec![
            "-p", "--output-format", "stream-json", "--verbose", "--allowedTools", "WebSearch,WebFetch",
            "--include-partial-messages", "--disallowedTools", "Bash,Edit,Write,NotebookEdit", "--strict-mcp-config",
            "--max-turns", "60", "--effort", "low", "--model", "sonnet",
        ]
    );
    s.claude_model = "default".into();
    s.claude_effort = " default ".into();
    let args = editor_args_exec(&s, false);
    assert_eq!(args.len(), 12);
    s.claude_model = " opus ".into();
    let args = editor_args_exec(&s, true);
    assert_eq!(args, vec!["-p", "--output-format", "stream-json", "--verbose", "--allowedTools", "WebSearch,WebFetch", "--model", "opus"]);
    assert_eq!(timeout_message(600), "The editor ran past the 600-second limit. Try Refresh again, or raise claudeTimeoutSecs in settings.json.");
    assert_eq!(retry_note().detail.as_deref(), Some("Older CLI - retrying with basic options"));
}
