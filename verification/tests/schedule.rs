use my_daily_newspaper::schedule::{
    clamp_time, decode_console, launch_service, parse_task_time, parse_time, parse_u32, plist, status,
    task_file_bytes, task_xml, uid_from, windows_register_error, xml_escape,
};

#[test]
fn plist_round_trips_and_escapes() {
    let text = plist("/Applications/My Daily Newspaper.app/Contents/MacOS/my-daily-newspaper", "/Users/r&d/Library/x.log", 6, 30);
    assert_eq!(parse_time(&text), Some((6, 30)));
    assert!(text.contains("<string>/Applications/My Daily Newspaper.app/Contents/MacOS/my-daily-newspaper</string>"));
    assert!(text.contains("<string>--refresh-only</string>"));
    assert!(text.contains("/Users/r&amp;d/Library/x.log"));
    assert!(!text.contains("r&d"));
}

#[test]
fn task_definition_round_trips_and_escapes() {
    let xml = task_xml(r"C:\Users\R&D\AppData\Local\Programs\My Daily Newspaper\My Daily Newspaper.exe", 6, 5);
    assert_eq!(parse_task_time(&xml), Some((6, 5)));
    assert!(xml.contains("<StartBoundary>2026-01-01T06:05:00</StartBoundary>"));
    assert!(xml.contains(r"<Command>C:\Users\R&amp;D\AppData\Local\Programs\My Daily Newspaper\My Daily Newspaper.exe</Command>"));
    assert!(xml.contains("<Arguments>--refresh-only</Arguments>"));
    assert!(xml.contains("<StartWhenAvailable>true</StartWhenAvailable>"));
    assert!(!xml.contains("R&D"));
    assert_eq!(parse_task_time("<Task></Task>"), None);
}

#[test]
fn reads_schtasks_output_in_either_encoding() {
    let text = "<StartBoundary>2026-01-01T07:30:00</StartBoundary>";
    assert_eq!(parse_task_time(&decode_console(text.as_bytes())), Some((7, 30)));
    let mut utf16: Vec<u8> = vec![0xFF, 0xFE];
    for u in text.encode_utf16() {
        utf16.extend_from_slice(&u.to_le_bytes());
    }
    assert_eq!(parse_task_time(&decode_console(&utf16)), Some((7, 30)));
}

#[test]
fn rejects_nonsense_times() {
    assert_eq!(parse_time("<key>Hour</key><integer>25</integer>"), None);
    assert_eq!(parse_time("no schedule here"), None);
    assert_eq!(parse_time("<key>Hour</key>\n <integer>7</integer>"), Some((7, 0)));
}

#[test]
fn task_file_is_utf16_with_a_byte_order_mark() {
    let text = "Tâche <x> \u{1F4F0}";
    let mut expected: Vec<u8> = vec![0xFF, 0xFE];
    for u in text.encode_utf16() {
        expected.extend_from_slice(&u.to_le_bytes());
    }
    let bytes = task_file_bytes(text);
    assert_eq!(bytes, expected);
    assert_eq!(decode_console(&bytes), format!("\u{FEFF}{text}"));
}

#[test]
fn ascii_utf16_without_a_mark_is_recognised() {
    let bytes: Vec<u8> = "ok!".encode_utf16().flat_map(|u| u.to_le_bytes()).collect();
    assert_eq!(decode_console(&bytes), "ok!");
    assert_eq!(decode_console(b"plain"), "plain");
}

#[test]
fn numbers_parse_as_str_parse_does() {
    assert_eq!(parse_u32("07"), Some(7));
    assert_eq!(parse_u32("+5"), Some(5));
    assert_eq!(parse_u32("4294967295"), Some(u32::MAX));
    assert_eq!(parse_u32("4294967296"), None);
    assert_eq!(parse_u32(""), None);
    assert_eq!(parse_u32("+"), None);
    assert_eq!(parse_u32("-1"), None);
    assert_eq!(parse_u32("1a"), None);
}

#[test]
fn times_are_clamped_and_status_reflects_the_job() {
    assert_eq!(clamp_time(30, 75), (23, 59));
    assert_eq!(clamp_time(6, 5), (6, 5));
    let off = status(false, Some((7, 30)));
    assert!(!off.supported && !off.enabled);
    assert_eq!((off.hour, off.minute), (6, 0));
    let on = status(true, Some((7, 30)));
    assert!(on.supported && on.enabled);
    assert_eq!((on.hour, on.minute), (7, 30));
    let none = status(true, None);
    assert!(none.supported && !none.enabled);
}

#[test]
fn escapes_xml_specials() {
    assert_eq!(xml_escape("a&b<c>\"d\""), "a&amp;b&lt;c&gt;&quot;d&quot;");
}

#[test]
fn scheduler_replies_become_messages() {
    assert_eq!(uid_from(" 501\n"), Ok("501".to_string()));
    assert_eq!(uid_from("x1"), Err("Couldn't work out your user id.".to_string()));
    assert_eq!(uid_from("  "), Err("Couldn't work out your user id.".to_string()));
    assert_eq!(launch_service("501"), "gui/501/com.mydailynewspaper.refresh");
    assert_eq!(windows_register_error(" Access denied. ", ""), "Windows wouldn't register the schedule: Access denied.");
}

#[test]
fn task_files_read_back_after_their_byte_order_mark() {
    let xml = "<Task>R&amp;D \u{1F4F0}</Task>";
    assert_eq!(decode_console(&task_file_bytes(xml)), format!("\u{feff}{xml}"));
}

#[test]
fn console_text_reads_back_in_either_encoding() {
    let text = "<Task>R&D caf\u{e9} \u{1F4F0}</Task>";
    assert_eq!(decode_console(text.as_bytes()), text);
    let utf16: Vec<u8> = "<Task/>".encode_utf16().flat_map(|u| u.to_le_bytes()).collect();
    assert_eq!(decode_console(&utf16), "<Task/>");
}
