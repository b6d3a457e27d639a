use my_daily_newspaper::paths::{
    bin_search, candidates, marker_path, path_sep, push_split, shell_env, expand_tilde, BinSearch,
};

#[test]
fn folders_are_added_once_in_order() {
    let mut dirs = vec!["/usr/bin".to_string()];
    push_split(&mut dirs, " /opt/a : /usr/bin ::/opt/b:/opt/a", ":");
    assert_eq!(dirs, vec!["/usr/bin", "/opt/a", "/opt/b"]);
}

#[test]
fn the_search_path_puts_the_login_shell_first() {
    let known = vec!["/opt/homebrew/bin".to_string(), "/usr/bin".to_string()];
    let p = shell_env(Some("/a:/usr/bin"), Some("/usr/bin:/b"), &known, false).path;
    assert_eq!(p, "/a:/usr/bin:/b:/opt/homebrew/bin");
    let w = shell_env(None, Some(r"C:\x;C:\y"), &[], true).path;
    assert_eq!(w, r"C:\x;C:\y");
    assert_eq!((path_sep(true), path_sep(false)), (";", ":"));
}

#[test]
fn the_login_shells_path_is_read_from_the_marker() {
    let lines: Vec<String> = ["motd", "__RD_PATH__/old", "  __RD_PATH__ /usr/bin:/bin  ", "bye"].iter().map(|s| s.to_string()).collect();
    assert_eq!(marker_path(&lines).as_deref(), Some("/usr/bin:/bin"));
    let blank: Vec<String> = vec!["__RD_PATH__   ".to_string()];
    assert_eq!(marker_path(&blank), None);
    assert_eq!(marker_path(&[]), None);
}

#[test]
fn program_names_and_home_paths() {
    assert_eq!(candidates("grok", true, false), vec!["grok.exe", "grok.cmd", "grok.bat"]);
    assert_eq!(candidates("grok.exe", true, true), vec!["grok.exe"]);
    assert_eq!(candidates("grok", false, false), vec!["grok"]);
    let sep = std::path::MAIN_SEPARATOR;
    assert_eq!(expand_tilde("~/bin/tool", Some("/home/sam")), format!("/home/sam{sep}bin/tool"));
    assert_eq!(expand_tilde(r"~\bin\tool", Some("/home/sam")), format!("/home/sam{sep}bin\\tool"));
    assert_eq!(expand_tilde("/usr/bin/tool", Some("/home/sam")), "/usr/bin/tool");
    assert_eq!(expand_tilde("~", Some("/home/sam")), "~");
    assert_eq!(expand_tilde("~/bin/tool", None), "~/bin/tool");
    assert_eq!(expand_tilde("~/bin/tool", Some("")), "~/bin/tool");
    assert_eq!(expand_tilde("~//etc/tool", Some("/home/sam")), "/etc/tool");
}

#[test]
fn an_override_wins_over_the_search() {
    match bin_search("  ~/x/grok ", "/a:/b", ":") {
        BinSearch::Override(o) => assert_eq!(o, "~/x/grok"),
        BinSearch::Folders(_) => panic!("expected the override"),
    }
    match bin_search("", " /a :: /b", ":") {
        BinSearch::Folders(ds) => assert_eq!(ds, vec!["/a", "/b"]),
        BinSearch::Override(_) => panic!("expected folders"),
    }
}
