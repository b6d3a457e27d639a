use my_daily_newspaper::model::{Interest, InterestsFile, Settings};
use my_daily_newspaper::store::{
    edition_dates, edition_no, lock_is_held, lock_text, owner_name, paper_name, profile,
    repair_known_handles,
};

fn channel(value: &str) -> Interest {
    Interest {
        id: "j".into(),
        name: "JRE".into(),
        kind: "youtube_channel".into(),
        value: value.into(),
        notes: String::new(),
        enabled: true,
    }
}

#[test]
fn the_bad_handle_is_mended_and_nothing_else() {
    let mut f = InterestsFile { version: 1, interests: vec![channel(" @powerfuljre "), channel("@someoneelse")] };
    assert!(repair_known_handles(&mut f));
    assert_eq!(f.interests[0].value, "@joerogan");
    assert_eq!(f.interests[1].value, "@someoneelse");
    assert!(!repair_known_handles(&mut f));
    let mut topic = channel("@PowerfulJRE");
    topic.kind = "topic".into();
    let mut g = InterestsFile { version: 1, interests: vec![topic] };
    assert!(!repair_known_handles(&mut g));
    assert_eq!(g.interests[0].value, "@PowerfulJRE");
}

#[test]
fn whose_paper_it_is() {
    assert_eq!(paper_name("Sam"), "Sam\u{2019}s Daily");
    assert_eq!(paper_name("  "), "My Daily");
    let mut s = Settings::default();
    assert_eq!(owner_name(&s, None), "");
    assert_eq!(owner_name(&s, Some(" Priya ")), "Priya");
    s.owner_name = " Sam ".into();
    assert_eq!(owner_name(&s, Some("Priya")), "Sam");
    s.city = "  Austin ".into();
    let p = profile(&s, None);
    assert_eq!(p.paper_name, "Sam\u{2019}s Daily");
    assert_eq!(p.owner_name, "Sam");
    assert_eq!(p.city, "Austin");
    assert_eq!(p.mlb_team_id, 119);
    assert!(!p.onboarded);
}

#[test]
fn edition_files_become_dates_oldest_first() {
    let names: Vec<String> = ["2026-09-18.json", "notes.txt", "2026-09-02.json", "x.json", "2026-09-18.tmp", "2026-1é-01.json", "notes-2026.json", "2026-9-180.json"]
        .iter()
        .map(|s| s.to_string())
        .collect();
    assert_eq!(edition_dates(&names), vec!["2026-09-02", "2026-09-18"]);
    let dates = vec!["2026-09-02".to_string(), "2026-09-18".to_string()];
    assert_eq!(edition_no(&dates, "2026-09-18"), 2);
    assert_eq!(edition_no(&dates, "2026-09-19"), 3);
}

#[test]
fn a_fresh_lock_keeps_others_out() {
    assert!(lock_is_held(Some(10)));
    assert!(!lock_is_held(Some(1200)));
    assert!(!lock_is_held(None));
    assert_eq!(lock_text(4242), "pid 4242\n");
}
