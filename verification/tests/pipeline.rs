use my_daily_newspaper::model::{Card, Interest, InterestsFile, WireItem};
use my_daily_newspaper::pipeline::{
    assign_images, cards_needing_images, check_interests, clamp_cards, clean_field, copy_desk_detail,
    done_detail, edition_notes, is_fresh, leftover_note, missing_grok_note, probe_step, ready_line,
    set_found_images, tidy_interests, upgrade_images, wire_in_detail, ProbeStep,
};

fn interest(id: &str, name: &str, kind: &str, enabled: bool) -> Interest {
    Interest { id: id.into(), name: name.into(), kind: kind.into(), value: " v ".into(), notes: " n ".into(), enabled }
}

fn card(kind: &str, size: &str, url: &str) -> Card {
    Card {
        id: "c".into(),
        kind: kind.into(),
        size: size.into(),
        section: "S".into(),
        headline: "h".into(),
        dek: "d".into(),
        story: None,
        source: "s".into(),
        author: None,
        url: url.into(),
        video_url: None,
        article_url: None,
        image: None,
        published: None,
        why: None,
    }
}

fn item(url: &str, image: Option<&str>) -> WireItem {
    WireItem {
        kind: "article".into(),
        title: "t".into(),
        url: url.into(),
        source: "s".into(),
        author: None,
        published: None,
        summary: None,
        image: image.map(|s| s.to_string()),
        beat: "b".into(),
    }
}

#[test]
fn an_edition_needs_an_enabled_interest() {
    assert!(check_interests(&[interest("a", "A", "topic", true)]).is_ok());
    assert_eq!(
        check_interests(&[interest("a", "A", "topic", false)]),
        Err("No interests are switched on. Add or enable some in Edit Interests.".to_string())
    );
    assert!(check_interests(&[]).is_err());
}

#[test]
fn notes_and_status_lines() {
    assert!(missing_grok_note(true).starts_with("X wire: Grok CLI not found."));
    assert_eq!(missing_grok_note(false), "X wire: Grok is switched off in settings.json.");
    assert_eq!(wire_in_detail(12, 4), "12 feed items \u{b7} 4 X posts");
    assert_eq!(edition_notes(&["a".to_string()], Some("b")), vec!["a", "b"]);
    assert_eq!(edition_notes(&[], None), Vec::<String>::new());
    assert_eq!((clamp_cards(3), clamp_cards(30), clamp_cards(100)), (8, 30, 60));
    assert_eq!(copy_desk_detail(1), "Filling out 1 short story");
    assert_eq!(copy_desk_detail(3), "Filling out 3 short stories");
    assert_eq!(leftover_note(0, 3, 3), None);
    assert_eq!(leftover_note(1, 3, 2).as_deref(), Some("1 of 3 short stories couldn't be filled out from the research (2 were)."));
    assert_eq!(done_detail(12, 95), "12 stories \u{b7} 95s");
    assert_eq!(ready_line(12, 95), "Edition ready: 12 stories in 95s.");
}

#[test]
fn cards_get_pictures_from_the_wire_and_from_videos() {
    let mut video = card("video", "feature", "https://www.youtube.com/watch?v=abcdefghijk");
    video.image = Some("https://old.test/x.jpg".into());
    let wired = card("article", "brief", "https://n.test/1");
    let mut about_video = card("article", "feature", "https://n.test/2");
    about_video.video_url = Some("https://youtu.be/bcdefghijkl".into());
    let bare = card("article", "lead", "https://n.test/3");
    let mut cards = vec![video, wired, about_video, bare];
    let items = vec![item("https://n.test/1", Some("http://img.test/a.jpg")), item("https://n.test/1", Some("https://img.test/b.jpg")), item("https://n.test/1", None)];
    assign_images(&mut cards, &items);
    assert_eq!(cards[0].image.as_deref(), Some("https://i.ytimg.com/vi/abcdefghijk/hqdefault.jpg"));
    assert_eq!(cards[1].image.as_deref(), Some("https://img.test/b.jpg"));
    assert_eq!(cards[2].image.as_deref(), Some("https://i.ytimg.com/vi/bcdefghijkl/hqdefault.jpg"));
    assert_eq!(cards[3].image, None);
    assert_eq!(cards_needing_images(&cards), vec![3]);
    set_found_images(&mut cards, vec![(3, Some("http://pic.test/c.png".into()))]);
    upgrade_images(&mut cards);
    assert_eq!(cards[3].image.as_deref(), Some("https://pic.test/c.png"));
    assert_eq!(cards[1].image.as_deref(), Some("https://img.test/b.jpg"));
}

#[test]
fn a_recent_edition_is_left_alone() {
    // 2026-09-18T06:00:00Z
    let made = "2026-09-18T06:00:00+00:00";
    let six = 1_789_711_200;
    assert!(is_fresh(made, six + 2 * 3600 + 3599, 999_999_999));
    assert!(!is_fresh(made, six + 3 * 3600, 0));
    assert!(is_fresh(made, six - 3600, 0));
    assert!(!is_fresh("yesterday", six, 0));
}

#[test]
fn waiting_for_the_network() {
    assert!(matches!(probe_step(0, true), ProbeStep::Go));
    assert!(matches!(probe_step(0, false), ProbeStep::Wait { say_waiting: true }));
    assert!(matches!(probe_step(5, false), ProbeStep::Wait { say_waiting: false }));
    assert!(matches!(probe_step(17, false), ProbeStep::GiveUp));
}

#[test]
fn saved_interests_are_tidied() {
    let file = InterestsFile {
        version: 2,
        interests: vec![
            interest("x", "  ", "topic", true),
            interest("a", " Alpha ", "weird", true),
            interest("a", "Beta", "person", false),
            interest(" ", "Gamma", "x_account", true),
        ],
    };
    let t = tidy_interests(file, 1700000000123);
    assert_eq!(t.version, 2);
    assert_eq!(t.interests.len(), 3);
    assert_eq!(t.interests[0].id, "a");
    assert_eq!(t.interests[0].name, "Alpha");
    assert_eq!(t.interests[0].kind, "topic");
    assert_eq!(t.interests[0].value, "v");
    assert_eq!(t.interests[0].notes, "n");
    assert_eq!(t.interests[1].id, "i1700000000123-1");
    assert_eq!(t.interests[1].kind, "person");
    assert!(!t.interests[1].enabled);
    assert_eq!(t.interests[2].id, "i1700000000123-2");
    assert_eq!(t.interests[2].kind, "x_account");
}

#[test]
fn profile_fields_are_cleaned() {
    assert_eq!(clean_field("  Sam\u{7}my \n", 40), "Sammy");
    assert_eq!(clean_field("Los Angeles", 3), "Los");
    assert_eq!(clean_field("\u{0085}x", 10), "x");
}
