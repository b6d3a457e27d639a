use my_daily_newspaper::editor::extract_json;
use my_daily_newspaper::json::JsonValue;
use my_daily_newspaper::scores::{
    bug_from_reply, challenges_from_feed, challenges_from_reply, live_game_pk, pick, short_half, widen, with_challenges,
};
use my_daily_newspaper::text::str_lt_exec;

fn json(text: &str) -> JsonValue {
    extract_json(text).expect("test JSON")
}

fn side(id: u64, abbr: &str, name: &str, score: Option<u32>) -> String {
    let score = match score {
        Some(s) => format!(",\"score\":{s}"),
        None => String::new(),
    };
    format!("{{\"team\":{{\"id\":{id},\"abbreviation\":\"{abbr}\",\"teamName\":\"{name}\",\"name\":\"City {name}\"}}{score}}}")
}

fn game(
    pk: u64,
    date: &str,
    abstract_state: &str,
    detailed: &str,
    away: (u64, &str, &str, Option<u32>),
    home: (u64, &str, &str, Option<u32>),
    linescore: &str,
) -> String {
    format!(
        "{{\"gamePk\":{pk},\"gameDate\":\"{date}\",\"status\":{{\"abstractGameState\":\"{abstract_state}\",\"detailedState\":\"{detailed}\"}},\"teams\":{{\"away\":{},\"home\":{}}},\"linescore\":{linescore}}}",
        side(away.0, away.1, away.2, away.3),
        side(home.0, home.1, home.2, home.3)
    )
}

fn with_broadcasts(game: &str, broadcasts: &str) -> String {
    format!("{},\"broadcasts\":{broadcasts}}}", &game[..game.len() - 1])
}

fn schedule(dates: &[&[String]]) -> JsonValue {
    let dates: Vec<String> = dates.iter().map(|games| format!("{{\"games\":[{}]}}", games.join(","))).collect();
    json(&format!("{{\"dates\":[{}]}}", dates.join(",")))
}

// 2026-09-18T23:00:00Z
const NOW_SECS: i64 = 1_789_772_400;

#[test]
fn shows_last_final_and_next_when_nothing_is_live() {
    let sched = schedule(&[
        &[game(1, "2026-09-16T02:10:00Z", "Final", "Final", (137, "SF", "Giants", Some(3)), (119, "LAD", "Dodgers", Some(5)), r#"{"currentInning": 9, "scheduledInnings": 9}"#)],
        &[game(2, "2026-09-17T02:10:00Z", "Final", "Final", (137, "SF", "Giants", Some(2)), (119, "LAD", "Dodgers", Some(4)), r#"{"currentInning": 10, "scheduledInnings": 9}"#)],
        &[game(3, "2026-09-19T02:10:00Z", "Preview", "Scheduled", (119, "LAD", "Dodgers", None), (135, "SD", "Padres", None), "{}")],
    ]);
    let bug = pick(&sched, 119, NOW_SECS, 0);
    let g = bug.game.unwrap();
    assert_eq!(g.game_pk, 2);
    assert_eq!(g.state, "final");
    assert_eq!(g.detail, "Final/10");
    assert_eq!(g.home.score, Some(4));
    assert!(g.we_are_home);
    let n = bug.next.unwrap();
    assert_eq!(n.game_pk, 3);
    assert!(!n.we_are_home);
}

#[test]
fn live_game_wins() {
    let sched = schedule(&[
        &[game(1, "2026-09-17T02:10:00Z", "Final", "Final", (137, "SF", "Giants", Some(3)), (119, "LAD", "Dodgers", Some(5)), r#"{"currentInning": 9}"#)],
        &[game(2, "2026-09-18T22:10:00Z", "Live", "In Progress", (119, "LAD", "Dodgers", Some(1)), (135, "SD", "Padres", Some(0)), r#"{"currentInning": 3, "currentInningOrdinal": "3rd", "inningState": "Bottom"}"#)],
    ]);
    let bug = pick(&sched, 119, NOW_SECS, 0);
    let g = bug.game.unwrap();
    assert_eq!(g.game_pk, 2);
    assert_eq!(g.state, "live");
    assert_eq!(g.detail, "Bot 3rd");
    assert!(bug.next.is_none());
}

#[test]
fn live_situation_bases_count_and_challenges() {
    let ls = r#"{
        "currentInning": 7, "currentInningOrdinal": "7th", "inningState": "Top",
        "balls": 3, "strikes": 2, "outs": 1,
        "offense": {"batter": {"id": 1, "fullName": "Mookie Betts"}, "first": {"id": 2, "fullName": "A"}, "third": {"id": 3, "fullName": "B"}},
        "defense": {"pitcher": {"id": 9, "fullName": "Some Pitcher"}}
    }"#;
    let sched = schedule(&[&[game(7, "2026-09-18T22:10:00Z", "Live", "In Progress", (119, "LAD", "Dodgers", Some(2)), (135, "SD", "Padres", Some(2)), ls)]]);
    let g = pick(&sched, 119, NOW_SECS, 0).game.unwrap();
    let s = g.situation.unwrap();
    assert_eq!((s.balls, s.strikes, s.outs), (3, 2, 1));
    assert_eq!(s.bases, [true, false, true]);
    assert_eq!(s.batter.as_deref(), Some("Mookie Betts"));
    assert_eq!(s.pitcher.as_deref(), Some("Some Pitcher"));

    let feed = json(r#"{"gameData": {"absChallenges": {"hasChallenges": true, "away": {"usedSuccessful": 1, "usedFailed": 1, "remaining": 1}, "home": {"usedSuccessful": 0, "usedFailed": 0, "remaining": 2}}}}"#);
    assert_eq!(challenges_from_feed(&feed), Some([1, 2]));
    assert_eq!(challenges_from_feed(&json(r#"{"gameData": {}}"#)), None);
    assert_eq!(challenges_from_feed(&json(r#"{"gameData": {"absChallenges": {"hasChallenges": false}}}"#)), None);
}

#[test]
fn next_game_lists_where_to_watch() {
    let next = with_broadcasts(
        &game(3, "2026-09-19T02:10:00Z", "Preview", "Scheduled", (135, "SD", "Padres", None), (119, "LAD", "Dodgers", None), "{}"),
        r#"[
            {"name": "SportsNet LA", "type": "TV", "homeAway": "home", "isNational": false},
            {"name": "Padres.TV", "type": "TV", "homeAway": "away", "isNational": false},
            {"name": "AM 570", "type": "AM", "homeAway": "home"},
            {"name": "Apple TV+", "type": "TV", "homeAway": "home", "isNational": true},
            {"name": "SportsNet LA", "type": "TV", "homeAway": "home", "isNational": false}
        ]"#,
    );
    let sched = schedule(&[&[next]]);
    let bug = pick(&sched, 119, NOW_SECS, 0);
    assert_eq!(bug.next.unwrap().tv, vec!["SportsNet LA", "Apple TV+"]);
}

#[test]
fn finals_carry_no_situation() {
    let sched = schedule(&[&[game(1, "2026-09-17T02:10:00Z", "Final", "Final", (137, "SF", "Giants", Some(3)), (119, "LAD", "Dodgers", Some(5)), r#"{"currentInning": 9, "outs": 3}"#)]]);
    assert!(pick(&sched, 119, NOW_SECS, 0).game.unwrap().situation.is_none());
}

#[test]
fn postponed_games_are_not_the_last_game() {
    let sched = schedule(&[
        &[game(1, "2026-09-16T02:10:00Z", "Final", "Final", (137, "SF", "Giants", Some(3)), (119, "LAD", "Dodgers", Some(5)), r#"{"currentInning": 9}"#)],
        &[game(2, "2026-09-17T02:10:00Z", "Final", "Postponed", (137, "SF", "Giants", None), (119, "LAD", "Dodgers", None), "{}")],
    ]);
    let bug = pick(&sched, 119, NOW_SECS, 0);
    assert_eq!(bug.game.unwrap().game_pk, 1);
}

#[test]
fn empty_or_garbage_schedule_is_quietly_empty() {
    assert!(pick(&json("{}"), 119, NOW_SECS, 0).game.is_none());
    assert!(pick(&json(r#"{"dates": [{"games": [{"nope": 1}]}]}"#), 119, NOW_SECS, 0).game.is_none());
}

#[test]
fn games_are_read_in_order_of_first_pitch() {
    // Listed out of order: the later final is the one shown.
    let sched = schedule(&[
        &[game(5, "2026-09-17T02:10:00Z", "Final", "Final", (137, "SF", "Giants", Some(1)), (119, "LAD", "Dodgers", Some(2)), r#"{"currentInning": 9}"#)],
        &[game(4, "2026-09-16T02:10:00Z", "Final", "Final", (137, "SF", "Giants", Some(7)), (119, "LAD", "Dodgers", Some(0)), r#"{"currentInning": 9}"#)],
    ]);
    let g = pick(&sched, 119, NOW_SECS, 0).game.unwrap();
    assert_eq!(g.game_pk, 5);
    assert_eq!(g.url, "https://www.mlb.com/gameday/5");
    assert_eq!(g.away.abbr, "SF");
    assert_eq!(g.away.name, "Giants");
}

#[test]
fn other_teams_games_and_old_previews_are_left_out() {
    let sched = schedule(&[&[
        game(8, "2026-09-18T10:00:00Z", "Preview", "Scheduled", (119, "LAD", "Dodgers", None), (135, "SD", "Padres", None), "{}"),
        game(9, "2026-09-20T02:10:00Z", "Preview", "Scheduled", (137, "SF", "Giants", None), (135, "SD", "Padres", None), "{}"),
        game(10, "2026-09-18T22:30:00Z", "Preview", "Scheduled", (119, "LAD", "Dodgers", None), (135, "SD", "Padres", None), "{}"),
    ]]);
    let bug = pick(&sched, 119, NOW_SECS, 0);
    assert!(bug.game.is_none());
    // Game 8 started well over an hour ago; game 9 is not ours; game 10 is
    // half an hour old, inside the hour of grace.
    assert_eq!(bug.next.unwrap().game_pk, 10);
}

#[test]
fn team_abbreviation_falls_back_to_the_name() {
    let g = r#"{"gamePk":1,"gameDate":"2026-09-17T02:10:00Z","status":{"abstractGameState":"Final","detailedState":"Final"},
        "teams":{"away":{"team":{"id":137,"name":"Giants of SF"},"score":3},"home":{"team":{"id":119,"teamName":"Dodgers"},"score":4}},
        "linescore":{"currentInning":9}}"#;
    let sched = schedule(&[&[g.to_string()]]);
    let game = pick(&sched, 119, NOW_SECS, 0).game.unwrap();
    assert_eq!(game.away.abbr, "GIA");
    assert_eq!(game.away.name, "Giants of SF");
    assert_eq!(game.home.abbr, "DOD");
    assert_eq!(game.detail, "Final");
}

#[test]
fn live_details() {
    let live = |detailed: &str, ls: &str| {
        let sched = schedule(&[&[game(1, "2026-09-18T22:10:00Z", "Live", detailed, (119, "LAD", "Dodgers", Some(0)), (135, "SD", "Padres", Some(0)), ls)]]);
        pick(&sched, 119, NOW_SECS, 0).game.unwrap().detail
    };
    assert_eq!(live("Delayed: Rain", r#"{"inningState": "Top", "currentInningOrdinal": "2nd"}"#), "Delayed: Rain");
    assert_eq!(live("Warmup", "{}"), "Warmup");
    assert_eq!(live("In Progress", "{}"), "Live");
    assert_eq!(live("In Progress", r#"{"inningState": "Middle", "currentInningOrdinal": "5th"}"#), "Mid 5th");
    assert_eq!(live("In Progress", r#"{"balls": 9, "strikes": 7, "outs": 5}"#), "Live");
}

#[test]
fn counts_are_capped() {
    let sched = schedule(&[&[game(1, "2026-09-18T22:10:00Z", "Live", "In Progress", (119, "LAD", "Dodgers", Some(0)), (135, "SD", "Padres", Some(0)), r#"{"balls": 9, "strikes": 7, "outs": 5}"#)]]);
    let s = pick(&sched, 119, NOW_SECS, 0).game.unwrap().situation.unwrap();
    assert_eq!((s.balls, s.strikes, s.outs), (4, 3, 3));
    assert_eq!(s.bases, [false, false, false]);
    assert_eq!(s.challenges, None);
}

#[test]
fn half_innings_are_abbreviated() {
    assert_eq!(short_half("Top"), "Top");
    assert_eq!(short_half("Bottom"), "Bot");
    assert_eq!(short_half("Middle"), "Mid");
    assert_eq!(short_half("End"), "End");
    assert_eq!(short_half("Other"), "Other");
}

#[test]
fn text_order_is_by_code_point() {
    assert!(str_lt_exec("2026-09-16", "2026-09-17"));
    assert!(!str_lt_exec("b", "a"));
    assert!(str_lt_exec("ab", "abc"));
    assert!(!str_lt_exec("abc", "abc"));
    assert!(str_lt_exec("Z", "a"));
}

fn live_text() -> String {
    let g = game(
        7,
        "2026-09-18T22:10:00Z",
        "Live",
        "In Progress",
        (119, "LAD", "Dodgers", Some(1)),
        (135, "SD", "Padres", Some(0)),
        r#"{"currentInning": 3, "currentInningOrdinal": "3rd", "inningState": "Bottom", "balls": 1, "strikes": 2, "outs": 1, "offense": {}, "defense": {}}"#,
    );
    format!("{{\"dates\":[{{\"games\":[{g}]}}]}}")
}

#[test]
fn schedule_replies_are_read_from_their_text() {
    assert!(bug_from_reply("nope", 119, NOW_SECS, 0).is_none());
    let empty = bug_from_reply("{\"dates\":[]}", 119, NOW_SECS, 0).unwrap();
    assert!(empty.game.is_none() && empty.next.is_none());
    let bug = bug_from_reply(&live_text(), 119, NOW_SECS, 0).unwrap();
    assert_eq!(bug.game.as_ref().unwrap().state, "live");
    assert_eq!(live_game_pk(&bug), Some(7));
}

#[test]
fn challenges_come_from_the_live_feed_text() {
    let feed = r#"{"gameData":{"absChallenges":{"hasChallenges":true,"away":{"remaining":1},"home":{"remaining":2}}}}"#;
    assert_eq!(challenges_from_reply(feed), Some([1, 2]));
    assert_eq!(challenges_from_reply("not json"), None);
    let bug = bug_from_reply(&live_text(), 119, NOW_SECS, 0).unwrap();
    let bug = with_challenges(bug, Some([1, 2]));
    assert_eq!(bug.game.unwrap().situation.unwrap().challenges, Some([1, 2]));
}

#[test]
fn finals_have_no_live_game_to_ask_about() {
    let sched = schedule(&[&[game(2, "2026-09-17T02:10:00Z", "Final", "Final", (137, "SF", "Giants", Some(2)), (119, "LAD", "Dodgers", Some(4)), "{}")]]);
    let bug = pick(&sched, 119, NOW_SECS, 0);
    assert_eq!(live_game_pk(&bug), None);
}

#[test]
fn a_wider_look_keeps_the_near_next_game() {
    let near = bug_from_reply("{\"dates\":[{\"games\":[]}]}", 119, NOW_SECS, 0).unwrap();
    let wide_text = format!(
        "{{\"dates\":[{{\"games\":[{}]}}]}}",
        game(2, "2026-09-17T02:10:00Z", "Final", "Final", (137, "SF", "Giants", Some(2)), (119, "LAD", "Dodgers", Some(4)), "{}")
    );
    let wide = bug_from_reply(&wide_text, 119, NOW_SECS, 0).unwrap();
    let merged = widen(near, wide);
    assert_eq!(merged.game.unwrap().game_pk, 2);
    assert!(merged.next.is_none());
}
