//! The score bug: the team's game while one is live, otherwise the last
//! final and the next game. Read from MLB's public schedule response; a score
//! is a fact, not an editorial decision.

use vstd::prelude::*;

use crate::dates::{parse_rfc3339, spec_parse_rfc3339};
use crate::json::{
    array_of, bool_of, deref_opt, get_in, get_opt, json_get, parse_json, spec_parse_json, str_of, u64_of,
    JsonValue,
};
use crate::text::{
    chars_of, contains, decimal, decimal_u64, owned, spec_to_lowercase, spec_to_uppercase, str_concat,
    str_contains, str_eq, str_lt, str_lt_exec, str_trim, string_of, to_lowercase, to_uppercase, trim,
};

verus! {

pub struct TeamLine {
    pub abbr: String,
    pub name: String,
    pub score: Option<u32>,
}

pub struct GameLine {
    pub game_pk: u64,
    /// "live" | "final" | "preview" | "postponed"
    pub state: String,
    /// "Top 7th", "Final", "Final/10", "Delayed", ...
    pub detail: String,
    /// RFC 3339 first pitch.
    pub start: String,
    pub away: TeamLine,
    pub home: TeamLine,
    /// True when our team is the home side.
    pub we_are_home: bool,
    pub url: String,
    /// Where to watch: TV broadcasts for our side plus national ones.
    pub tv: Vec<String>,
    /// Live games only: the situation on the field.
    pub situation: Option<Situation>,
}

pub struct Situation {
    pub balls: u32,
    pub strikes: u32,
    pub outs: u32,
    /// Runner on first, second, third.
    pub bases: [bool; 3],
    pub batter: Option<String>,
    pub pitcher: Option<String>,
    /// Automated ball-strike challenges left: away, home. Only when the
    /// league reports them for this game.
    pub challenges: Option<[u32; 2]>,
}

pub struct ScoreBug {
    /// The game to show: live if there is one, else the most recent final.
    pub game: Option<GameLine>,
    /// Next scheduled game, when nothing is live.
    pub next: Option<GameLine>,
}

pub struct TeamView {
    pub abbr: Seq<char>,
    pub name: Seq<char>,
    pub score: Option<u32>,
}

pub struct SituationView {
    pub balls: u32,
    pub strikes: u32,
    pub outs: u32,
    pub bases: Seq<bool>,
    pub batter: Option<Seq<char>>,
    pub pitcher: Option<Seq<char>>,
    pub challenges: Option<Seq<u32>>,
}

pub struct GameView {
    pub game_pk: u64,
    pub state: Seq<char>,
    pub detail: Seq<char>,
    pub start: Seq<char>,
    pub away: TeamView,
    pub home: TeamView,
    pub we_are_home: bool,
    pub url: Seq<char>,
    pub tv: Seq<Seq<char>>,
    pub situation: Option<SituationView>,
}

impl View for TeamLine {
    type V = TeamView;

    open spec fn view(&self) -> TeamView {
        TeamView { abbr: self.abbr@, name: self.name@, score: self.score }
    }
}

pub open spec fn challenges_view(c: Option<[u32; 2]>) -> Option<Seq<u32>> {
    match c {
        Some(a) => Some(a@),
        None => None,
    }
}

impl View for Situation {
    type V = SituationView;

    open spec fn view(&self) -> SituationView {
        SituationView {
            balls: self.balls,
            strikes: self.strikes,
            outs: self.outs,
            bases: self.bases@,
            batter: self.batter.deep_view(),
            pitcher: self.pitcher.deep_view(),
            challenges: challenges_view(self.challenges),
        }
    }
}

pub open spec fn situation_view(s: Option<Situation>) -> Option<SituationView> {
    match s {
        Some(x) => Some(x@),
        None => None,
    }
}

impl View for GameLine {
    type V = GameView;

    open spec fn view(&self) -> GameView {
        GameView {
            game_pk: self.game_pk,
            state: self.state@,
            detail: self.detail@,
            start: self.start@,
            away: self.away@,
            home: self.home@,
            we_are_home: self.we_are_home,
            url: self.url@,
            tv: self.tv.deep_view(),
            situation: situation_view(self.situation),
        }
    }
}

pub open spec fn game_view(g: Option<GameLine>) -> Option<GameView> {
    match g {
        Some(x) => Some(x@),
        None => None,
    }
}

pub open spec fn game_views(gs: Seq<GameLine>) -> Seq<GameView> {
    gs.map_values(|g: GameLine| g@)
}

// ------------------------------------------------------------ challenges

/// A JSON pointer made of member names: the value at `path` under `v`.
pub open spec fn at_path(v: Option<JsonValue>, path: Seq<Seq<char>>) -> Option<JsonValue>
    decreases path.len(),
{
    if path.len() == 0 {
        v
    } else {
        get_opt(at_path(v, path.drop_last()), path.last())
    }
}

/// A whole number from the feed as a `u32`, keeping its low 32 bits as the
/// cast `as u32` does.
pub open spec fn low_u32(n: Option<u64>) -> Option<u32> {
    match n {
        Some(x) => Some(x as u32),
        None => None,
    }
}

/// Challenges left (away, home) from the live game feed: none when the feed
/// has no challenge block, says the game has none, or lacks either count.
pub open spec fn spec_challenges(feed: JsonValue) -> Option<Seq<u32>> {
    match get_opt(json_get(feed, "gameData"@), "absChallenges"@) {
        None => None,
        Some(abs) => if bool_of(json_get(abs, "hasChallenges"@)) == Some(false) {
            None
        } else {
            match (
                low_u32(u64_of(get_opt(json_get(abs, "away"@), "remaining"@))),
                low_u32(u64_of(get_opt(json_get(abs, "home"@), "remaining"@))),
            ) {
                (Some(a), Some(h)) => Some(seq![a, h]),
                _ => None,
            }
        },
    }
}

fn u64_at(v: Option<&JsonValue>) -> (r: Option<u64>)
    ensures
        r == u64_of(deref_opt(v)),
{
    match v {
        Some(x) => x.as_u64(),
        None => None,
    }
}

fn str_at(v: Option<&JsonValue>) -> (r: Option<String>)
    ensures
        r.deep_view() == str_of(deref_opt(v)),
{
    match v {
        Some(x) => match x.as_str() {
            Some(s) => Some(owned(s.as_str())),
            None => None,
        },
        None => None,
    }
}

fn low_u32_exec(n: Option<u64>) -> (r: Option<u32>)
    ensures
        r == low_u32(n),
{
    match n {
        Some(x) => Some(#[verifier::truncate] (x as u32)),
        None => None,
    }
}

pub fn challenges_from_feed(feed: &JsonValue) -> (r: Option<[u32; 2]>)
    ensures
        challenges_view(r) == spec_challenges(*feed),
{
    let abs = match get_in(feed.get("gameData"), "absChallenges") {
        Some(a) => a,
        None => return None,
    };
    let has = match abs.get("hasChallenges") {
        Some(b) => b.as_bool(),
        None => None,
    };
    if has == Some(false) {
        return None;
    }
    let away = low_u32_exec(u64_at(get_in(abs.get("away"), "remaining")));
    let home = low_u32_exec(u64_at(get_in(abs.get("home"), "remaining")));
    match (away, home) {
        (Some(a), Some(h)) => {
            let r = [a, h];
            assert(r@ =~= seq![a, h]);
            Some(r)
        },
        _ => None,
    }
}

// ------------------------------------------------------------ one game

pub open spec fn or_empty(s: Option<Seq<char>>) -> Seq<char> {
    match s {
        Some(x) => x,
        None => Seq::empty(),
    }
}

/// The half-inning as the bug abbreviates it.
pub open spec fn spec_short_half(h: Seq<char>) -> Seq<char> {
    if h == "Bottom"@ {
        "Bot"@
    } else if h == "Middle"@ {
        "Mid"@
    } else {
        h
    }
}

pub fn short_half(h: &str) -> (r: String)
    ensures
        r@ == spec_short_half(h@),
{
    if str_eq(h, "Bottom") {
        owned("Bot")
    } else if str_eq(h, "Middle") {
        owned("Mid")
    } else {
        owned(h)
    }
}

/// The team's display name: `teamName` when the team has that member (as
/// text, else nothing), otherwise `name`.
pub open spec fn team_name(team: JsonValue) -> Seq<char> {
    match json_get(team, "teamName"@) {
        Some(n) => or_empty(str_of(Some(n))),
        None => or_empty(str_of(json_get(team, "name"@))),
    }
}

/// One side of a game (`key` is "away" or "home"): its line and team id.
pub open spec fn team_side(g: JsonValue, key: Seq<char>) -> Option<(TeamView, u64)> {
    match get_opt(json_get(g, "teams"@), key) {
        None => None,
        Some(t) => match json_get(t, "team"@) {
            None => None,
            Some(team) => match u64_of(json_get(team, "id"@)) {
                None => None,
                Some(id) => {
                    let name = team_name(team);
                    let abbr = match str_of(json_get(team, "abbreviation"@)) {
                        Some(a) => a,
                        None => spec_to_uppercase(name.take(if name.len() < 3 { name.len() as int } else { 3 })),
                    };
                    Some((TeamView { abbr, name, score: low_u32(u64_of(json_get(t, "score"@))) }, id))
                },
            },
        },
    }
}

pub open spec fn linescore(g: JsonValue, key: Seq<char>) -> Option<JsonValue> {
    get_opt(json_get(g, "linescore"@), key)
}

/// The game's state and the detail line shown with it. A live game shows a
/// delay or suspension as reported, else the half and inning ("Bot 3rd"),
/// else "Warmup" or "Live". A final shows the innings when they differ from
/// the scheduled number; a "final" that was postponed or cancelled is not a
/// final.
pub open spec fn state_detail(g: JsonValue) -> (Seq<char>, Seq<char>) {
    let abstract_state = or_empty(str_of(get_opt(json_get(g, "status"@), "abstractGameState"@)));
    let detailed = or_empty(str_of(get_opt(json_get(g, "status"@), "detailedState"@)));
    let lower = spec_to_lowercase(detailed);
    let never_played = contains(lower, "postponed"@) || contains(lower, "cancel"@);
    let inning = u64_of(linescore(g, "currentInning"@));
    let ordinal = str_of(linescore(g, "currentInningOrdinal"@));
    let half = str_of(linescore(g, "inningState"@));
    let scheduled = match u64_of(linescore(g, "scheduledInnings"@)) {
        Some(n) => n,
        None => 9,
    };
    if abstract_state == "Live"@ {
        let d = if contains(lower, "delay"@) || contains(lower, "suspend"@) {
            detailed
        } else {
            match (half, ordinal) {
                (Some(h), Some(o)) => spec_short_half(h) + " "@ + o,
                _ => if contains(lower, "warmup"@) {
                    "Warmup"@
                } else {
                    "Live"@
                },
            }
        };
        ("live"@, d)
    } else if abstract_state == "Final"@ && !never_played {
        let d = match inning {
            Some(n) => if n != scheduled && n > 0 {
                "Final/"@ + decimal(n as nat)
            } else {
                "Final"@
            },
            None => "Final"@,
        };
        ("final"@, d)
    } else if abstract_state == "Final"@ {
        ("postponed"@, detailed)
    } else {
        ("preview"@, detailed)
    }
}

pub open spec fn count_at(g: JsonValue, key: Seq<char>, most: u32) -> u32 {
    let n: u32 = match low_u32(u64_of(linescore(g, key))) {
        Some(x) => x,
        None => 0,
    };
    if n < most {
        n
    } else {
        most
    }
}

pub open spec fn runner_on(g: JsonValue, base: Seq<char>) -> bool {
    match get_opt(linescore(g, "offense"@), base) {
        Some(v) => v is Object,
        None => false,
    }
}

/// The situation on the field of a live game: the count (capped at 4 balls,
/// 3 strikes, 3 outs), the runners, batter and pitcher.
pub open spec fn situation_of(g: JsonValue) -> SituationView {
    SituationView {
        balls: count_at(g, "balls"@, 4),
        strikes: count_at(g, "strikes"@, 3),
        outs: count_at(g, "outs"@, 3),
        bases: seq![runner_on(g, "first"@), runner_on(g, "second"@), runner_on(g, "third"@)],
        batter: str_of(get_opt(get_opt(linescore(g, "offense"@), "batter"@), "fullName"@)),
        pitcher: str_of(get_opt(get_opt(linescore(g, "defense"@), "pitcher"@), "fullName"@)),
        challenges: None,
    }
}

/// A broadcast worth listing: on TV, named, and national or on our side's
/// feed, and not listed yet.
pub open spec fn tv_step(tv: Seq<Seq<char>>, b: JsonValue, our_side: Seq<char>) -> Seq<Seq<char>> {
    let is_tv = str_of(json_get(b, "type"@)) == Some("TV"@);
    let side = or_empty(str_of(json_get(b, "homeAway"@)));
    let national = bool_of(json_get(b, "isNational"@)) == Some(true);
    let name = trim(or_empty(str_of(json_get(b, "name"@))));
    if is_tv && name.len() > 0 && (national || side == our_side) && !tv.contains(name) {
        tv.push(name)
    } else {
        tv
    }
}

pub open spec fn tv_list(bs: Seq<JsonValue>, our_side: Seq<char>) -> Seq<Seq<char>>
    decreases bs.len(),
{
    if bs.len() == 0 {
        Seq::empty()
    } else {
        tv_step(tv_list(bs.drop_last(), our_side), bs.last(), our_side)
    }
}

/// Where to watch: at most three TV names.
pub open spec fn tv_of(g: JsonValue, home: bool) -> Seq<Seq<char>> {
    let bs = match array_of(json_get(g, "broadcasts"@)) {
        Some(b) => b,
        None => Seq::empty(),
    };
    let all = tv_list(bs, if home { "home"@ } else { "away"@ });
    if all.len() <= 3 {
        all
    } else {
        all.take(3)
    }
}

/// One game of the schedule as the bug shows it; none when the game lacks
/// its id, its date or either team, or when our team plays in neither side.
pub open spec fn spec_game_line(g: JsonValue, team_id: u32) -> Option<GameView> {
    match (u64_of(json_get(g, "gamePk"@)), str_of(json_get(g, "gameDate"@)), team_side(g, "away"@), team_side(g, "home"@)) {
        (Some(pk), Some(start), Some((away, away_id)), Some((home, home_id))) => if away_id != team_id
            && home_id != team_id {
            None
        } else {
            let (state, detail) = state_detail(g);
            Some(
                GameView {
                    game_pk: pk,
                    state,
                    detail,
                    start,
                    away,
                    home,
                    we_are_home: home_id == team_id,
                    url: "https://www.mlb.com/gameday/"@ + decimal(pk as nat),
                    tv: tv_of(g, home_id == team_id),
                    situation: if state == "live"@ {
                        Some(situation_of(g))
                    } else {
                        None
                    },
                },
            )
        },
        _ => None,
    }
}

fn or_empty_exec(s: Option<String>) -> (r: String)
    ensures
        r@ == or_empty(s.deep_view()),
{
    match s {
        Some(x) => x,
        None => String::new(),
    }
}

fn team_side_exec(g: &JsonValue, key: &str) -> (r: Option<(TeamLine, u64)>)
    ensures
        match r {
            Some((t, id)) => team_side(*g, key@) == Some((t@, id)),
            None => team_side(*g, key@) is None,
        },
{
    let t = match get_in(g.get("teams"), key) {
        Some(t) => t,
        None => return None,
    };
    let team = match t.get("team") {
        Some(x) => x,
        None => return None,
    };
    let id = match u64_at(team.get("id")) {
        Some(i) => i,
        None => return None,
    };
    let name = match team.get("teamName") {
        Some(n) => or_empty_exec(str_at(Some(n))),
        None => or_empty_exec(str_at(team.get("name"))),
    };
    let abbr = match str_at(team.get("abbreviation")) {
        Some(a) => a,
        None => {
            let cs = chars_of(name.as_str());
            let n: usize = if cs.len() < 3 {
                cs.len()
            } else {
                3
            };
            let mut first: Vec<char> = Vec::new();
            let mut i: usize = 0;
            while i < n
                invariant
                    i <= n,
                    n <= cs.len(),
                    first@ == cs@.take(i as int),
                decreases n - i,
            {
                assert(cs@.take(i + 1) =~= cs@.take(i as int).push(cs@[i as int]));
                first.push(cs[i]);
                i = i + 1;
            }
            let head = string_of(first.as_slice());
            to_uppercase(head.as_str())
        },
    };
    let score = low_u32_exec(u64_at(t.get("score")));
    Some((TeamLine { abbr, name, score }, id))
}

fn state_detail_exec(g: &JsonValue) -> (r: (String, String))
    ensures
        (r.0@, r.1@) == state_detail(*g),
{
    let status = g.get("status");
    let abstract_state = or_empty_exec(str_at(get_in(status, "abstractGameState")));
    let detailed = or_empty_exec(str_at(get_in(status, "detailedState")));
    let lower = to_lowercase(detailed.as_str());
    let never_played = str_contains(lower.as_str(), "postponed") || str_contains(lower.as_str(), "cancel");
    let ls = g.get("linescore");
    let inning = u64_at(get_in(ls, "currentInning"));
    let ordinal = str_at(get_in(ls, "currentInningOrdinal"));
    let half = str_at(get_in(ls, "inningState"));
    let scheduled = match u64_at(get_in(ls, "scheduledInnings")) {
        Some(n) => n,
        None => 9,
    };
    if str_eq(abstract_state.as_str(), "Live") {
        let d = if str_contains(lower.as_str(), "delay") || str_contains(lower.as_str(), "suspend") {
            detailed
        } else {
            match (half, ordinal) {
                (Some(h), Some(o)) => {
                    let sh = short_half(h.as_str());
                    let a = str_concat(sh.as_str(), " ");
                    str_concat(a.as_str(), o.as_str())
                },
                _ => if str_contains(lower.as_str(), "warmup") {
                    owned("Warmup")
                } else {
                    owned("Live")
                },
            }
        };
        (owned("live"), d)
    } else if str_eq(abstract_state.as_str(), "Final") && !never_played {
        let d = match inning {
            Some(n) => if n != scheduled && n > 0 {
                str_concat("Final/", decimal_u64(n).as_str())
            } else {
                owned("Final")
            },
            None => owned("Final"),
        };
        (owned("final"), d)
    } else if str_eq(abstract_state.as_str(), "Final") {
        (owned("postponed"), detailed)
    } else {
        (owned("preview"), detailed)
    }
}

fn count_at_exec(g: &JsonValue, key: &str, most: u32) -> (r: u32)
    ensures
        r == count_at(*g, key@, most),
{
    let n: u32 = match low_u32_exec(u64_at(get_in(g.get("linescore"), key))) {
        Some(x) => x,
        None => 0,
    };
    if n < most {
        n
    } else {
        most
    }
}

fn runner_on_exec(g: &JsonValue, base: &str) -> (r: bool)
    ensures
        r == runner_on(*g, base@),
{
    match get_in(get_in(g.get("linescore"), "offense"), base) {
        Some(v) => v.is_object(),
        None => false,
    }
}

fn situation_exec(g: &JsonValue) -> (r: Situation)
    ensures
        r@ == situation_of(*g),
{
    let ls = g.get("linescore");
    let bases = [runner_on_exec(g, "first"), runner_on_exec(g, "second"), runner_on_exec(g, "third")];
    let s = Situation {
        balls: count_at_exec(g, "balls", 4),
        strikes: count_at_exec(g, "strikes", 3),
        outs: count_at_exec(g, "outs", 3),
        bases,
        batter: str_at(get_in(get_in(get_in(ls, "offense"), "batter"), "fullName")),
        pitcher: str_at(get_in(get_in(get_in(ls, "defense"), "pitcher"), "fullName")),
        challenges: None,
    };
    assert(s.bases@ =~= seq![runner_on(*g, "first"@), runner_on(*g, "second"@), runner_on(*g, "third"@)]);
    s
}

fn listed(tv: &Vec<String>, name: &str) -> (r: bool)
    ensures
        r == tv.deep_view().contains(name@),
{
    let mut i: usize = 0;
    while i < tv.len()
        invariant
            i <= tv.len(),
            forall|j: int| 0 <= j < i ==> tv.deep_view()[j] != name@,
        decreases tv.len() - i,
    {
        if str_eq(tv[i].as_str(), name) {
            assert(tv.deep_view()[i as int] == name@);
            return true;
        }
        i = i + 1;
    }
    false
}

fn tv_exec(g: &JsonValue, home: bool) -> (r: Vec<String>)
    ensures
        r.deep_view() == tv_of(*g, home),
{
    let our_side = if home {
        "home"
    } else {
        "away"
    };
    let empty: Vec<JsonValue> = Vec::new();
    let bs: &Vec<JsonValue> = match g.get("broadcasts") {
        Some(b) => match b.as_array() {
            Some(a) => a,
            None => &empty,
        },
        None => &empty,
    };
    let mut tv: Vec<String> = Vec::new();
    let mut i: usize = 0;
    assert(bs@.take(0) =~= Seq::<JsonValue>::empty());
    assert(tv.deep_view() =~= Seq::<Seq<char>>::empty());
    while i < bs.len()
        invariant
            i <= bs.len(),
            tv.deep_view() == tv_list(bs@.take(i as int), our_side@),
        decreases bs.len() - i,
    {
        assert(bs@.take(i + 1).drop_last() =~= bs@.take(i as int));
        assert(bs@.take(i + 1).last() == bs@[i as int]);
        let b = &bs[i];
        let ty = str_at(b.get("type"));
        let is_tv = match &ty {
            Some(t) => str_eq(t.as_str(), "TV"),
            None => false,
        };
        let side = or_empty_exec(str_at(b.get("homeAway")));
        let national = match b.get("isNational") {
            Some(x) => x.as_bool() == Some(true),
            None => false,
        };
        let name = str_trim(or_empty_exec(str_at(b.get("name"))).as_str());
        if is_tv && !name.as_str().is_empty() && (national || str_eq(side.as_str(), our_side)) && !listed(
            &tv,
            name.as_str(),
        ) {
            let ghost before = tv.deep_view();
            tv.push(name);
            assert(tv.deep_view() =~= before.push(tv@[tv@.len() - 1]@));
        }
        i = i + 1;
    }
    assert(bs@.take(i as int) =~= bs@);
    if tv.len() > 3 {
        let ghost before = tv.deep_view();
        tv.truncate(3);
        assert(tv.deep_view() =~= before.take(3));
    }
    tv
}

fn game_line(g: &JsonValue, team_id: u32) -> (r: Option<GameLine>)
    ensures
        game_view(r) == spec_game_line(*g, team_id),
{
    let game_pk = match u64_at(g.get("gamePk")) {
        Some(p) => p,
        None => return None,
    };
    let start = match str_at(g.get("gameDate")) {
        Some(s) => s,
        None => return None,
    };
    let (away, away_id) = match team_side_exec(g, "away") {
        Some(x) => x,
        None => return None,
    };
    let (home, home_id) = match team_side_exec(g, "home") {
        Some(x) => x,
        None => return None,
    };
    if away_id != team_id as u64 && home_id != team_id as u64 {
        return None;
    }
    let (state, detail) = state_detail_exec(g);
    let situation = if str_eq(state.as_str(), "live") {
        Some(situation_exec(g))
    } else {
        None
    };
    let we_are_home = home_id == team_id as u64;
    let tv = tv_exec(g, we_are_home);
    let url = str_concat("https://www.mlb.com/gameday/", decimal_u64(game_pk).as_str());
    Some(GameLine { game_pk, state, detail, start, away, home, we_are_home, url, tv, situation })
}

// ------------------------------------------------------------------ copies

impl TeamLine {
    pub fn copy(&self) -> (r: TeamLine)
        ensures
            r@ == self@,
    {
        TeamLine { abbr: owned(self.abbr.as_str()), name: owned(self.name.as_str()), score: self.score }
    }
}

fn opt_copy(s: &Option<String>) -> (r: Option<String>)
    ensures
        r.deep_view() == s.deep_view(),
{
    match s {
        Some(x) => Some(owned(x.as_str())),
        None => None,
    }
}

impl Situation {
    pub fn copy(&self) -> (r: Situation)
        ensures
            r@ == self@,
    {
        Situation {
            balls: self.balls,
            strikes: self.strikes,
            outs: self.outs,
            bases: self.bases,
            batter: opt_copy(&self.batter),
            pitcher: opt_copy(&self.pitcher),
            challenges: self.challenges,
        }
    }
}

fn texts_copy(v: &Vec<String>) -> (r: Vec<String>)
    ensures
        r.deep_view() == v.deep_view(),
{
    let mut out: Vec<String> = Vec::new();
    let mut i: usize = 0;
    while i < v.len()
        invariant
            i <= v.len(),
            out.deep_view() == v.deep_view().take(i as int),
        decreases v.len() - i,
    {
        let ghost before = out.deep_view();
        out.push(owned(v[i].as_str()));
        assert(v.deep_view()[i as int] == v@[i as int]@);
        assert(out.deep_view() =~= before.push(v@[i as int]@));
        assert(v.deep_view().take(i + 1) =~= v.deep_view().take(i as int).push(v.deep_view()[i as int]));
        i = i + 1;
    }
    assert(v.deep_view().take(i as int) =~= v.deep_view());
    out
}

impl GameLine {
    pub fn copy(&self) -> (r: GameLine)
        ensures
            r@ == self@,
    {
        GameLine {
            game_pk: self.game_pk,
            state: owned(self.state.as_str()),
            detail: owned(self.detail.as_str()),
            start: owned(self.start.as_str()),
            away: self.away.copy(),
            home: self.home.copy(),
            we_are_home: self.we_are_home,
            url: owned(self.url.as_str()),
            tv: texts_copy(&self.tv),
            situation: match &self.situation {
                Some(x) => Some(x.copy()),
                None => None,
            },
        }
    }
}

// -------------------------------------------------------------- the pick

/// Where a game starting at `start` goes in a list sorted by start: after
/// every game that starts no later.
pub open spec fn insert_pos(sorted: Seq<GameView>, start: Seq<char>) -> nat
    decreases sorted.len(),
{
    if sorted.len() == 0 {
        0
    } else if str_lt(start, sorted[0].start) {
        0
    } else {
        1 + insert_pos(sorted.drop_first(), start)
    }
}

/// The games in order of start, games that start together in the order
/// they came (a stable sort).
pub open spec fn sorted_by_start(gs: Seq<GameView>) -> Seq<GameView>
    decreases gs.len(),
{
    if gs.len() == 0 {
        Seq::empty()
    } else {
        let s = sorted_by_start(gs.drop_last());
        s.insert(insert_pos(s, gs.last().start) as int, gs.last())
    }
}

/// The games of one list that are ours, in order.
pub open spec fn lines(gs: Seq<JsonValue>, team_id: u32) -> Seq<GameView>
    decreases gs.len(),
{
    if gs.len() == 0 {
        Seq::empty()
    } else {
        let r = lines(gs.drop_last(), team_id);
        match spec_game_line(gs.last(), team_id) {
            Some(x) => r.push(x),
            None => r,
        }
    }
}

pub open spec fn games_of_date(d: JsonValue, team_id: u32) -> Seq<GameView> {
    match array_of(json_get(d, "games"@)) {
        Some(gs) => lines(gs, team_id),
        None => Seq::empty(),
    }
}

/// Our games, date by date.
pub open spec fn games_in(dates: Seq<JsonValue>, team_id: u32) -> Seq<GameView>
    decreases dates.len(),
{
    if dates.len() == 0 {
        Seq::empty()
    } else {
        games_in(dates.drop_last(), team_id) + games_of_date(dates.last(), team_id)
    }
}

pub open spec fn schedule_games(schedule: JsonValue, team_id: u32) -> Seq<GameView> {
    match array_of(json_get(schedule, "dates"@)) {
        Some(ds) => games_in(ds, team_id),
        None => Seq::empty(),
    }
}

/// The latest live game.
pub open spec fn last_live(gs: Seq<GameView>) -> Option<GameView>
    decreases gs.len(),
{
    if gs.len() == 0 {
        None
    } else if gs.last().state == "live"@ {
        Some(gs.last())
    } else {
        last_live(gs.drop_last())
    }
}

/// The latest final that has both scores.
pub open spec fn last_final(gs: Seq<GameView>) -> Option<GameView>
    decreases gs.len(),
{
    if gs.len() == 0 {
        None
    } else if gs.last().state == "final"@ && gs.last().away.score is Some && gs.last().home.score is Some {
        Some(gs.last())
    } else {
        last_final(gs.drop_last())
    }
}

/// A scheduled game whose first pitch (RFC 3339) is later than an hour
/// before `now`.
pub open spec fn upcoming(g: GameView, now_secs: int, now_nanos: int) -> bool {
    g.state == "preview"@ && match spec_parse_rfc3339(g.start) {
        Some(d) => d.0 > now_secs - 3600 || (d.0 == now_secs - 3600 && d.1 > now_nanos),
        None => false,
    }
}

/// The first upcoming game.
pub open spec fn first_next(gs: Seq<GameView>, now_secs: int, now_nanos: int) -> Option<GameView>
    decreases gs.len(),
{
    if gs.len() == 0 {
        None
    } else if upcoming(gs[0], now_secs, now_nanos) {
        Some(gs[0])
    } else {
        first_next(gs.drop_first(), now_secs, now_nanos)
    }
}

/// What the bug shows: a live game alone; else the last final and the next
/// game.
pub open spec fn spec_pick(schedule: JsonValue, team_id: u32, now_secs: int, now_nanos: int) -> (
    Option<GameView>,
    Option<GameView>,
) {
    let gs = sorted_by_start(schedule_games(schedule, team_id));
    match last_live(gs) {
        Some(l) => (Some(l), None),
        None => (last_final(gs), first_next(gs, now_secs, now_nanos)),
    }
}

proof fn lemma_insert_pos_step(s: Seq<GameView>, start: Seq<char>, p: int)
    requires
        0 <= p < s.len(),
        !str_lt(start, s[p].start),
    ensures
        insert_pos(s.skip(p), start) == 1 + insert_pos(s.skip(p + 1), start),
{
    assert(s.skip(p).drop_first() =~= s.skip(p + 1));
    assert(s.skip(p)[0] == s[p]);
}

proof fn lemma_insert_pos_bound(s: Seq<GameView>, start: Seq<char>)
    ensures
        insert_pos(s, start) <= s.len(),
    decreases s.len(),
{
    if s.len() > 0 {
        lemma_insert_pos_bound(s.drop_first(), start);
    }
}

/// Puts a game into a list sorted by start, after the games that start no
/// later.
fn insert_game(sorted: &mut Vec<GameLine>, g: GameLine)
    ensures
        game_views(final(sorted)@) == game_views(old(sorted)@).insert(
            insert_pos(game_views(old(sorted)@), g@.start) as int,
            g@,
        ),
{
    let ghost s = game_views(sorted@);
    let mut p: usize = 0;
    assert(s.skip(0) =~= s);
    while p < sorted.len() && !str_lt_exec(g.start.as_str(), sorted[p].start.as_str())
        invariant
            p <= sorted.len(),
            s == game_views(sorted@),
            s.len() == sorted.len(),
            insert_pos(s, g@.start) == p + insert_pos(s.skip(p as int), g@.start),
        decreases sorted.len() - p,
    {
        proof {
            lemma_insert_pos_step(s, g@.start, p as int);
        }
        p = p + 1;
    }
    if p < sorted.len() {
        assert(s.skip(p as int)[0] == s[p as int]);
    }
    assert(insert_pos(s, g@.start) == p);
    let ghost gv = g@;
    sorted.insert(p, g);
    assert(game_views(sorted@) =~= s.insert(p as int, gv));
}

pub struct BugView {
    pub game: Option<GameView>,
    pub next: Option<GameView>,
}

impl View for ScoreBug {
    type V = BugView;

    open spec fn view(&self) -> BugView {
        BugView { game: game_view(self.game), next: game_view(self.next) }
    }
}

/// Chooses what the bug shows from a schedule response. `now` is the clock
/// reading the caller took (seconds and nanoseconds since the epoch).
pub fn pick(schedule: &JsonValue, team_id: u32, now_secs: i64, now_nanos: u32) -> (r: ScoreBug)
    ensures
        (r@.game, r@.next) == spec_pick(*schedule, team_id, now_secs as int, now_nanos as int),
{
    let empty: Vec<JsonValue> = Vec::new();
    let dates: &Vec<JsonValue> = match schedule.get("dates") {
        Some(d) => match d.as_array() {
            Some(a) => a,
            None => &empty,
        },
        None => &empty,
    };
    let ghost ds = dates@;
    assert(schedule_games(*schedule, team_id) == games_in(ds, team_id));
    let mut sorted: Vec<GameLine> = Vec::new();
    let ghost mut seen: Seq<GameView> = Seq::empty();
    assert(game_views(sorted@) =~= sorted_by_start(seen));
    let mut i: usize = 0;
    assert(ds.take(0) =~= Seq::<JsonValue>::empty());
    while i < dates.len()
        invariant
            i <= dates.len(),
            ds == dates@,
            seen == games_in(ds.take(i as int), team_id),
            game_views(sorted@) == sorted_by_start(seen),
        decreases dates.len() - i,
    {
        assert(ds.take(i + 1).drop_last() =~= ds.take(i as int));
        assert(ds.take(i + 1).last() == ds[i as int]);
        let ghost seen_before = seen;
        let empty_games: Vec<JsonValue> = Vec::new();
        let gs: &Vec<JsonValue> = match dates[i].get("games") {
            Some(g) => match g.as_array() {
                Some(a) => a,
                None => &empty_games,
            },
            None => &empty_games,
        };
        assert(games_of_date(ds[i as int], team_id) == lines(gs@, team_id));
        let mut j: usize = 0;
        assert(gs@.take(0) =~= Seq::<JsonValue>::empty());
        assert(seen =~= seen_before + lines(gs@.take(0), team_id));
        while j < gs.len()
            invariant
                j <= gs.len(),
                seen == seen_before + lines(gs@.take(j as int), team_id),
                game_views(sorted@) == sorted_by_start(seen),
            decreases gs.len() - j,
        {
            assert(gs@.take(j + 1).drop_last() =~= gs@.take(j as int));
            assert(gs@.take(j + 1).last() == gs@[j as int]);
            match game_line(&gs[j], team_id) {
                Some(line) => {
                    let ghost lv = line@;
                    insert_game(&mut sorted, line);
                    proof {
                        assert(seen.push(lv).drop_last() =~= seen);
                        seen = seen.push(lv);
                        assert(seen =~= seen_before + lines(gs@.take(j + 1), team_id));
                    }
                },
                None => {
                    assert(seen =~= seen_before + lines(gs@.take(j + 1), team_id));
                },
            }
            j = j + 1;
        }
        assert(gs@.take(j as int) =~= gs@);
        i = i + 1;
    }
    assert(ds.take(i as int) =~= ds);
    let ghost gv = game_views(sorted@);
    assert(gv == sorted_by_start(schedule_games(*schedule, team_id)));
    // The latest live game.
    let mut k: usize = sorted.len();
    assert(gv.take(k as int) =~= gv);
    while k > 0 && !str_eq(sorted[k - 1].state.as_str(), "live")
        invariant
            k <= sorted.len(),
            gv == game_views(sorted@),
            last_live(gv) == last_live(gv.take(k as int)),
        decreases k,
    {
        assert(gv.take(k as int).drop_last() =~= gv.take(k - 1));
        assert(gv.take(k as int).last() == gv[k - 1]);
        k = k - 1;
    }
    if k > 0 {
        assert(gv.take(k as int).last() == gv[k - 1]);
        let live = sorted[k - 1].copy();
        return ScoreBug { game: Some(live), next: None };
    }
    assert(gv.take(0) =~= Seq::<GameView>::empty());
    // The latest final with both scores.
    let mut f: usize = sorted.len();
    assert(gv.take(f as int) =~= gv);
    while f > 0 && !(str_eq(sorted[f - 1].state.as_str(), "final") && sorted[f - 1].away.score.is_some()
        && sorted[f - 1].home.score.is_some())
        invariant
            f <= sorted.len(),
            gv == game_views(sorted@),
            last_final(gv) == last_final(gv.take(f as int)),
        decreases f,
    {
        assert(gv.take(f as int).drop_last() =~= gv.take(f - 1));
        assert(gv.take(f as int).last() == gv[f - 1]);
        f = f - 1;
    }
    let game = if f > 0 {
        assert(gv.take(f as int).last() == gv[f - 1]);
        Some(sorted[f - 1].copy())
    } else {
        assert(gv.take(0) =~= Seq::<GameView>::empty());
        None
    };
    // The first game still to come.
    let mut n: usize = 0;
    let mut next: Option<GameLine> = None;
    assert(gv.skip(0) =~= gv);
    while n < sorted.len() && next.is_none()
        invariant
            n <= sorted.len(),
            gv == game_views(sorted@),
            next is None ==> first_next(gv, now_secs as int, now_nanos as int) == first_next(
                gv.skip(n as int),
                now_secs as int,
                now_nanos as int,
            ),
            next matches Some(x) ==> first_next(gv, now_secs as int, now_nanos as int) == Some(x@),
        decreases sorted.len() - n,
    {
        let g = &sorted[n];
        assert(gv.skip(n as int)[0] == gv[n as int]);
        assert(gv.skip(n as int).drop_first() =~= gv.skip(n + 1));
        let soon = if str_eq(g.state.as_str(), "preview") {
            match parse_rfc3339(g.start.as_str()) {
                Some(d) => {
                    let limit = (now_secs as i128) - 3600;
                    (d.secs as i128) > limit || ((d.secs as i128) == limit && d.nanos > now_nanos)
                },
                None => false,
            }
        } else {
            false
        };
        if soon {
            next = Some(g.copy());
        }
        n = n + 1;
    }
    if next.is_none() {
        assert(gv.skip(n as int) =~= Seq::<GameView>::empty());
    }
    ScoreBug { game, next }
}

// ---------------------------------------------------------------- fetching

/// What the bug shows from the schedule service's reply, given as its text:
/// `None` when the reply is not JSON.
pub fn bug_from_reply(body: &str, team_id: u32, now_secs: i64, now_nanos: u32) -> (r: Option<ScoreBug>)
    ensures
        match spec_parse_json(body@) {
            Some(v) => r matches Some(b) && (b@.game, b@.next) == spec_pick(
                v,
                team_id,
                now_secs as int,
                now_nanos as int,
            ),
            None => r is None,
        },
{
    match parse_json(body) {
        Some(v) => Some(pick(&v, team_id, now_secs, now_nanos)),
        None => None,
    }
}

/// Challenges left (away, home) from the live game feed's reply, given as
/// its text.
pub fn challenges_from_reply(body: &str) -> (r: Option<[u32; 2]>)
    ensures
        challenges_view(r) == match spec_parse_json(body@) {
            Some(v) => spec_challenges(v),
            None => None,
        },
{
    match parse_json(body) {
        Some(v) => challenges_from_feed(&v),
        None => None,
    }
}

/// The game whose challenges are worth asking for: the bug's game while it
/// is live.
pub fn live_game_pk(bug: &ScoreBug) -> (r: Option<u64>)
    ensures
        r == match bug.game {
            Some(g) => if g.state@ == "live"@ {
                Some(g.game_pk)
            } else {
                None
            },
            None => None,
        },
{
    match &bug.game {
        Some(g) => if str_eq(g.state.as_str(), "live") {
            Some(g.game_pk)
        } else {
            None
        },
        None => None,
    }
}

/// The situation with the challenges left put in.
pub open spec fn with_challenges_view(s: Option<SituationView>, c: Option<[u32; 2]>) -> Option<SituationView> {
    match s {
        Some(x) => Some(
            SituationView {
                balls: x.balls,
                strikes: x.strikes,
                outs: x.outs,
                bases: x.bases,
                batter: x.batter,
                pitcher: x.pitcher,
                challenges: challenges_view(c),
            },
        ),
        None => None,
    }
}

/// The bug's game with the challenges left put into its situation (a game
/// without one is left as it is).
pub fn with_challenges(bug: ScoreBug, challenges: Option<[u32; 2]>) -> (r: ScoreBug)
    ensures
        r@.next == bug@.next,
        match bug@.game {
            Some(g) => r@.game == Some(
                GameView {
                    game_pk: g.game_pk,
                    state: g.state,
                    detail: g.detail,
                    start: g.start,
                    away: g.away,
                    home: g.home,
                    we_are_home: g.we_are_home,
                    url: g.url,
                    tv: g.tv,
                    situation: with_challenges_view(g.situation, challenges),
                },
            ),
            None => r@.game is None,
        },
{
    let ScoreBug { game, next } = bug;
    let game = match game {
        Some(g) => {
            let GameLine { game_pk, state, detail, start, away, home, we_are_home, url, tv, situation } = g;
            let situation = match situation {
                Some(s) => Some(
                    Situation {
                        balls: s.balls,
                        strikes: s.strikes,
                        outs: s.outs,
                        bases: s.bases,
                        batter: s.batter,
                        pitcher: s.pitcher,
                        challenges,
                    },
                ),
                None => None,
            };
            Some(GameLine { game_pk, state, detail, start, away, home, we_are_home, url, tv, situation })
        },
        None => None,
    };
    ScoreBug { game, next }
}

/// The bug when the ten days around today held no game to show: the game
/// from the wider look back, and the next game from the near look, else
/// from the wide one.
pub fn widen(near: ScoreBug, wide: ScoreBug) -> (r: ScoreBug)
    ensures
        r@.game == wide@.game,
        r@.next == if near.next is Some {
            near@.next
        } else {
            wide@.next
        },
{
    let next = match near.next {
        Some(n) => Some(n),
        None => wide.next,
    };
    ScoreBug { game: wide.game, next }
}

} // verus!
