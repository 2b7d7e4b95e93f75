//! Texts, JSON, archives, charts and summaries.

use scry::archive::{files_of, slim_frame};
use scry::charts::{
    damage_rows, gold_lead, gold_point, gold_scale, lobby_ranks, max_damage, ranking_bars,
    ChartError, GoldPoint, Tone,
};
use scry::game::{Game, Participant};
use scry::json::{build, read, Json, Number};
use scry::record::read_game;
use scry::summary::parse;
use scry::text::{
    contains, decimal, decimal2, lines, mmss, natural, parse_at_most, precedes, rsplit_once,
    same_ignoring_case, signed_decimal, split, split_once, strip_prefix, trim,
};
use scry::timeline::read_events;


#[test]
fn numbers_are_written_in_decimal() {
    assert_eq!(natural(0), "0");
    assert_eq!(natural(u128::MAX), "340282366920938463463374607431768211455");
    assert_eq!(decimal(-120), "-120");
    assert_eq!(decimal2(7), "07");
    assert_eq!(decimal2(-7), "-7");
    assert_eq!(signed_decimal(18), "+18");
    assert_eq!(signed_decimal(-15), "-15");
    assert_eq!(signed_decimal(0), "+0");
    assert_eq!(mmss(125_999), "2:05");
    assert_eq!(mmss(3_600_000), "60:00");
}

#[test]
fn numbers_are_read_up_to_a_limit() {
    assert_eq!(parse_at_most("420", 1_000), Some(420));
    assert_eq!(parse_at_most("+7", 1_000), Some(7));
    assert_eq!(parse_at_most("1001", 1_000), None);
    assert_eq!(parse_at_most("", 1_000), None);
    assert_eq!(parse_at_most("+", 1_000), None);
    assert_eq!(parse_at_most("-1", 1_000), None);
    assert_eq!(parse_at_most("18446744073709551615", u64::MAX), Some(u64::MAX));
    assert_eq!(parse_at_most("18446744073709551616", u64::MAX), None);
}

#[test]
fn texts_are_cut_like_std_cuts_them() {
    for s in ["", "a", "a\n", "a\r\nb", "\n\n", "a\r", "x\n\r\n y "] {
        let expected: Vec<String> = s.lines().map(str::to_string).collect();
        assert_eq!(lines(s), expected);
        let pieces: Vec<String> = s.split('\n').map(str::to_string).collect();
        assert_eq!(split(s, '\n'), pieces);
        assert_eq!(trim(s), s.trim());
    }
    assert_eq!(split_once("a#b#c", '#'), Some(("a".to_string(), "b#c".to_string())));
    assert_eq!(rsplit_once("a#b#c", '#'), Some(("a#b".to_string(), "c".to_string())));
    assert_eq!(split_once("abc", '#'), None);
    assert_eq!(strip_prefix("## x", "## "), Some("x".to_string()));
    assert_eq!(strip_prefix("# x", "## "), None);
    assert!(contains("\"Lobby\"", "Lobby") && !contains("Lob", "Lobby"));
    assert!(same_ignoring_case("MoOn", "mOoN") && !same_ignoring_case("É", "é"));
    assert!(precedes("a", "ab") && precedes("B", "a") && !precedes("a", "a"));
}

#[test]
fn equal_bars_keep_their_places() {
    let mut game = lobby();
    for p in &mut game.participants {
        p.total_damage_dealt_to_champions = 7;
    }
    game.participants[0].total_damage_dealt_to_champions = 8;
    let rows = damage_rows(&game, "p1").unwrap();
    let names: Vec<&str> = rows.iter().map(|r| r.champion.as_str()).collect();
    assert_eq!(names, vec!["C2", "C3", "C1"]);
}

#[test]
fn json_is_read_as_a_tree() {
    let j = read(r#"{"b":[1,2.5,null,true],"a":{"x":"é"},"n":18446744073709551615}"#).unwrap();
    assert!(j.get("a").unwrap().str_is("x", "é"));
    let items = j.array_at("b").unwrap();
    assert_eq!(items[0].as_i64(), Some(1));
    assert!(matches!(&items[1], Json::Num(Number::Real(t)) if t == "2.5"));
    assert!(matches!(&items[2], Json::Null));
    assert!(matches!(&items[3], Json::Bool(true)));
    assert_eq!(j.int_at("n"), None);
    assert!(matches!(j.number_at("n"), Some(Number::Real(t)) if t == "18446744073709551615"));
    assert_eq!(j.int_or_zero("missing"), 0);
    assert!(read("{").is_none());
    assert!(read("").is_none());
}

fn parsed(s: &str) -> serde_json::Value {
    serde_json::from_str(s).unwrap()
}

const TIMELINE: &str = r#"{"info":{"frames":[
    {"timestamp":0,"events":[{"type":"PAUSE_END","timestamp":0}],
     "participantFrames":{"1":{"participantId":2,"totalGold":500,"xp":0,"level":1,"minionsKilled":0,
        "jungleMinionsKilled":0,"position":{"x":1,"y":2},"championStats":{"armor":30}},
        "2":{"participantId":1,"totalGold":600}}},
    {"timestamp":60000,"events":[{"type":"B","timestamp":1},{"type":"C","note":"two\nlines"}]}
]}}"#;

#[test]
fn an_archive_keeps_events_and_slim_frames() {
    let files = files_of(&parsed(r#"{"b":1,"a":[2]}"#), parsed(TIMELINE));
    assert_eq!(files.match_json, "{\n  \"a\": [\n    2\n  ],\n  \"b\": 1\n}");
    assert_eq!(
        files.events_jsonl,
        "{\"timestamp\":0,\"type\":\"PAUSE_END\"}\n{\"timestamp\":1,\"type\":\"B\"}\n{\"note\":\"two\\nlines\",\"type\":\"C\"}\n"
    );
    let frames = lines(&files.frames_jsonl);
    assert_eq!(frames.len(), 2);
    assert_eq!(
        frames[0],
        "{\"participants\":[{\"jungleMinionsKilled\":null,\"level\":null,\"minionsKilled\":null,\"participantId\":1,\"position\":null,\"totalGold\":600,\"xp\":null},{\"jungleMinionsKilled\":0,\"level\":1,\"minionsKilled\":0,\"participantId\":2,\"position\":{\"x\":1,\"y\":2},\"totalGold\":500,\"xp\":0}],\"timestamp\":0}"
    );
    assert_eq!(frames[1], "{\"participants\":[],\"timestamp\":60000}");
}

#[test]
fn archived_events_read_back() {
    let files = files_of(&parsed("null"), parsed(TIMELINE));
    let events = read_events(&files.events_jsonl);
    assert_eq!(events.len(), 3);
    assert!(events[2].str_is("note", "two\nlines"));
    assert_eq!(events[1].int_at("timestamp"), Some(1));
}

#[test]
fn an_odd_timeline_archives_as_nothing() {
    for odd in ["null", "[]", r#"{"info":1}"#, r#"{"info":{"frames":{}}}"#] {
        let files = files_of(&parsed("null"), parsed(odd));
        assert_eq!((files.events_jsonl.as_str(), files.frames_jsonl.as_str()), ("", ""));
    }
    let files = files_of(&parsed("null"), parsed(r#"{"info":{"frames":[7]}}"#));
    assert_eq!(files.frames_jsonl, "{\"participants\":[],\"timestamp\":null}\n");
    let slim = build(slim_frame(parsed(r#"{"xp":3,"other":1}"#)));
    assert_eq!(slim.int_at("xp"), Some(3));
    assert!(slim.get("other").is_none());
}

fn participant(id: i32, team_id: u16) -> Participant {
    Participant {
        participant_id: id,
        team_id,
        puuid: format!("p{id}"),
        champion_name: format!("C{id}"),
        team_position: String::new(),
        riot_id_game_name: None,
        riot_id_tagline: None,
        time_ccing_others: 0,
        win: false,
        kills: id,
        deaths: 1,
        assists: 0,
        total_minions_killed: 0,
        neutral_minions_killed: 0,
        total_damage_dealt_to_champions: 100 * id,
        gold_earned: 50,
        vision_score: -id,
        wards_placed: 0,
        wards_killed: 0,
        vision_wards_bought_in_game: 0,
    }
}

fn lobby() -> Game {
    Game {
        match_id: "NA1_1".to_string(),
        platform_id: "NA1".to_string(),
        queue_id: 450,
        started_at_secs: 0,
        game_duration: 60,
        participants: vec![participant(1, 100), participant(2, 200), participant(3, 100)],
    }
}

#[test]
fn gold_leads_count_for_one_team() {
    let frames = "{\"timestamp\":60000,\"participants\":[{\"participantId\":1,\"totalGold\":500},{\"participantId\":2,\"totalGold\":300},{\"participantId\":9,\"totalGold\":50}]}\n\n{\"timestamp\":1.5}\n";
    let points = gold_lead(&lobby(), frames, "p1").unwrap();
    assert_eq!(points.len(), 2);
    assert_eq!(points[0].lead, 150);
    assert!(matches!(points[0].at, Some(Number::Int(60_000))));
    assert_eq!(points[1].lead, 0);
    let red = gold_lead(&lobby(), frames, "p2").unwrap();
    assert_eq!(red[0].lead, -250);
    assert_eq!(gold_point(&lobby().participants, 100, &Json::Null).lead, 0);
}

#[test]
fn charts_refuse_what_they_cannot_read() {
    assert_eq!(gold_lead(&lobby(), "{}", "nobody").unwrap_err(), ChartError::PlayerNotFound);
    assert_eq!(gold_lead(&lobby(), "{}\n\n{", "p1").unwrap_err(), ChartError::BadFrame(1));
    assert!(damage_rows(&lobby(), "nobody").is_none());
    assert!(lobby_ranks(&lobby(), "nobody").is_none());
}

#[test]
fn damage_bars_ascend() {
    let rows = damage_rows(&lobby(), "p2").unwrap();
    let names: Vec<&str> = rows.iter().map(|r| r.champion.as_str()).collect();
    assert_eq!(names, vec!["C1", "C2", "C3"]);
    assert!(rows[1].player && rows[1].ally && !rows[0].ally);
    assert_eq!(max_damage(&rows), 300);
    assert_eq!(max_damage(&Vec::new()), 1);
}

#[test]
fn places_count_who_did_better() {
    let ranks = lobby_ranks(&lobby(), "p2").unwrap();
    assert_eq!((ranks.damage, ranks.gold, ranks.kda, ranks.vision), (2, 1, 2, 2));
    let mut game = lobby();
    game.participants[0].deaths = 0;
    game.participants[0].kills = 3;
    // 3/1 against 3/1: a draw is nobody's gain.
    assert_eq!(lobby_ranks(&game, "p1").unwrap().kda, 1);
}

#[test]
fn the_gold_axis_holds_every_lead() {
    let at = |lead: i128| GoldPoint { at: None, lead };
    assert_eq!(gold_scale(&Vec::new()), 1_500);
    assert_eq!(gold_scale(&vec![at(1_499), at(-1_500)]), 1_500);
    assert_eq!(gold_scale(&vec![at(2_000), at(-7_250), at(40)]), 7_250);
}

#[test]
fn bars_are_told_apart() {
    let rows = damage_rows(&lobby(), "p1").unwrap();
    let tones: Vec<Tone> = rows.iter().map(|r| r.tone()).collect();
    assert_eq!(tones, vec![Tone::Ally, Tone::Enemy, Tone::Ally]);
    assert!(rows[0].player && !rows[2].player);
    let bars = ranking_bars(&lobby(), "p2").unwrap();
    let shown: Vec<(&str, usize, usize)> =
        bars.iter().map(|b| (b.label, b.place, b.beaten)).collect();
    assert_eq!(shown, vec![("Damage", 2, 1), ("Gold", 1, 2), ("KDA", 2, 1), ("Vision", 2, 1)]);
    assert!(ranking_bars(&lobby(), "nobody").is_none());
}

#[test]
fn markdown_is_cut_at_its_headings() {
    let s = parse("preamble\n## One \n a\n\nb\n## Two\n##Three\n## ");
    assert_eq!(
        s.sections,
        vec![
            ("One".to_string(), "a\n\nb".to_string()),
            ("Two".to_string(), "##Three".to_string()),
            (String::new(), String::new()),
        ]
    );
    assert!(parse("no headings\nat all").sections.is_empty());
}

/// The counters of a participant that nothing here reads.
const UNREAD: [&str; 63] = [
    "baronKills", "champExperience", "champLevel", "championTransform", "consumablesPurchased",
    "damageDealtToObjectives", "damageDealtToTurrets", "damageSelfMitigated", "detectorWardsPlaced",
    "doubleKills", "dragonKills", "goldSpent", "inhibitorKills", "item0", "item1", "item2", "item3",
    "item4", "item5", "item6", "itemsPurchased", "killingSprees", "largestCriticalStrike",
    "largestKillingSpree", "largestMultiKill", "longestTimeSpentLiving", "magicDamageDealt",
    "magicDamageDealtToChampions", "magicDamageTaken", "nexusKills", "objectivesStolen",
    "objectivesStolenAssists", "pentaKills", "physicalDamageDealt",
    "physicalDamageDealtToChampions", "physicalDamageTaken", "profileIcon", "quadraKills",
    "sightWardsBoughtInGame", "spell1Casts", "spell2Casts", "spell3Casts", "spell4Casts",
    "summoner1Casts", "summoner1Id", "summoner2Casts", "summoner2Id", "summonerLevel", "timePlayed",
    "totalDamageDealt", "totalDamageShieldedOnTeammates", "totalDamageTaken", "totalHeal",
    "totalHealsOnTeammates", "totalTimeCCDealt", "totalTimeSpentDead", "totalUnitsHealed",
    "tripleKills", "trueDamageDealt", "trueDamageDealtToChampions", "trueDamageTaken",
    "turretKills", "unrealKills",
];

/// A match record with one participant, in full.
fn record(start: i64) -> String {
    let mut fields: Vec<String> = UNREAD.iter().map(|name| format!("\"{name}\":0")).collect();
    for flag in [
        "firstBloodAssist",
        "firstBloodKill",
        "firstTowerAssist",
        "firstTowerKill",
        "gameEndedInEarlySurrender",
        "gameEndedInSurrender",
        "teamEarlySurrendered",
    ] {
        fields.push(format!("\"{flag}\":false"));
    }
    for word in ["individualPosition", "lane", "role", "summonerId", "summonerName"] {
        fields.push(format!("\"{word}\":\"x\""));
    }
    let rest = fields.join(",");
    format!(
        r#"{{"metadata":{{"dataVersion":"2","matchId":"KR_42","participants":["p-1"]}},
        "info":{{"gameCreation":1,"gameDuration":1801,"gameId":42,"gameMode":"CLASSIC","gameName":"g",
        "gameStartTimestamp":{start},"gameType":"MATCHED_GAME","gameVersion":"16.3.1","mapId":11,
        "platformId":"KR","queueId":440,"teams":[],"participants":[{{
        "participantId":7,"teamId":200,"puuid":"p-1","championName":"Ahri","championId":103,
        "teamPosition":"MIDDLE","riotIdGameName":"Moon","riotIdTagline":"132","timeCCingOthers":11,
        "win":true,"kills":1,"deaths":2,"assists":3,"totalMinionsKilled":4,"neutralMinionsKilled":5,
        "totalDamageDealtToChampions":6,"goldEarned":8,"visionScore":9,"wardsPlaced":10,"wardsKilled":12,
        "visionWardsBoughtInGame":13,"perks":{{"statPerks":{{"defense":0,"flex":0,"offense":0}},"styles":[]}},
        {rest}}}]}}}}"#
    )
}

#[test]
fn match_records_are_read() {
    let game = read_game(&record(1_700_000_000_999)).unwrap();
    assert_eq!((game.match_id.as_str(), game.platform_id.as_str(), game.queue_id), ("KR_42", "KR", 440));
    assert_eq!((game.started_at_secs, game.game_duration), (1_700_000_000, 1_801));
    assert_eq!(game.participants.len(), 1);
    let p = &game.participants[0];
    assert_eq!((p.participant_id, p.team_id, p.puuid.as_str()), (7, 200, "p-1"));
    assert_eq!((p.champion_name.as_str(), p.team_position.as_str()), ("Ahri", "MIDDLE"));
    assert_eq!(p.riot_id_game_name.as_deref(), Some("Moon"));
    assert_eq!(p.riot_id_tagline.as_deref(), Some("132"));
    assert_eq!((p.win, p.kills, p.deaths, p.assists), (true, 1, 2, 3));
    assert_eq!((p.total_minions_killed, p.neutral_minions_killed), (4, 5));
    assert_eq!((p.total_damage_dealt_to_champions, p.gold_earned), (6, 8));
    assert_eq!((p.vision_score, p.wards_placed, p.wards_killed), (9, 10, 12));
    assert_eq!((p.vision_wards_bought_in_game, p.time_ccing_others), (13, 11));
    assert_eq!(read_game(&record(-1_500)).unwrap().started_at_secs, -1);
    assert!(read_game("{}").is_none());
    assert!(read_game("not json").is_none());
}

#[test]
fn archived_records_read_back() {
    let text = r#"{"a":[1,{"b":null}],"c":"d\ne"}"#;
    let files = files_of(&parsed(text), parsed(TIMELINE));
    assert!(files.match_json.contains('\n'));
    assert_eq!(parsed(&files.match_json), parsed(text));
}
