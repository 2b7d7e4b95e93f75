//! The match analysis, on small games.

use scry::analysis::{
    analyze, assign_picks, clip_candidates, grounds, is_within, AnalysisError, Measured,
};
use scry::candidates::{
    cluster_kill_indices, fight_headcount, priority_pick, role_weight, Candidate, ScoreContext,
};
use scry::game::{find_puuid, team_by_participant, tracked_puuids, Game, Participant};
use scry::highlights::multi_name;
use scry::json::{read, Json, Number};
use scry::moments::{nemesis_moment, Fight, MomentKind};
use scry::picks::{assign_side, overlaps};
use scry::timeline::{
    expected_hp, ledger_sums, parse_timeline, KillEv, Monster, Objective, Timeline,
};

fn participant(id: i32, team_id: u16, puuid: &str, champion: &str, position: &str) -> Participant {
    Participant {
        participant_id: id,
        team_id,
        puuid: puuid.to_string(),
        champion_name: champion.to_string(),
        team_position: position.to_string(),
        riot_id_game_name: Some(puuid.to_string()),
        riot_id_tagline: Some("NA1".to_string()),
        time_ccing_others: 0,
        win: team_id == 100,
        kills: 0,
        deaths: 0,
        assists: 0,
        total_minions_killed: 0,
        neutral_minions_killed: 0,
        total_damage_dealt_to_champions: 0,
        gold_earned: 0,
        vision_score: 0,
        wards_placed: 0,
        wards_killed: 0,
        vision_wards_bought_in_game: 0,
    }
}

/// Five against five: participants 1..=5 are blue, 6..=10 red, and `p<n>` is
/// the PUUID of the `n`th.
fn lobby() -> Game {
    let champions =
        ["Garen", "Vi", "Ahri", "Jinx", "Lulu", "Darius", "Sejuani", "Zed", "Caitlyn", "Thresh"];
    let positions = ["TOP", "JUNGLE", "MIDDLE", "BOTTOM", "UTILITY"];
    let mut participants = Vec::new();
    for i in 0..10usize {
        let team = if i < 5 { 100 } else { 200 };
        let puuid = format!("p{}", i + 1);
        participants.push(participant(i as i32 + 1, team, &puuid, champions[i], positions[i % 5]));
    }
    Game {
        match_id: "NA1_5592214271".to_string(),
        platform_id: "NA1".to_string(),
        queue_id: 420,
        started_at_secs: 1_700_000_000,
        game_duration: 1_800,
        participants,
    }
}

/// Nothing measured: every kill of these games is at whole coordinates.
fn unmeasured() -> Measured {
    Measured { near: Vec::new(), spots: Vec::new() }
}

fn kill_line(t: i64, killer: i32, victim: i32, x: i64) -> String {
    format!(
        r#"{{"type":"CHAMPION_KILL","timestamp":{t},"killerId":{killer},"victimId":{victim},"position":{{"x":{x},"y":5000}},"bounty":300}}"#
    )
}

fn dragon_line(t: i64, killer: i32, team: i32) -> String {
    format!(
        r#"{{"type":"ELITE_MONSTER_KILL","timestamp":{t},"killerId":{killer},"killerTeamId":{team},"monsterType":"DRAGON","monsterSubType":"FIRE_DRAGON","assistingParticipantIds":[]}}"#
    )
}

/// A game that red wins its fights in and squanders, that blue cashes in, and
/// in which the red mid laner (8) keeps dying to the blue one (3) alone.
fn squandered() -> (Game, String) {
    let mut lines: Vec<String> = Vec::new();
    // Red wins three fights, two kills to none, and takes nothing.
    for n in 0..3i64 {
        let t = 200_000 + n * 120_000;
        lines.push(kill_line(t, 6, 1, 3_000));
        lines.push(kill_line(t + 2_000, 7, 2, 3_200));
    }
    // Blue wins three fights, and a dragon follows each.
    for n in 0..3i64 {
        let t = 600_000 + n * 200_000;
        lines.push(kill_line(t, 1, 9, 9_000));
        lines.push(kill_line(t + 2_000, 2, 10, 9_100));
        lines.push(dragon_line(t + 30_000, 2, 100));
    }
    // Zed dies alone, five times, to Ahri.
    for n in 0..5i64 {
        lines.push(kill_line(1_200_000 + n * 60_000, 3, 8, 14_000));
    }
    (lobby(), lines.join("\n"))
}

/// The ledger's `participantId` is asymmetric — dealer in
/// `victimDamageReceived`, recipient in `victimDamageDealt`. One synthetic
/// kill: killer 3 took 500 back from the victim (who also poked participant 4
/// for 200 and a tower for 900), and dealt 800 of the victim's 1000 received.
#[test]
fn ledger_sums_respect_the_participant_id_asymmetry() {
    let ev: Json = read(
        r#"{
            "type": "CHAMPION_KILL", "timestamp": 600000, "killerId": 3, "victimId": 7,
            "victimDamageDealt": [
                {"participantId": 3, "type": "OTHER", "physicalDamage": 500, "magicDamage": 0, "trueDamage": 0},
                {"participantId": 4, "type": "OTHER", "physicalDamage": 0, "magicDamage": 200, "trueDamage": 0},
                {"participantId": 0, "type": "TOWER", "physicalDamage": 900, "magicDamage": 0, "trueDamage": 0}
            ],
            "victimDamageReceived": [
                {"participantId": 3, "type": "OTHER", "physicalDamage": 800, "magicDamage": 0, "trueDamage": 0},
                {"participantId": 4, "type": "OTHER", "physicalDamage": 0, "magicDamage": 200, "trueDamage": 0}
            ]
        }"#,
    )
    .unwrap();
    let sums = ledger_sums(&ev, 3).unwrap();
    assert_eq!(sums.fought_back, 500, "damage the victim dealt to the killer only");
    assert_eq!(sums.dealt_champs, 700, "champion damage only — the tower poke stays out");
    let killer_share = sums.received_killer as f64 / sums.received_all as f64;
    assert!((killer_share - 0.8).abs() < 1e-9, "killer dealt 800 of the 1000 received");
}

/// A ledger whose sum leaves 64 bits gives no timeline.
#[test]
fn ledger_sums_that_do_not_fit_are_refused() {
    let ev: Json = read(
        r#"{"victimDamageReceived": [
            {"participantId": 3, "type": "OTHER", "physicalDamage": 9223372036854775807},
            {"participantId": 3, "type": "OTHER", "physicalDamage": 1}
        ]}"#,
    )
    .unwrap();
    assert!(ledger_sums(&ev, 3).is_none());
}

fn kill(t: i64, killer: i32, killer_team: i32, victim: i32, shutdown: i64) -> KillEv {
    KillEv {
        t,
        killer,
        victim,
        killer_team,
        assists: Vec::new(),
        bounty: 300,
        shutdown,
        fought_back: 0,
        dealt_champs: 0,
        received_killer: 0,
        received_all: 0,
        x: Number::Int(5_000),
        y: Number::Int(5_000),
    }
}

fn objective(t: i64, team: i32, monster: Monster) -> Objective {
    Objective {
        t,
        team,
        monster,
        killer: 0,
        elder: false,
        label: "Baron".to_string(),
        participants: Vec::new(),
    }
}

/// Everything happens at one place here, so every kill is near every other.
fn pick(
    pick_kill: &KillEv,
    history: Vec<KillEv>,
    objectives: Vec<Objective>,
    ctx: &ScoreContext,
) -> Option<(i128, bool, String)> {
    let near: Vec<bool> = history.iter().map(|_| true).collect();
    let tl = Timeline { kills: history, specials: Vec::new(), objectives, first_blood: None };
    priority_pick(&vec![pick_kill], &vec![&near], &tl, 100, ctx).map(|p| (p.threat, p.caught_out, p.who))
}

/// The priority-pick join stacks independent gates — victim threat (role
/// weight + running form, shutdown vouching), converting team, major-only,
/// forward window — plus the caught-out trade check; any one silently
/// inverted would score routine kills or drop real picks.
#[test]
fn priority_pick_gates() {
    // Enemy board: 6 = ADC (queen, 4), 7 = jungler (knight, 3), 8 = support (pawn, 1).
    let ctx = ScoreContext {
        cc_seconds: 0,
        end_ms: 1_800_000,
        enemy_roles: vec![(6, 4, "ADC"), (7, 3, "jungler"), (8, 1, "support")],
        roster: vec![(1, 100), (2, 100), (3, 100), (6, 200), (7, 200), (8, 200)],
    };
    let baron_after = || objective(650_000, 100, Monster::Baron);
    let two_prior = || vec![kill(200_000, 7, 200, 2, 0), kill(300_000, 7, 200, 3, 0)];

    // Threat bar: a 1-kill ADC clears it (4+1), a scoreless ADC and a
    // scoreless jungler do not; a jungler with two prior kills does.
    let adc_kill = kill(600_000, 1, 100, 6, 0);
    let one_prior = vec![kill(300_000, 6, 200, 2, 0)];
    assert_eq!(
        pick(&adc_kill, one_prior, vec![baron_after()], &ctx),
        Some((5, true, "ADC".to_string())),
        "a 1-0 ADC is the queen — and nobody answered, so caught out"
    );
    assert_eq!(pick(&adc_kill, Vec::new(), vec![baron_after()], &ctx), None, "a 0-0 ADC is not yet a threat");
    let jungler_kill = kill(600_000, 1, 100, 7, 0);
    assert_eq!(pick(&jungler_kill, Vec::new(), vec![baron_after()], &ctx), None, "a 0-0 jungler neither");
    assert_eq!(
        pick(&jungler_kill, two_prior(), vec![baron_after()], &ctx),
        Some((5, true, "jungler".to_string())),
        "a 2-0 jungler clears the bar"
    );
    // Shutdown vouches for form the scoreline doesn't show yet.
    let shutdown_kill = kill(600_000, 1, 100, 7, 500);
    assert_eq!(
        pick(&shutdown_kill, Vec::new(), vec![baron_after()], &ctx),
        Some((5, true, "fed jungler".to_string())),
        "a 500g shutdown vouches for the carry"
    );
    // A support never adds up to priority on role alone.
    let support_kill = kill(600_000, 1, 100, 8, 0);
    let support_ahead = vec![kill(200_000, 8, 200, 2, 0), kill(300_000, 8, 200, 3, 0)];
    assert_eq!(
        pick(&support_kill, support_ahead, vec![baron_after()], &ctx),
        None,
        "a 2-0 support is still a pawn"
    );

    // Caught out flips off when their team answers the death in the trade
    // window near the body.
    let answer = kill(602_000, 9, 200, 4, 0);
    let mut answered_history = two_prior();
    answered_history.push(answer);
    assert_eq!(
        pick(&jungler_kill, answered_history, vec![baron_after()], &ctx),
        Some((5, false, "jungler".to_string())),
        "an answered kill was a brawl, not a catch"
    );

    // The conversion gates still hold.
    assert_eq!(
        pick(&jungler_kill, two_prior(), vec![objective(650_000, 200, Monster::Baron)], &ctx),
        None,
        "the ENEMY's take earns nothing"
    );
    assert_eq!(
        pick(&jungler_kill, two_prior(), vec![objective(550_000, 100, Monster::Baron)], &ctx),
        None,
        "the take must FOLLOW the kill"
    );
    assert_eq!(
        pick(&jungler_kill, two_prior(), vec![objective(650_000, 100, Monster::Building)], &ctx),
        None,
        "majors only — a tower is routine"
    );
}

fn candidate(seek: i64, score: i64, summary: &str) -> Candidate {
    Candidate { t_ms: seek * 1000, seek_s: seek, dur_s: 20, summary: summary.to_string(), score }
}

fn summary_for(picks: &Vec<(String, Candidate)>, name: &str) -> String {
    picks.iter().find(|p| p.0 == name).unwrap().1.summary.clone()
}

#[test]
fn assignment_spreads_players_across_distinct_moments() {
    // Both players' best is the same teamfight window; B has a decent
    // alternative elsewhere, so B diverts and the channel gets two different
    // moments.
    let a_cands = || vec![candidate(600, 10, "the teamfight")];
    let b_cands = vec![candidate(605, 8, "the same teamfight"), candidate(900, 6, "a solo pick")];
    let picks = assign_side(&vec![("a".to_string(), a_cands()), ("b".to_string(), b_cands)]);
    assert_eq!(summary_for(&picks, "a"), "the teamfight");
    assert_eq!(summary_for(&picks, "b"), "a solo pick", "diverted off the claimed window");

    // But when the alternative is far weaker, the shared moment stays.
    let c_cands = vec![candidate(605, 9, "the same teamfight again"), candidate(900, 2, "farming")];
    let picks = assign_side(&vec![("a".to_string(), a_cands()), ("c".to_string(), c_cands)]);
    assert_eq!(summary_for(&picks, "c"), "the same teamfight again", "no worthwhile alternative");
}

/// Red wins fights and squanders them, while Blue converts its own.
#[test]
fn conversion_gap_is_the_story() {
    let (game, events) = squandered();
    let moments = analyze(&game, &events, "p8", &unmeasured()).unwrap();

    let (mut red_won, mut red_conv, mut blue_won, mut blue_conv) = (0, 0, 0, 0);
    for m in &moments {
        if let MomentKind::FightConversion { team, converted } = m.kind {
            match team {
                200 => {
                    red_won += 1;
                    red_conv += i32::from(converted);
                }
                100 => {
                    blue_won += 1;
                    blue_conv += i32::from(converted);
                }
                _ => {}
            }
        }
    }
    assert!(red_won >= 3, "expected Red to win >=3 fights, got {red_won}");
    assert!(red_conv * 2 <= red_won, "expected Red to squander most fights ({red_conv}/{red_won} converted)");
    assert!(blue_conv * 2 > blue_won, "expected Blue to convert most fights ({blue_conv}/{blue_won} converted)");
}

/// One player dies for nothing, to one repeat killer, and touches no epics.
#[test]
fn moon_death_and_objective_signals() {
    let (game, events) = squandered();
    let moments = analyze(&game, &events, "p8", &unmeasured()).unwrap();

    let free = moments.iter().filter(|m| matches!(m.kind, MomentKind::Death { free: true })).count();
    assert!(free >= 5, "expected many free deaths, got {free}");
    assert!(moments.iter().any(|m| m.kind == MomentKind::Nemesis), "expected a nemesis moment");
    assert!(
        moments.iter().any(|m| m.kind == MomentKind::ObjectiveAbsence),
        "expected the player absent from all majors"
    );
    assert!(
        moments.iter().any(|m| matches!(m.kind, MomentKind::DragonMonopoly { team: 100 })),
        "expected Blue dragon monopoly"
    );
}

#[test]
fn moments_come_in_order_of_time() {
    let (game, events) = squandered();
    let moments = analyze(&game, &events, "p8", &unmeasured()).unwrap();
    assert!(moments.windows(2).all(|w| w[0].t_ms <= w[1].t_ms));
}

#[test]
fn a_stranger_gets_the_fights_alone() {
    let (game, events) = squandered();
    let moments = analyze(&game, &events, "nobody", &unmeasured()).unwrap();
    assert!(moments.iter().all(|m| matches!(
        m.kind,
        MomentKind::FightConversion { .. } | MomentKind::DragonMonopoly { .. }
    )));
}

#[test]
fn lines_that_are_no_json_are_passed_over() {
    let game = lobby();
    let text = format!("\nnot json\n{}\n\n", kill_line(60_000, 1, 6, 100));
    let tl = parse_timeline(&text, &team_by_participant(&game)).unwrap();
    assert_eq!(tl.kills.len(), 1);
    assert_eq!((tl.kills[0].killer, tl.kills[0].victim, tl.kills[0].killer_team), (1, 6, 100));
}

#[test]
fn silent_lines_change_no_timeline() {
    let lines: Vec<String> = skirmish().lines().map(str::to_string).collect();
    let told = |lines: &Vec<String>| {
        let (highs, lows) = clip_candidates(&lobby(), &lines.join("\n"), "p1", &unmeasured()).unwrap();
        let moments = analyze(&lobby(), &lines.join("\n"), "p1", &unmeasured()).unwrap();
        format!("{highs:?} {lows:?} {moments:?}")
    };
    let plain = told(&lines);
    for silent in ["", "  ", "not json", "7", r#"{"type":"WARD_PLACED","timestamp":601000,"killerId":1}"#] {
        for at in 0..=lines.len() {
            let mut more = lines.clone();
            more.insert(at, silent.to_string());
            assert_eq!(told(&more), plain);
        }
    }
}

#[test]
fn a_long_gap_ends_a_fight() {
    let kills = vec![
        kill(100_000, 1, 100, 6, 0),
        kill(110_000, 1, 100, 7, 0),
        kill(400_000, 6, 200, 1, 0),
    ];
    let fights = cluster_kill_indices(&kills);
    assert_eq!(fights.len(), 2);
    assert_eq!((fights[0].start, fights[0].end), (0, 2));
    assert_eq!((fights[1].start, fights[1].end), (2, 3));
}

#[test]
fn roles_weigh_like_chess_pieces() {
    assert_eq!(role_weight("BOTTOM"), (4, "ADC"));
    assert_eq!(role_weight("MIDDLE"), (3, "mid laner"));
    assert_eq!(role_weight("JUNGLE"), (3, "jungler"));
    assert_eq!(role_weight("TOP"), (2, "top laner"));
    assert_eq!(role_weight("UTILITY"), (1, "support"));
    assert_eq!(role_weight(""), (2, "carry"));
}

#[test]
fn picks_do_not_depend_on_the_order_of_the_players() {
    let (game, events) = squandered();
    let forward = vec!["p1".to_string(), "p2".to_string(), "p3".to_string()];
    let backward = vec!["p3".to_string(), "p1".to_string(), "p2".to_string()];
    let a = assign_picks(&game, &events, &forward, &unmeasured()).unwrap();
    let b = assign_picks(&game, &events, &backward, &unmeasured()).unwrap();
    assert_eq!(a.len(), 3);
    for (x, y) in a.iter().zip(b.iter()) {
        assert_eq!(x.0, y.0);
        assert_eq!(x.1.as_ref().map(|c| c.t_ms), y.1.as_ref().map(|c| c.t_ms));
        assert_eq!(x.2.as_ref().map(|c| c.t_ms), y.2.as_ref().map(|c| c.t_ms));
    }
}

#[test]
fn every_clip_starts_in_the_game() {
    let (game, events) = squandered();
    let (highs, lows) = clip_candidates(&game, &events, "p3", &unmeasured()).unwrap();
    assert!(!highs.is_empty());
    assert!(highs.iter().chain(lows.iter()).all(|c| c.seek_s >= 0 && c.dur_s > 0));
    let (none, nothing) = clip_candidates(&game, &events, "nobody", &unmeasured()).unwrap();
    assert!(none.is_empty() && nothing.is_empty());
}

#[test]
fn the_trade_radius_is_two_thousand_units() {
    assert!(is_within((0, 0), (1_200, 1_600)));
    assert!(!is_within((0, 0), (1_200, 1_601)));
    assert!(is_within((-1_000, 0), (1_000, 0)));
    assert!(!is_within((i64::MIN, 0), (i64::MAX, 0)));
}

#[test]
fn nearness_is_symmetric() {
    let game = lobby();
    let lines = [
        kill_line(60_000, 1, 6, 100),
        kill_line(61_000, 6, 2, 2_100),
        kill_line(62_000, 7, 3, 2_101),
    ];
    let tl = parse_timeline(&lines.join("\n"), &team_by_participant(&game)).unwrap();
    let (near, spots) = grounds(&tl.kills, &unmeasured());
    assert_eq!(
        near,
        vec![vec![true, true, false], vec![true, true, true], vec![false, true, true]]
    );
    assert_eq!(spots, vec!["(100,5000)", "(2100,5000)", "(2101,5000)"]);
}

/// The same death is traded beside an allied kill and free far from it.
#[test]
fn a_trade_needs_a_kill_close_by() {
    let game = lobby();
    for (x, free) in [(3_000, false), (9_000, true)] {
        let lines = [kill_line(62_000, 2, 6, 3_000), kill_line(64_000, 7, 1, x)];
        let moments = analyze(&game, &lines.join("\n"), "p1", &unmeasured()).unwrap();
        let death = moments.iter().find(|m| matches!(m.kind, MomentKind::Death { .. })).unwrap();
        assert_eq!(death.kind, MomentKind::Death { free });
        assert_eq!(death.evidence, vec![format!("death at ({x},5000)")]);
    }
}

/// What was measured counts where coordinates are no whole numbers, and only
/// there.
#[test]
fn kills_off_the_grid_go_by_what_was_measured() {
    let game = lobby();
    let lines = [
        kill_line(62_000, 2, 6, 3_000),
        r#"{"type":"CHAMPION_KILL","timestamp":64000,"killerId":7,"victimId":1,"position":{"x":3000.5,"y":5000}}"#
            .to_string(),
        kill_line(65_000, 7, 2, 90_000),
    ];
    let spots = || vec!["(0,0)".to_string(), "(3000,5000)".to_string(), "(0,0)".to_string()];
    for traded in [true, false] {
        let near = vec![vec![false, traded, false], vec![traded, true, false], vec![true, true, true]];
        let measured = Measured { near, spots: spots() };
        let moments = analyze(&game, &lines.join("\n"), "p1", &measured).unwrap();
        let death = moments.iter().find(|m| matches!(m.kind, MomentKind::Death { .. })).unwrap();
        assert_eq!(death.kind, MomentKind::Death { free: !traded });
        assert_eq!(death.evidence, vec!["death at (3000,5000)"]);
        let other = analyze(&game, &lines.join("\n"), "p2", &measured).unwrap();
        let death = other.iter().find(|m| matches!(m.kind, MomentKind::Death { .. })).unwrap();
        assert_eq!(death.kind, MomentKind::Death { free: true });
        assert_eq!(death.evidence, vec!["death at (90000,5000)"]);
    }
}

#[test]
fn sums_out_of_range_are_refused() {
    let game = lobby();
    let big = i64::MAX;
    let over = format!(
        r#"{{"type":"CHAMPION_KILL","timestamp":1,"killerId":1,"victimId":6,"victimDamageReceived":[{{"physicalDamage":{big},"magicDamage":1}}]}}"#
    );
    assert_eq!(analyze(&game, &over, "p1", &unmeasured()).unwrap_err(), AnalysisError::OutOfRange);
    let rich = format!(
        r#"{{"type":"CHAMPION_KILL","timestamp":1,"killerId":1,"victimId":6,"bounty":{big},"shutdownBounty":1}}"#
    );
    assert!(analyze(&game, &rich, "p1", &unmeasured()).is_ok());
    assert_eq!(clip_candidates(&game, &rich, "p1", &unmeasured()).unwrap_err(), AnalysisError::OutOfRange);
}

#[test]
fn half_an_overlap_is_not_the_same_footage() {
    let c = candidate(100, 1, "");
    assert!(overlaps(&c, (109, 129)));
    assert!(!overlaps(&c, (110, 130)));
    assert!(!overlaps(&c, (120, 140)));
    assert!(overlaps(&c, (115, 119)));
}

#[test]
fn expected_health_grows_with_the_clock() {
    assert!(expected_hp(0) <= expected_hp(600_000));
    assert!(expected_hp(600_000) <= expected_hp(1_800_000));
}

#[test]
fn riot_ids_compare_without_case() {
    let game = lobby();
    assert_eq!(find_puuid(&game, "P3#na1"), Some("p3".to_string()));
    assert_eq!(find_puuid(&game, "p3#EUW"), None);
    assert_eq!(find_puuid(&game, "p3"), None);
    let roster = vec!["P2#NA1".to_string(), "p9".to_string(), "p7#na1".to_string(), "x#y".to_string()];
    assert_eq!(tracked_puuids(&game, &roster), vec!["p2".to_string(), "p7".to_string()]);
}

/// Garen kills two, the second with Vi's help, and they take a drake from it.
fn skirmish() -> String {
    [
        r#"{"type":"CHAMPION_KILL","timestamp":600000,"killerId":1,"victimId":6,"bounty":300,"position":{"x":3000,"y":3000}}"#,
        r#"{"type":"CHAMPION_KILL","timestamp":604000,"killerId":1,"victimId":9,"bounty":450,"shutdownBounty":150,"assistingParticipantIds":[2],"position":{"x":3100,"y":3000}}"#,
        r#"{"type":"CHAMPION_SPECIAL_KILL","killType":"KILL_MULTI","timestamp":604000,"killerId":1,"multiKillLength":2}"#,
        r#"{"type":"ELITE_MONSTER_KILL","timestamp":650000,"killerId":2,"killerTeamId":100,"monsterType":"DRAGON","monsterSubType":"FIRE_DRAGON","assistingParticipantIds":[1]}"#,
    ]
    .join("\n")
}

#[test]
fn a_fight_is_scored_and_told() {
    let (highs, lows) = clip_candidates(&lobby(), &skirmish(), "p1", &unmeasured()).unwrap();
    assert!(lows.is_empty());
    assert_eq!(highs.len(), 1);
    assert_eq!(
        highs[0].summary,
        "you went 2/0/0 in a fight, a double kill, incl. a solo kill, walked away; the Infernal Dragon followed (+900g)"
    );
    assert_eq!((highs[0].t_ms, highs[0].seek_s, highs[0].dur_s, highs[0].score), (600_000, 593, 17, 32));
}

#[test]
fn a_secured_objective_is_scored_and_told() {
    let (highs, _) = clip_candidates(&lobby(), &skirmish(), "p2", &unmeasured()).unwrap();
    assert_eq!(highs.len(), 2);
    assert_eq!(
        highs[0].summary,
        "you went 0/0/1 in a fight, walked away; the Infernal Dragon followed (+0g)"
    );
    assert_eq!((highs[0].t_ms, highs[0].seek_s, highs[0].dur_s, highs[0].score), (604_000, 597, 13, 7));
    assert_eq!(
        highs[1].summary,
        "you secured the Infernal Dragon (your smite, barely contested — a steal or solo secure)"
    );
    assert_eq!((highs[1].t_ms, highs[1].seek_s, highs[1].dur_s, highs[1].score), (650_000, 643, 20, 11));
}

#[test]
fn a_death_is_scored_and_told() {
    let (highs, lows) = clip_candidates(&lobby(), &skirmish(), "p6", &unmeasured()).unwrap();
    assert!(highs.is_empty());
    assert_eq!(lows.len(), 1);
    assert_eq!(lows[0].summary, "caught by Garen (free death), melted without a fight");
    assert_eq!((lows[0].t_ms, lows[0].seek_s, lows[0].dur_s, lows[0].score), (600_000, 593, 16, 9));
}

#[test]
fn moments_are_told() {
    let moments = analyze(&lobby(), &skirmish(), "p6", &unmeasured()).unwrap();
    assert_eq!(moments.len(), 2);
    assert_eq!(moments[0].summary, "You died to Garen at 10:00 with no trade (a free death)");
    assert_eq!(moments[0].evidence, vec!["death at (3000,3000)"]);
    assert_eq!(
        moments[1].summary,
        "Blue side won a 2-0 fight at 10:04 and converted it into the Infernal Dragon at 10:50"
    );
    assert_eq!(moments[1].evidence, vec!["fight 2-0 (10:00–10:04)", "the Infernal Dragon at 10:50"]);
}

#[test]
fn takes_are_labelled() {
    let label = |line: &str| {
        let tl = parse_timeline(line, &Vec::new()).unwrap();
        tl.objectives.first().map(|o| (o.label.clone(), o.monster, o.elder, o.participants.clone()))
    };
    let monster = |kind: &str, sub: &str, team: i32| {
        format!(
            r#"{{"type":"ELITE_MONSTER_KILL","timestamp":1,"killerId":4,"killerTeamId":{team},"monsterType":"{kind}"{sub}}}"#
        )
    };
    assert_eq!(
        label(&monster("DRAGON", r#","monsterSubType":"ELDER_DRAGON""#, 200)),
        Some(("the Elder Dragon".to_string(), Monster::Dragon, true, vec![4]))
    );
    assert_eq!(label(&monster("DRAGON", "", 100)).unwrap().0, "a Dragon");
    assert_eq!(
        label(&monster("DRAGON", r#","monsterSubType":"NEW_DRAGON""#, 100)).unwrap().0,
        "the elemental Dragon"
    );
    assert_eq!(label(&monster("BARON_NASHOR", "", 100)).unwrap().0, "Baron");
    assert_eq!(label(&monster("RIFTHERALD", "", 100)).unwrap().0, "Rift Herald");
    assert_eq!(label(&monster("HORDE", "", 100)).unwrap().0, "a Void Grub");
    assert_eq!(
        label(&monster("ATAKHAN", "", 100)),
        Some(("an objective".to_string(), Monster::Unknown, false, vec![4]))
    );
    assert_eq!(label(&monster("BARON_NASHOR", "", 300)), None, "nobody secured it");

    let tower = r#"{"type":"BUILDING_KILL","timestamp":1,"teamId":100,"buildingType":"TOWER_BUILDING"}"#;
    let tl = parse_timeline(tower, &Vec::new()).unwrap();
    assert_eq!((tl.objectives[0].team, tl.objectives[0].label.as_str()), (200, "a tower"));
    let inhibitor = r#"{"type":"BUILDING_KILL","timestamp":1,"teamId":200,"buildingType":"INHIBITOR_BUILDING"}"#;
    let tl = parse_timeline(inhibitor, &Vec::new()).unwrap();
    assert_eq!((tl.objectives[0].team, tl.objectives[0].label.as_str()), (100, "an inhibitor"));
}

#[test]
fn a_headcount_counts_everyone_once() {
    let game = lobby();
    let roster = team_by_participant(&game);
    let tl = parse_timeline(&skirmish(), &roster).unwrap();
    assert_eq!(fight_headcount(&tl.kills, 0, 2, &roster, 100), (2, 2));
    assert_eq!(fight_headcount(&tl.kills, 0, 1, &roster, 100), (1, 1));
    assert_eq!(fight_headcount(&tl.kills, 0, 2, &roster, 200), (2, 2));
    // 7 kills 1 and is then executed: they stand with their own team.
    let executed = [kill_line(600_000, 7, 1, 100), kill_line(600_000, 0, 7, 100)].join("\n");
    let tl = parse_timeline(&executed, &roster).unwrap();
    assert_eq!(fight_headcount(&tl.kills, 0, 2, &roster, 100), (1, 1));
    assert_eq!(fight_headcount(&tl.kills, 0, 2, &roster, 200), (1, 1));
}

#[test]
fn a_won_fight_needs_a_lead_of_two() {
    let fight = |kills: Vec<i32>| Fight { start: 0, end: 5_000, kills };
    assert_eq!(fight(vec![100, 100, 200]).winner(), None);
    assert_eq!(fight(vec![100, 100, 100, 200]).winner(), Some(100));
    assert_eq!(fight(vec![200, 200]).winner(), Some(200));
    assert_eq!(fight(vec![200, 200, 200, 200, 100, 100]).winner(), None);
}

#[test]
fn a_nemesis_takes_more_than_half() {
    let game = lobby();
    let deaths = |killers: &[i32]| {
        let lines: Vec<String> =
            killers.iter().enumerate().map(|(i, k)| kill_line(i as i64 * 60_000, *k, 1, 100)).collect();
        let tl = parse_timeline(&lines.join("\n"), &team_by_participant(&game)).unwrap();
        nemesis_moment(&tl.kills, 1, &game).map(|m| m.summary)
    };
    assert_eq!(deaths(&[6, 6, 7, 8]), None);
    assert_eq!(
        deaths(&[6, 6, 7]),
        Some("Darius was your nemesis — 2 of your 3 deaths".to_string())
    );
    assert_eq!(deaths(&[6, 6]), None);
}

#[test]
fn another_monster_does_not_end_a_dragon_monopoly() {
    let atakhan = r#"{"type":"ELITE_MONSTER_KILL","timestamp":900000,"killerId":7,"killerTeamId":200,"monsterType":"ATAKHAN"}"#;
    let lines = [
        dragon_line(300_000, 2, 100),
        dragon_line(600_000, 2, 100),
        dragon_line(800_000, 2, 100),
        atakhan.to_string(),
    ];
    let moments = analyze(&lobby(), &lines.join("\n"), "p1", &unmeasured()).unwrap();
    assert!(moments.iter().any(|m| m.kind == MomentKind::DragonMonopoly { team: 100 }));
}

#[test]
fn multikills_have_names() {
    let names: Vec<&str> = (1..7i64).map(multi_name).collect();
    assert_eq!(
        names,
        vec!["multikill", "double kill", "triple kill", "quadra kill", "pentakill", "pentakill"]
    );
}
