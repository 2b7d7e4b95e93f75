//! Summaries, standings, messages and what is kept of a post.

use scry::candidates::Candidate;
use scry::discord::{
    edit_payload, id_in, message_id, mime_of, part_name, result_color, stats_message, stats_text,
    thousands, Clip, Rates, Webhook,
};
use scry::game::{Game, Participant};
use scry::journal::Projection;
use scry::json::{read, Json};
use scry::kinds::{ClipPick, PicksAssigned, RankObserved};
use scry::moments::{Moment, MomentKind};
use scry::post::{
    attached_event, checked_observe, client_for, clip_file, clip_note, game_patch, journal_picks,
    journaled_line, lp_source, message_to_edit, observe, own_picks, package, patch_of,
    posted_event, replay_patch, LpSource, PostError,
};
use scry::rank::{queue_type, rank_from_entries, tier_index, titlecase, Rank};
use scry::report::report;
use scry::riot::{
    account_key, parse_platform, riot_id_of, to_regional, web_region_slug, Client, Platform,
    Regional,
};
use scry::stats::{non_empty, summarize, summary_line, MatchSummary, RankInfo, RenderContext};
use scry::timeline::Timeline;

fn player(champion: &str) -> Participant {
    Participant {
        participant_id: 1,
        team_id: 100,
        puuid: "p1".to_string(),
        champion_name: champion.to_string(),
        team_position: "MIDDLE".to_string(),
        riot_id_game_name: Some("Hide on bush".to_string()),
        riot_id_tagline: Some("KR1".to_string()),
        time_ccing_others: 0,
        win: true,
        kills: 7,
        deaths: 2,
        assists: 5,
        total_minions_killed: 180,
        neutral_minions_killed: 12,
        total_damage_dealt_to_champions: 18_420,
        gold_earned: 11_005,
        vision_score: 21,
        wards_placed: 9,
        wards_killed: 3,
        vision_wards_bought_in_game: 2,
    }
}

fn game_of(p: Participant) -> Game {
    Game {
        match_id: "KR_7100".to_string(),
        platform_id: "KR".to_string(),
        queue_id: 420,
        started_at_secs: 1_700_000_000,
        game_duration: 1_519,
        participants: vec![p],
    }
}

fn context() -> RenderContext<'static> {
    RenderContext { region_slug: "kr", fallback_name: "Faker", fallback_tag: "T1" }
}

fn summary() -> MatchSummary {
    summarize(&game_of(player("Ahri")), "p1", &context()).unwrap()
}

fn rates() -> Rates {
    Rates { kda: "6.00".to_string(), cs_per_min: "7.6".to_string(), vision_per_min: "0.83".to_string() }
}

fn rank(tier: &str, division: &str, lp: i32) -> Rank {
    Rank { tier: tier.to_string(), division: division.to_string(), lp }
}

// --- summaries -------------------------------------------------------------------------

#[test]
fn a_summary_holds_the_player_s_line() {
    let s = summary();
    assert_eq!(s.player, "Hide on bush #KR1");
    assert_eq!(s.champion, "Ahri");
    assert_eq!(
        s.icon_url,
        "https://raw.communitydragon.org/latest/plugins/rcp-be-lol-game-data/global/default/v1/champion-icons/103.png"
    );
    assert_eq!(s.profile_url, "https://www.op.gg/summoners/kr/Hide%20on%20bush-KR1");
    assert_eq!((s.cs, s.kills, s.deaths, s.assists), (192, 7, 2, 5));
    assert_eq!((s.queue.as_str(), s.side.as_str()), ("Ranked Solo", "Blue"));
    assert_eq!(s.kda(), (12, 2));
    assert!(s.rank.is_none());
}

#[test]
fn champions_go_by_their_display_names() {
    // The match calls Wukong by an older name.
    let s = summarize(&game_of(player("MonkeyKing")), "p1", &context()).unwrap();
    assert_eq!(s.champion, "Wukong");
    assert!(s.icon_url.ends_with("/62.png"));
}

#[test]
fn an_unknown_champion_keeps_its_name() {
    let s = summarize(&game_of(player("???")), "p1", &context()).unwrap();
    assert_eq!(s.champion, "???");
    assert!(s.icon_url.ends_with("/-1.png"));
    let named = summary_line(&game_of(player("x")), 0, &context(), Some(7), Some("Y".to_string()));
    assert_eq!(named.champion, "Y");
    assert!(named.icon_url.ends_with("/7.png"));
}

#[test]
fn missing_names_fall_back() {
    let mut p = player("Ahri");
    p.riot_id_game_name = Some(String::new());
    p.riot_id_tagline = None;
    let s = summarize(&game_of(p), "p1", &context()).unwrap();
    assert_eq!(s.player, "Faker #T1");
    assert_eq!(non_empty(&Some("x".to_string())), Some("x".to_string()));
    assert_eq!(non_empty(&Some(String::new())), None);
    assert!(summarize(&game_of(player("Ahri")), "p2", &context()).is_none());
}

#[test]
fn names_are_percent_encoded() {
    let mut p = player("Ahri");
    p.riot_id_game_name = Some("ñ/~a-b.c_".to_string());
    let s = summarize(&game_of(p), "p1", &context()).unwrap();
    assert_eq!(s.profile_url, "https://www.op.gg/summoners/kr/%C3%B1%2F~a-b.c_-KR1");
}

#[test]
fn a_deathless_game_is_a_perfect_ratio() {
    let mut p = player("Ahri");
    p.deaths = 0;
    assert_eq!(summarize(&game_of(p), "p1", &context()).unwrap().kda(), (12, 1));
}

// --- standings -------------------------------------------------------------------------

#[test]
fn a_promotion_reads_as_the_lp_gained() {
    let before = rank("GOLD", "II", 98);
    let after = rank("GOLD", "I", 20);
    assert_eq!(after.ladder_value() - before.ladder_value(), 22);
    assert_eq!(rank("GOLD", "I", 99).ladder_value() + 1, rank("PLATINUM", "IV", 0).ladder_value());
}

#[test]
fn the_apex_is_one_pool() {
    assert_eq!(rank("MASTER", "I", 100).ladder_value(), 2900);
    assert_eq!(rank("Challenger", "IV", 100).ladder_value(), 2900);
    assert_eq!(rank("MASTER", "I", 0).label(), "Master");
}

#[test]
fn unknown_tiers_still_display() {
    assert_eq!(tier_index("SALT"), -1);
    assert_eq!(tier_index("iron"), 0);
    assert_eq!(rank("SALT", "II", 10).label(), "Salt II");
    assert_eq!(rank("SALT", "IV", 10).ladder_value(), -390);
    assert_eq!(rank("GOLD", "II", 10).label(), "Gold II");
    assert_eq!(titlecase(""), "");
    assert_eq!(titlecase("ÉMERAUDE"), "Émeraude");
    assert_eq!(titlecase("ßA"), "SSa");
}

#[test]
fn only_ranked_queues_have_a_ladder() {
    assert_eq!(queue_type(420), Some("RANKED_SOLO_5x5"));
    assert_eq!(queue_type(440), Some("RANKED_FLEX_SR"));
    assert_eq!(queue_type(710), Some("RANKED_PREMADE_5x5"));
    assert_eq!(queue_type(450), None);
}

#[test]
fn entries_are_read_leniently() {
    let entries = read(
        r#"[{"queueType":"RANKED_FLEX_SR","tier":"SILVER","rank":"I","leaguePoints":3},
            {"queueType":"RANKED_SOLO_5x5","tier":"SALT","leaguePoints":"x"},
            {"queueType":"RANKED_SOLO_5x5","tier":"GOLD"}]"#,
    )
    .unwrap();
    let solo = rank_from_entries(&entries, "RANKED_SOLO_5x5").unwrap();
    assert_eq!((solo.tier.as_str(), solo.division.as_str(), solo.lp), ("SALT", "I", 0));
    let flex = rank_from_entries(&entries, "RANKED_FLEX_SR").unwrap();
    assert_eq!((flex.tier.as_str(), flex.division.as_str(), flex.lp), ("SILVER", "I", 3));
    assert!(rank_from_entries(&entries, "RANKED_PREMADE_5x5").is_none());
    assert!(rank_from_entries(&Json::Null, "RANKED_SOLO_5x5").is_none());
}

#[test]
fn observations_off_the_ladder_are_refused() {
    let mut state = Projection::new();
    assert!(checked_observe(&state, "p1", "Moon#132", 420, &rank("GOLD", "II", i32::MAX)).is_none());
    let (event, _) = checked_observe(&state, "p1", "Moon#132", 420, &rank("GOLD", "II", 98)).unwrap();
    assert_eq!(event.ladder_value, 1498);
    state.apply_rank(event);
    let (_, line) = checked_observe(&state, "p1", "Moon#132", 420, &rank("GOLD", "I", 20)).unwrap();
    assert_eq!(line.delta, Some(22));
    let fallen = rank("IRON", "IV", i32::MIN);
    assert_eq!(fallen.checked_ladder_value(), Some(i32::MIN));
    assert!(checked_observe(&state, "p1", "Moon#132", 420, &fallen).is_none());
}

#[test]
fn the_first_observation_has_no_delta() {
    let mut state = Projection::new();
    let (event, line) = observe(&state, "p1", "Moon#132", 420, &rank("GOLD", "II", 98));
    assert_eq!((event.ladder_value, event.queue_id, line.delta), (1498, 420, None));
    state.apply_rank(event);
    let (event, line) = observe(&state, "p1", "Moon#132", 420, &rank("GOLD", "I", 20));
    assert_eq!((line.label.as_str(), line.lp, line.delta), ("Gold I", 20, Some(22)));
    assert_eq!(event.label, "Gold I");
    assert_eq!(observe(&state, "p1", "Moon#132", 440, &rank("GOLD", "I", 20)).1.delta, None);
}

#[test]
fn an_edit_reads_the_line_it_posted() {
    let mut state = Projection::new();
    let line = Some(RankInfo { label: "Gold I".to_string(), lp: 20, delta: Some(22) });
    state.pin("Moon#132", "p1".to_string());
    state.apply_posted(posted_event("NA1", 7, "Moon#132", 420, Some("m-7".to_string()), &line, "p1"));
    assert_eq!(journaled_line(&state, "NA1", 7, "moon#132"), line);
    assert_eq!(journaled_line(&state, "NA1", 8, "moon#132"), None);
    assert_eq!(message_to_edit(&state, "NA1", 7, "Moon#132", "d"), Ok("m-7".to_string()));
    assert_eq!(
        message_to_edit(&state, "NA1", 8, "Moon#132", "archive/NA1/8"),
        Err("no posted message in the journal for Moon#132 in archive/NA1/8 (was this archive posted?)".to_string())
    );
    let unanswered = posted_event("NA1", 9, "Moon#132", 420, None, &None, "p1");
    assert_eq!(unanswered.message_id, "");
    let attached = attached_event("NA1", 7, "Moon#132");
    assert_eq!((attached.game_id, attached.riot_id.as_deref()), (7, Some("Moon#132")));
}

#[test]
fn the_lp_line_comes_from_one_place() {
    assert_eq!(lp_source(true, true, 420), LpSource::Journaled);
    assert_eq!(lp_source(false, true, 420), LpSource::Ladder("RANKED_SOLO_5x5"));
    assert_eq!(lp_source(false, true, 450), LpSource::Nowhere);
    assert_eq!(lp_source(false, false, 420), LpSource::Nowhere);
}

// --- routing ---------------------------------------------------------------------------

#[test]
fn regions_route_to_their_clusters() {
    let kr = Client::new("key", "KR").unwrap();
    assert_eq!((kr.platform_host(), kr.regional_host(), kr.region_slug()), ("kr", "asia", "kr"));
    assert_eq!(kr.match_url("KR_1"), "https://asia.api.riotgames.com/lol/match/v5/matches/KR_1");
    assert_eq!(
        kr.timeline_url("KR_1"),
        "https://asia.api.riotgames.com/lol/match/v5/matches/KR_1/timeline"
    );
    assert_eq!(
        kr.entries_url("p1"),
        "https://kr.api.riotgames.com/lol/league/v4/entries/by-puuid/p1"
    );
    let expected = [
        (Platform::Na1, Regional::Americas),
        (Platform::Br1, Regional::Americas),
        (Platform::La1, Regional::Americas),
        (Platform::La2, Regional::Americas),
        (Platform::Euw1, Regional::Europe),
        (Platform::Eun1, Regional::Europe),
        (Platform::Tr1, Regional::Europe),
        (Platform::Ru, Regional::Europe),
        (Platform::Kr, Regional::Asia),
        (Platform::Jp1, Regional::Asia),
        (Platform::Oc1, Regional::Sea),
    ];
    for (platform, cluster) in expected {
        assert_eq!(to_regional(platform), cluster);
    }
}

#[test]
fn region_codes_have_short_forms() {
    assert_eq!(parse_platform("NA"), Ok(Platform::Na1));
    assert_eq!(parse_platform("eune"), Ok(Platform::Eun1));
    assert_eq!(parse_platform("oce"), Ok(Platform::Oc1));
    assert!(parse_platform("la3").is_err());
    assert_eq!(web_region_slug("OC1"), "oce");
    assert_eq!(web_region_slug("la2"), "las");
    assert_eq!(web_region_slug("PBE1"), "na");
    assert_eq!(client_for("key", "EUN1").unwrap().region_slug(), "eune");
    assert_eq!(
        client_for("key", "VN2").unwrap_err(),
        "unknown region `vn2` (expected one of: na1, euw1, eun1, kr, br1, jp1, la1, la2, oc1, tr1, ru)"
    );
}

#[test]
fn riot_ids_split_and_join() {
    assert_eq!(account_key("Faker#T1"), Ok(("Faker".to_string(), "T1".to_string())));
    assert_eq!(
        account_key("Faker").unwrap_err(),
        "Riot ID must be `gameName#tagLine`, got `Faker`"
    );
    assert_eq!(
        riot_id_of(&Some("Faker".to_string()), &Some("T1".to_string())),
        Some("Faker#T1".to_string())
    );
    assert_eq!(riot_id_of(&Some(String::new()), &Some("T1".to_string())), None);
    assert_eq!(riot_id_of(&Some("Faker".to_string()), &None), None);
}

// --- messages --------------------------------------------------------------------------

fn parts(message: &Json) -> &Vec<Json> {
    let container = &message.array_at("components").unwrap()[0];
    container.array_at("components").unwrap()
}

fn content(component: &Json) -> &str {
    component.str_at("content").unwrap()
}

#[test]
fn a_message_is_one_container() {
    let message = stats_message(&summary(), &rates(), &None, &None, &None);
    assert_eq!(message.int_at("flags"), Some(32_768));
    let container = &message.array_at("components").unwrap()[0];
    assert_eq!(container.int_at("type"), Some(17));
    assert_eq!(container.int_at("accent_color"), Some(0x2ecc71));
    assert_eq!(parts(&message).len(), 3);
    assert_eq!(content(&parts(&message)[2]), "-# scry - github.com/iamacoffeepot/scry");
    assert_eq!(result_color(false), 0xe74c3c);
}

#[test]
fn the_header_tells_the_result() {
    let mut s = summary();
    let message = stats_message(&s, &rates(), &None, &None, &None);
    let header = &parts(&message)[0];
    assert_eq!(header.int_at("type"), Some(9));
    assert_eq!(
        content(&header.array_at("components").unwrap()[0]),
        "-# <t:1700001519:F> · <t:1700001519:R>\n### [Hide on bush #KR1](https://www.op.gg/summoners/kr/Hide%20on%20bush-KR1) — Victory in 25m 19s\nAhri · Ranked Solo · Blue side"
    );
    s.win = false;
    s.queue = String::new();
    s.rank = Some(RankInfo { label: "Gold II".to_string(), lp: 55, delta: Some(-15) });
    let message = stats_message(&s, &rates(), &None, &None, &None);
    assert_eq!(
        content(&parts(&message)[0].array_at("components").unwrap()[0]),
        "-# <t:1700001519:F> · <t:1700001519:R>\n### [Hide on bush #KR1](https://www.op.gg/summoners/kr/Hide%20on%20bush-KR1) — Defeat in 25m 19s (-15 LP)\nAhri · Blue side\n**Gold II** · 55 LP · -15 LP"
    );
    s.rank = Some(RankInfo { label: "Gold II".to_string(), lp: 55, delta: None });
    let message = stats_message(&s, &rates(), &None, &None, &None);
    assert!(content(&parts(&message)[0].array_at("components").unwrap()[0]).ends_with("55 LP · +? LP"));
}

#[test]
fn the_grid_lists_the_stats() {
    assert_eq!(
        stats_text(&summary(), &rates()),
        "**KDA** 7/2/5 (6.00)  •  **CS** 192 (7.6/min)  •  **Damage** 18,420\n**Gold** 11,005  •  **Vision** 21 (0.83/min)\n**Wards** 9 placed • 3 killed • 2 control"
    );
}

#[test]
fn thousands_are_grouped() {
    assert_eq!(thousands(0), "0");
    assert_eq!(thousands(999), "999");
    assert_eq!(thousands(18_420), "18,420");
    assert_eq!(thousands(123_456), "123,456");
    assert_eq!(thousands(-1_234_567), "-1,234,567");
    assert_eq!(thousands(i32::MIN), "-2,147,483,648");
    let without: String = thousands(1_234_567).chars().filter(|c| *c != ',').collect();
    assert_eq!(without, "1234567");
}

#[test]
fn clips_are_captioned() {
    let highlight = Some(Clip { filename: "h.mp4".to_string(), caption: Some(" **2:05** — x ".to_string()) });
    let lowlight = Some(Clip { filename: "l.mp4".to_string(), caption: Some("  ".to_string()) });
    let note = Some("later".to_string());
    let message = stats_message(&summary(), &rates(), &highlight, &lowlight, &note);
    let body = parts(&message);
    assert_eq!(body.len(), 10);
    assert_eq!(body[2].int_at("type"), Some(14));
    assert_eq!(content(&body[3]), "**Highlight** **2:05** — x");
    let item = &body[4].array_at("items").unwrap()[0];
    assert!(item.get("media").unwrap().str_is("url", "attachment://h.mp4"));
    assert_eq!(content(&body[6]), "**Lowlight**");
    assert_eq!(content(&body[8]), "-# later");
}

#[test]
fn captions_come_from_the_journaled_picks() {
    let mut state = Projection::new();
    state.pin("Moon#132", "p1".to_string());
    state.apply_picks(PicksAssigned {
        platform: "NA1".to_string(),
        game_id: 7,
        riot_id: "Moon#132".to_string(),
        puuid: "p1".to_string(),
        highlight: Some(ClipPick {
            t_millis: 125_000,
            seek_secs: 118,
            duration_secs: 20,
            summary: "the outplay".to_string(),
        }),
        lowlight: None,
    });
    let (h, l) = (Some("h.mp4".to_string()), Some("l.mp4".to_string()));
    let message = package(&state, "NA1", 7, "moon#132", &summary(), &rates(), &h, &l, &None);
    assert_eq!(content(&parts(&message)[3]), "**Highlight** **2:05** — the outplay");
    assert_eq!(content(&parts(&message)[6]), "**Lowlight**");
    let other = package(&state, "NA1", 8, "moon#132", &summary(), &rates(), &h, &None, &None);
    assert_eq!(content(&parts(&other)[3]), "**Highlight**");
    // Before anything is recorded the caption stands alone.
    let early = package(&state, "NA1", 7, "moon#132", &summary(), &rates(), &None, &None, &None);
    assert_eq!(parts(&early).len(), 5);
    assert_eq!(content(&parts(&early)[3]), "**Highlight** **2:05** — the outplay");
    let bare = package(&state, "NA1", 8, "moon#132", &summary(), &rates(), &None, &None, &None);
    assert_eq!(parts(&bare).len(), 3);
}

#[test]
fn webhooks_keep_their_query() {
    let plain = Webhook::new("https://discord.test/1".to_string());
    assert_eq!(plain.post_url(), "https://discord.test/1?with_components=true&wait=true");
    let threaded = Webhook::new("https://discord.test/1?thread_id=2".to_string());
    assert_eq!(threaded.post_url(), "https://discord.test/1?thread_id=2&with_components=true&wait=true");
    assert_eq!(threaded.edit_url("9"), "https://discord.test/1/messages/9?with_components=true");
}

#[test]
fn an_edit_declares_its_files() {
    let payload = read(r#"{"flags":1,"attachments":[1,2,3]}"#).unwrap();
    let names = vec!["h.mp4".to_string(), "l.mp4".to_string()];
    let edited = edit_payload(payload, &names);
    assert_eq!(edited.int_at("flags"), Some(1));
    let files = edited.array_at("attachments").unwrap();
    assert_eq!(files.len(), 2);
    assert_eq!(files[1].int_at("id"), Some(1));
    assert!(files[1].str_is("filename", "l.mp4"));
    let added = edit_payload(read("{}").unwrap(), &names);
    assert_eq!(added.array_at("attachments").unwrap().len(), 2);
    assert!(matches!(edit_payload(Json::Null, &names), Json::Null));
}

#[test]
fn files_are_sent_by_their_extension() {
    assert_eq!(mime_of("highlight-Moon_132.mp4"), "video/mp4");
    assert_eq!(mime_of("a.b.webm"), "video/webm");
    assert_eq!(mime_of("chart.png"), "image/png");
    assert_eq!(mime_of("mp4"), "video/mp4");
    assert_eq!(part_name(12), "files[12]");
}

#[test]
fn the_reply_tells_the_message_id() {
    assert_eq!(message_id(r#"{"id":"123","x":1}"#), Some("123".to_string()));
    assert_eq!(message_id(r#"{"id":123}"#), None);
    assert_eq!(message_id("no json"), None);
    assert_eq!(id_in(&None), None);
}

// --- packages --------------------------------------------------------------------------

#[test]
fn a_player_s_own_clip_comes_first() {
    assert_eq!(clip_file("highlight", "Moon#132", true, true), Some("highlight-Moon_132.mp4".to_string()));
    assert_eq!(clip_file("highlight", "Moon#132", false, true), Some("highlight.mp4".to_string()));
    assert_eq!(clip_file("highlight", "Moon#132", false, false), None);
}

#[test]
fn an_old_patch_is_noted() {
    let (old, new) = (patch_of("16.2.741.1"), patch_of("16.3"));
    assert_eq!(old.as_deref(), Some("16.2"));
    assert_eq!(patch_of("16"), None);
    assert_eq!(game_patch(r#"{"info":{"gameVersion":"16.2.741.1"}}"#), old);
    assert_eq!(game_patch(r#"{"gameVersion":"16.2.741.1"}"#), None);
    assert_eq!(replay_patch(r#"{"gameVersion":"16.3.1"}"#), new);
    assert_eq!(replay_patch("not json"), None);
    assert_eq!(
        clip_note(false, &old, &new).as_deref(),
        Some("Replay expired (older patch) — no clips for this game")
    );
    assert_eq!(clip_note(true, &old, &new), None);
    assert_eq!(clip_note(false, &new, &new), None);
    assert_eq!(clip_note(false, &old, &None), None);
}

fn quiet() -> Timeline {
    Timeline { kills: Vec::new(), specials: Vec::new(), objectives: Vec::new(), first_blood: None }
}

#[test]
fn picks_are_journaled_for_one_player() {
    let game = game_of(player("Ahri"));
    let event = journal_picks(&game, &quiet(), &Vec::new(), "hide on BUSH#kr1", &Vec::new()).unwrap();
    assert_eq!((event.platform.as_str(), event.game_id, event.puuid.as_str()), ("KR", 7100, "p1"));
    assert!(event.highlight.is_none() && event.lowlight.is_none());
    assert_eq!(
        journal_picks(&game, &quiet(), &Vec::new(), "x#y", &Vec::new()).unwrap_err(),
        PostError::PlayerNotFound
    );
    let mut nameless = game_of(player("Ahri"));
    nameless.match_id = "7100".to_string();
    assert_eq!(
        journal_picks(&nameless, &quiet(), &Vec::new(), "Hide on bush#KR1", &Vec::new()).unwrap_err(),
        PostError::MalformedMatchId("malformed match id `7100`".to_string())
    );
    assert!(own_picks(&game, &quiet(), &Vec::new(), "p1", &Vec::new()).is_some());
}

#[test]
fn the_report_lists_moments_and_picks() {
    let moments = vec![Moment {
        t_ms: 125_000,
        kind: MomentKind::Death { free: true },
        summary: "You died".to_string(),
        evidence: vec!["death at (1,2)".to_string()],
    }];
    let pick = Some(Candidate {
        t_ms: 3_725_000,
        seek_s: 3_718,
        dur_s: 20,
        summary: "the outplay".to_string(),
        score: 9,
    });
    assert_eq!(
        report(&moments, &pick, &None),
        vec![
            "  2:05  [death ✗]  You died",
            "           · death at (1,2)",
            "highlight: 62:05 — the outplay (seek 3718s, 20s)",
            "lowlight: none",
        ]
    );
}

#[test]
fn deltas_add_up_over_a_rename_of_keys() {
    let mut state = Projection::new();
    state.pin("Moon#132", "old".to_string());
    state.pin("Moon#132", "new".to_string());
    state.apply_rank(RankObserved {
        puuid: "old".to_string(),
        riot_id: "Moon#132".to_string(),
        queue_id: 420,
        ladder_value: 1_400,
        label: "Gold II".to_string(),
        lp: 0,
    });
    assert_eq!(observe(&state, "new", "Moon#132", 420, &rank("GOLD", "II", 18)).1.delta, Some(18));
}
