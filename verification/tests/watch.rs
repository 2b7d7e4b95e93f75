//! The watch list, match ids, slugs, arguments and the clip pass.

use scry::cli::{Cli, Mode};
use scry::clip_pass::{abandon, begin, Action, Event, Job};
use scry::journal::Projection;
use scry::kinds::{ClipAttempt, GamePosted};
use scry::tick::{
    archive_place, client_access, games_due, idle, latest_game, new_game, overview_prompt,
    parse_accounts, phase_url, post_cli, queue_filter, replay_url, resolved_event,
    roster_riot_ids, slug, split_match_id, NewGame,
};

fn arguments() -> Cli {
    Cli {
        riot_id: Some("Faker#KR1".to_string()),
        region: Some("kr".to_string()),
        webhook: "https://discord.test/hook".to_string(),
        api_key: "key".to_string(),
        count: 3,
        queue: Some(440),
        dump: None,
        from_archive: None,
        track_lp: false,
        analyze: None,
        edit: false,
        tick: false,
        accounts: "scripts/accounts.txt".to_string(),
        archive: "archive".to_string(),
        journal: "state/scry.sqlite".to_string(),
        no_clips: false,
        clip_max_tries: 15,
        clips_per_pass: 5,
        journal_dump: false,
        abandon_clips: Vec::new(),
    }
}

#[test]
fn match_ids_split_into_platform_and_game() {
    assert_eq!(split_match_id("NA1_5630828116").unwrap(), ("NA1", 5630828116));
    assert!(split_match_id("garbage").is_err());
}

#[test]
fn malformed_match_ids_say_how() {
    assert_eq!(split_match_id("garbage").unwrap_err(), "malformed match id `garbage`");
    assert_eq!(split_match_id("NA1_x").unwrap_err(), "malformed game id in `NA1_x`");
    assert_eq!(
        split_match_id("NA1_18446744073709551616").unwrap_err(),
        "malformed game id in `NA1_18446744073709551616`"
    );
    assert_eq!(split_match_id("NA1_18446744073709551615").unwrap(), ("NA1", u64::MAX));
}

#[test]
fn slug_matches_the_shell_marker_names() {
    // tr -c 'A-Za-z0-9' '_' — `#` and spaces both become `_`.
    assert_eq!(slug("Moon#132"), "Moon_132");
    assert_eq!(slug("Hide on bush#KR1"), "Hide_on_bush_KR1");
}

#[test]
fn slugs_of_slugs_are_the_same() {
    assert_eq!(slug(&slug("Hide on bush#KR1")), slug("Hide on bush#KR1"));
    assert_eq!(slug("é#1"), "___1");
    assert_eq!(slug("한"), "___");
}

#[test]
fn the_watch_list_skips_what_it_cannot_read() {
    let list = "# comment\n\nFaker#KR1 | kr | 420, 440\r\nMoon#132|na1\n|na1|420\nonly\nAll#1|euw1|all\n x#1 | | 420";
    let accounts = parse_accounts(list, None).unwrap();
    assert_eq!(roster_riot_ids(&accounts), vec!["Faker#KR1", "Moon#132", "All#1"]);
    assert_eq!(accounts[0].region, "kr");
    assert_eq!(accounts[0].queues, vec![Some(420), Some(440)]);
    assert_eq!(accounts[1].queues, vec![Some(420)]);
    assert_eq!(accounts[2].queues, vec![None]);
    let other = parse_accounts("Moon#132|na1|", Some(710)).unwrap();
    assert_eq!(other[0].queues, vec![Some(710)]);
    let none = parse_accounts("Moon#132|na1| , ", Some(710)).unwrap();
    assert!(none[0].queues.is_empty());
}

#[test]
fn a_bad_queue_list_is_an_error() {
    assert_eq!(
        parse_accounts("Moon#132|na1|420,x\nFaker#KR1|kr|420", None).unwrap_err(),
        "bad queue list in `Moon#132|na1|420,x`"
    );
}

#[test]
fn wide_queue_ids_filter_by_zero() {
    assert_eq!(queue_filter(None), None);
    assert_eq!(queue_filter(Some(420)), Some(420));
    assert_eq!(queue_filter(Some(65_535)), Some(65_535));
    assert_eq!(queue_filter(Some(65_536)), Some(0));
}

#[test]
fn arguments_name_one_mode() {
    let mut cli = arguments();
    assert_eq!(cli.plan(), Ok(Mode::Post));
    cli.dump = Some("dir".to_string());
    assert_eq!(cli.plan(), Ok(Mode::Dump));
    cli.analyze = Some("dir".to_string());
    assert_eq!(cli.plan(), Ok(Mode::Analyze));
    cli.from_archive = Some("dir".to_string());
    assert_eq!(cli.plan(), Ok(Mode::FromArchive));
    cli.abandon_clips = vec!["NA1_1".to_string()];
    assert_eq!(cli.plan(), Ok(Mode::AbandonClips));
    cli.journal_dump = true;
    assert_eq!(cli.plan(), Ok(Mode::JournalDump));
    cli.tick = true;
    assert_eq!(cli.plan(), Ok(Mode::Tick));
    assert!(cli.clips());
    cli.no_clips = true;
    assert!(!cli.clips());
}

#[test]
fn missing_arguments_are_named() {
    let mut cli = arguments();
    cli.riot_id = None;
    assert_eq!(cli.plan(), Err("--riot-id is required in this mode".to_string()));
    assert_eq!(cli.require_riot_id(), Err("--riot-id is required in this mode".to_string()));
    cli.analyze = Some("dir".to_string());
    assert_eq!(cli.plan(), Err("--riot-id is required in this mode".to_string()));
    let mut cli = arguments();
    assert_eq!(cli.require_riot_id(), Ok("Faker#KR1"));
    cli.region = None;
    assert_eq!(cli.plan(), Err("--region is required (except with --from-archive)".to_string()));
    cli.region = Some("Mars".to_string());
    assert_eq!(
        cli.plan(),
        Err("unknown region `mars` (expected one of: na1, euw1, eun1, kr, br1, jp1, la1, la2, oc1, tr1, ru)".to_string())
    );
}

#[test]
fn a_pass_posts_with_its_own_arguments() {
    let posting = post_cli(&arguments(), "Moon#132", "archive/NA1/1", true);
    assert_eq!(posting.riot_id.as_deref(), Some("Moon#132"));
    assert_eq!(posting.from_archive.as_deref(), Some("archive/NA1/1"));
    assert_eq!((posting.count, posting.queue, posting.region), (1, None, None));
    assert!(posting.track_lp && posting.edit && !posting.tick && !posting.journal_dump);
    assert_eq!(posting.webhook, "https://discord.test/hook");
    assert_eq!((posting.clip_max_tries, posting.clips_per_pass), (15, 5));
}

fn posted(game_id: u64, riot_id: &str) -> GamePosted {
    GamePosted {
        platform: "NA1".to_string(),
        game_id,
        riot_id: riot_id.to_string(),
        queue_id: 420,
        message_id: "m".to_string(),
        rank: None,
        puuid: None,
    }
}

fn latest(ids: &[&str]) -> Vec<NewGame> {
    ids.iter().map(|id| latest_game(&vec![id.to_string()]).unwrap().unwrap()).collect()
}

fn numbers(games: Vec<NewGame>) -> Vec<u64> {
    games.iter().map(|g| g.game_id).collect()
}

#[test]
fn a_newcomer_backfills_one_game() {
    let mut state = Projection::new();
    let due = games_due(latest(&["NA1_5", "NA1_9", "NA1_7"]), &state, "Moon#132");
    assert_eq!(numbers(due), vec![9]);
    state.apply_posted(posted(9, "Moon#132"));
    // The older games of the other queues stay history.
    assert!(new_game(&vec!["NA1_7".to_string()], &state, "Moon#132").unwrap().is_none());
    assert!(games_due(latest(&["NA1_5", "NA1_9", "NA1_7"]), &state, "Moon#132").is_empty());
    assert!(games_due(Vec::new(), &Projection::new(), "Moon#132").is_empty());
}

#[test]
fn later_games_are_posted_oldest_first() {
    let mut state = Projection::new();
    state.apply_posted(posted(9, "Moon#132"));
    let due = games_due(latest(&["NA1_12", "NA1_8", "NA1_10"]), &state, "moon#132");
    assert_eq!(numbers(due), vec![10, 12]);
    state.apply_posted(posted(10, "Moon#132"));
    assert!(new_game(&vec!["NA1_12".to_string()], &state, "Moon#132").unwrap().is_some());
}

#[test]
fn a_missed_game_stays_news() {
    let mut state = Projection::new();
    state.apply_posted(posted(100, "Moon#132"));
    let mut flex = posted(200, "Moon#132");
    flex.queue_id = 440;
    state.apply_posted(flex);
    let due = games_due(latest(&["NA1_150", "NA1_200", "NA1_99"]), &state, "Moon#132");
    assert_eq!(numbers(due), vec![150]);
    assert!(new_game(&vec!["NA1_150".to_string()], &state, "Moon#132").unwrap().is_some());
    // What is older than all that was posted is history.
    assert!(new_game(&vec!["NA1_99".to_string()], &state, "Moon#132").unwrap().is_none());
    // Another platform numbers its games on its own.
    assert!(new_game(&vec!["EUW1_50".to_string()], &state, "Moon#132").unwrap().is_some());
    assert_eq!(state.oldest_posted("NA1", "moon#132"), Some(100));
    assert_eq!(state.oldest_posted("EUW1", "Moon#132"), None);
}

#[test]
fn a_resolved_account_is_noted_once() {
    let mut state = Projection::new();
    let event = resolved_event(&state, "Moon#132", "p-1").unwrap();
    assert_eq!((event.riot_id.as_str(), event.puuid.as_str()), ("Moon#132", "p-1"));
    state.pin(&event.riot_id, event.puuid);
    assert!(resolved_event(&state, "Moon#132", "p-1").is_none());
    assert!(resolved_event(&state, "Moon#132", "p-2").is_some());
}

#[test]
fn matches_are_archived_by_platform_and_number() {
    assert_eq!(archive_place("NA1_5630828116"), vec!["NA1", "5630828116"]);
    assert_eq!(archive_place("garbage"), vec!["garbage"]);
    assert!(latest_game(&Vec::new()).unwrap().is_none());
    assert!(latest_game(&vec!["garbage".to_string()]).is_err());
}

#[test]
fn a_posted_game_is_not_new() {
    let mut state = Projection::new();
    state.apply_posted(posted(7, "Moon#132"));
    let ids = vec!["NA1_7".to_string()];
    assert!(new_game(&ids, &state, "moon#132").unwrap().is_none());
    let other = new_game(&ids, &state, "Faker#KR1").unwrap().unwrap();
    assert_eq!((other.match_id.as_str(), other.platform.as_str(), other.game_id), ("NA1_7", "NA1", 7));
    assert!(new_game(&Vec::new(), &state, "Moon#132").unwrap().is_none());
    assert!(new_game(&vec!["x".to_string()], &state, "Moon#132").is_err());
}

#[test]
fn the_lockfile_tells_port_and_password() {
    assert_eq!(
        client_access("LeagueClient:123:4567:secret:https\n"),
        Some(("4567".to_string(), "secret".to_string()))
    );
    assert_eq!(client_access("LeagueClient:123:4567"), None);
    assert_eq!(phase_url("4567"), "https://127.0.0.1:4567/lol-gameflow/v1/gameflow-phase");
    assert_eq!(replay_url("4567"), "https://127.0.0.1:4567/lol-replays/v1/configuration");
    assert_eq!(
        overview_prompt("Moon#132"),
        "Write the post-game overview centered on Moon#132. Start from moments.md in the provided directory."
    );
    assert!(idle(&Some("\"None\"".to_string())));
    assert!(idle(&Some("\"Lobby\"".to_string())));
    assert!(!idle(&Some("\"InProgress\"".to_string())));
    assert!(!idle(&None));
}

fn job(game_id: u64, tries: u32, has_message: bool) -> Job {
    Job {
        platform: "NA1".to_string(),
        game_id,
        riot_id: "Moon#132".to_string(),
        tries,
        has_message,
    }
}

fn in_lobby() -> Event {
    Event::Phase(Some("\"Lobby\"".to_string()))
}

fn same_patch() -> Event {
    Event::Patches { game: Some("16.3".to_string()), client: Some("16.3".to_string()) }
}

fn failed() -> Event {
    Event::Recorded(false)
}

#[test]
fn a_pass_records_until_one_success() {
    let mut pass = begin(vec![job(3, 0, false), job(2, 1, true), job(1, 0, true)], 15, 5);
    assert!(matches!(pass.next(Event::Started), Action::LookForOverview(1)));
    assert!(matches!(pass.next(Event::Overview(true)), Action::ComparePatches(1)));
    assert!(matches!(pass.next(same_patch()), Action::AskPhase));
    match pass.next(in_lobby()) {
        Action::Record(e) => {
            assert_eq!((e.game_id, e.try_number), (2, 2));
            assert_eq!(e.riot_id.as_deref(), Some("Moon#132"));
        }
        other => panic!("{other:?}"),
    }
    assert!(matches!(pass.next(Event::Recorded(true)), Action::LookForClips(1)));
    assert!(matches!(pass.next(Event::Clips { highlight: false, lowlight: true }), Action::Attach(1)));
    assert!(matches!(pass.next(Event::Done), Action::Finish));
    assert!(matches!(pass.next(Event::Started), Action::Finish));
}

#[test]
fn a_failed_recording_moves_on() {
    let mut pass = begin(vec![job(2, 0, true), job(1, 0, true)], 15, 5);
    pass.next(Event::Started);
    pass.next(Event::Overview(true));
    pass.next(same_patch());
    pass.next(in_lobby());
    assert!(matches!(pass.next(failed()), Action::LookForOverview(1)));
    // A recorder that succeeds without a clip failed too.
    pass.next(Event::Overview(true));
    pass.next(same_patch());
    pass.next(in_lobby());
    assert!(matches!(pass.next(Event::Recorded(true)), Action::LookForClips(1)));
    assert!(matches!(pass.next(Event::Clips { highlight: false, lowlight: false }), Action::Finish));
}

fn job_of(riot_id: &str, game_id: u64, has_message: bool) -> Job {
    Job { riot_id: riot_id.to_string(), ..job(game_id, 0, has_message) }
}

#[test]
fn every_player_of_a_shared_game_is_served() {
    let jobs = vec![
        job_of("Moon#132", 2, true),
        job_of("Quiet#1", 2, false),
        job_of("Faker#KR1", 2, true),
        job_of("Late#1", 2, true),
        job_of("Moon#132", 1, true),
    ];
    let mut pass = begin(jobs, 15, 5);
    pass.next(Event::Started);
    pass.next(Event::Overview(true));
    pass.next(same_patch());
    assert!(matches!(pass.next(in_lobby()), Action::Record(_)));
    assert!(matches!(pass.next(Event::Recorded(true)), Action::LookForClips(0)));
    assert!(matches!(pass.next(Event::Clips { highlight: true, lowlight: true }), Action::Attach(0)));
    assert!(matches!(pass.next(Event::Done), Action::LookForClips(2)));
    assert!(matches!(pass.next(Event::Clips { highlight: false, lowlight: false }), Action::LookForClips(3)));
    assert!(matches!(pass.next(Event::Clips { highlight: true, lowlight: false }), Action::Attach(3)));
    // One game is all that a pass records with success.
    assert!(matches!(pass.next(Event::Done), Action::Finish));
}

#[test]
fn a_failed_game_is_not_recorded_twice() {
    let jobs = vec![
        job_of("Moon#132", 2, true),
        job_of("Faker#KR1", 2, true),
        job_of("Moon#132", 1, true),
    ];
    let mut pass = begin(jobs, 15, 5);
    pass.next(Event::Started);
    pass.next(Event::Overview(true));
    pass.next(same_patch());
    pass.next(in_lobby());
    assert!(matches!(pass.next(failed()), Action::LookForOverview(2)));
}

#[test]
fn a_busy_client_ends_the_pass() {
    let mut pass = begin(vec![job(2, 0, true), job(1, 0, true)], 15, 5);
    pass.next(Event::Started);
    assert!(matches!(pass.next(Event::Overview(false)), Action::LookForOverview(1)));
    pass.next(Event::Overview(true));
    pass.next(same_patch());
    assert!(matches!(pass.next(Event::Phase(None)), Action::Finish));
}

#[test]
fn spent_jobs_are_given_up() {
    let mut pass = begin(vec![job(2, 15, true), job(1, 0, true)], 15, 5);
    pass.next(Event::Started);
    pass.next(Event::Overview(true));
    pass.next(same_patch());
    match pass.next(in_lobby()) {
        Action::GiveUp(e) => assert_eq!((e.game_id, e.tries), (2, 15)),
        other => panic!("{other:?}"),
    }
    assert!(matches!(pass.next(Event::Done), Action::LookForOverview(1)));
}

#[test]
fn expired_replays_are_said() {
    let mut pass = begin(vec![job(2, 0, true), job(1, 0, true)], 15, 5);
    pass.next(Event::Started);
    pass.next(Event::Overview(true));
    let old = Event::Patches { game: Some("16.2".to_string()), client: Some("16.3".to_string()) };
    match pass.next(old) {
        Action::Expire(e) => {
            assert_eq!((e.platform.as_str(), e.game_id, e.tries), ("NA1", 2, 0));
            assert_eq!(e.riot_id.as_deref(), Some("Moon#132"));
        }
        other => panic!("{other:?}"),
    }
    assert!(matches!(pass.next(Event::Done), Action::LookForOverview(1)));
    pass.next(Event::Overview(true));
    // A patch that is not known expires nothing.
    let unknown = Event::Patches { game: Some("16.2".to_string()), client: None };
    assert!(matches!(pass.next(unknown), Action::AskPhase));
}

#[test]
fn a_pass_makes_only_so_many_recordings() {
    let mut pass = begin(vec![job(3, 0, true), job(2, 0, true), job(1, 0, true)], 15, 2);
    pass.next(Event::Started);
    for _ in 0..2 {
        pass.next(Event::Overview(true));
        pass.next(same_patch());
        assert!(matches!(pass.next(in_lobby()), Action::Record(_)));
        pass.next(failed());
    }
    pass.next(Event::Overview(true));
    pass.next(same_patch());
    assert!(matches!(pass.next(in_lobby()), Action::Finish));
}

#[test]
fn abandoning_tells_the_most_tries() {
    let mut state = Projection::new();
    state.apply_posted(posted(7, "Moon#132"));
    state.apply_posted(posted(7, "Faker#KR1"));
    state.apply_attempt(&ClipAttempt {
        platform: "NA1".to_string(),
        game_id: 7,
        try_number: 4,
        riot_id: Some("Moon#132".to_string()),
    });
    let e = abandon(&state, "NA1_7").unwrap();
    assert_eq!((e.platform.as_str(), e.game_id, e.tries, e.riot_id), ("NA1", 7, 4, None));
    assert_eq!(abandon(&state, "NA1_8").unwrap().tries, 0);
    assert_eq!(abandon(&state, "x").unwrap_err(), "malformed match id `x`");
}
