//! The journal: events are written, read back and folded.

use scry::dump::dump_row;
use scry::import::{
    baseline, import_legacy_state, posted_marker, read_queue_id, read_snapshot, ArchivedGame,
    Backfill, Snapshot, SnapshotFile,
};
use scry::journal::Projection;
use scry::json::Json;
use scry::kinds::{
    AccountRenamed, AccountResolved, ClipAttempt, ClipPick, ClipsAbandoned, ClipsAttached,
    GamePosted, PicksAssigned, RankObserved,
};
use scry::leaves::{decode_storage, encode_storage, Kind};
use scry::stats::RankInfo;
use scry::storage::{
    fnv1a_64_fold, fold_path_segment, terminate_field_hash, variant_hash, Records, Roots,
    StorageError,
};
use scry::tick::parse_accounts;

const ROOTS: Roots = Roots { field: 0xcbf29ce484222325, variant: 0x84222325cbf29ce4 };

/// An append-only log in memory: a kind and a payload per row.
struct Log {
    rows: Vec<(String, Vec<u8>)>,
}

impl Log {
    fn new() -> Log {
        Log { rows: Vec::new() }
    }

    fn append<K: Kind>(&mut self, event: &K) {
        let payload = encode_storage(event, &ROOTS).unwrap();
        self.rows.push((K::name().to_string(), payload));
    }

    fn fold(&self) -> Projection {
        match Projection::fold(&self.rows, &ROOTS) {
            Ok(p) => p,
            Err(e) => panic!("{e:?}"),
        }
    }
}

fn posted(platform: &str, game_id: u64, riot_id: &str, message_id: &str) -> GamePosted {
    GamePosted {
        platform: platform.to_string(),
        game_id,
        riot_id: riot_id.to_string(),
        queue_id: 420,
        message_id: message_id.to_string(),
        rank: None,
        puuid: None,
    }
}

fn resolved(riot_id: &str, puuid: &str) -> AccountResolved {
    AccountResolved { riot_id: riot_id.to_string(), puuid: puuid.to_string() }
}

fn text(s: Option<&String>) -> Option<&str> {
    s.map(|s| s.as_str())
}

#[test]
fn journal_roundtrips_and_folds() {
    let mut journal = Log::new();
    journal.append(&posted("NA1", 100, "Moon#132", "m-100"));
    journal.append(&ClipAttempt { platform: "NA1".into(), game_id: 100, try_number: 1, riot_id: None });
    journal.append(&posted("NA1", 101, "Himles#9267", "m-101"));
    journal.append(&ClipsAttached { platform: "NA1".into(), game_id: 100, riot_id: None });
    journal.append(&RankObserved {
        puuid: "p-1".into(),
        riot_id: "Moon#132".into(),
        queue_id: 420,
        ladder_value: 1355,
        label: "Gold II".into(),
        lp: 55,
    });

    let projection = journal.fold();

    assert!(projection.is_posted("NA1", 100, "moon#132"), "case-insensitive dedup");
    assert!(!projection.is_posted("NA1", 102, "Moon#132"));
    assert_eq!(text(projection.message_id("NA1", 101, "Himles#9267")), Some("m-101"));
    assert_eq!(projection.message_id("NA1", 101, "Moon#132"), None, "another player's post is not mine");
    let pending = projection.pending_clips();
    assert_eq!(pending.len(), 1, "game 100 finished; only 101 pending");
    assert_eq!((pending[0].0.as_str(), pending[0].1), ("NA1", 101));
    assert_eq!(projection.previous_ladder("p-1", 420), Some(1355));
    // The floor: newest posted per player/queue, any-queue when None.
    assert_eq!(projection.newest_posted("MOON#132", Some(420)), Some(100));
    assert_eq!(projection.newest_posted("moon#132", Some(440)), None);
    assert_eq!(projection.newest_posted("himles#9267", None), Some(101));

    // Picks: journaled per (game, identity), read back for captions and clip
    // windows; last write wins.
    let pick = ClipPick { t_millis: 125_000, seek_secs: 118, duration_secs: 20, summary: "the outplay".into() };
    journal.append(&PicksAssigned {
        platform: "NA1".into(),
        game_id: 101,
        riot_id: "Himles#9267".into(),
        puuid: "p-him".into(),
        highlight: Some(pick.clone()),
        lowlight: None,
    });
    let with_picks = journal.fold();
    let picks = with_picks.picks("NA1", 101, "himles#9267").expect("picks re-key through the puuid pin");
    assert_eq!(picks.highlight, Some(pick.clone()));
    assert_eq!(picks.lowlight, None);
    assert_eq!(pick.caption(), "**2:05** — the outplay");
    assert!(with_picks.picks("NA1", 100, "Moon#132").is_none());

    // Identity: a pin re-keys name-era rows to the PUUID, so after a rename
    // the NEW name still sees the old posts and floors.
    journal.append(&resolved("Moon#132", "p-moon"));
    journal.append(&resolved("Moonlight#NEW", "p-moon"));
    let renamed = journal.fold();
    assert!(renamed.is_posted("NA1", 100, "Moonlight#NEW"), "rename keeps dedup");
    assert_eq!(renamed.newest_posted("Moonlight#NEW", Some(420)), Some(100), "rename keeps the floor");

    // Key swap: Riot encrypts PUUIDs per API key, so a new key hands the same
    // name a different PUUID. The re-pin unions the eras — dedup, floors,
    // picks, and the LP baseline all survive under either PUUID.
    journal.append(&resolved("Himles#9267", "p-him-rekeyed"));
    journal.append(&resolved("Moonlight#NEW", "p-moon-rekeyed"));
    let swapped = journal.fold();
    assert!(swapped.is_posted("NA1", 100, "Moonlight#NEW"), "key swap keeps dedup");
    assert_eq!(swapped.newest_posted("Moonlight#NEW", Some(420)), Some(100), "key swap keeps the floor");
    assert!(swapped.picks("NA1", 101, "Himles#9267").is_some(), "key swap keeps picks");
    assert_eq!(swapped.previous_ladder("p-1", 420), Some(1355), "old-era ladder key still resolves");

    // A rank observed under the NEW puuid lands on the same identity: the
    // old-era baseline is what the next delta reads.
    journal.append(&resolved("OldMoon#132", "p-1"));
    journal.append(&resolved("OldMoon#132", "p-1-rekeyed"));
    let bridged = journal.fold();
    assert_eq!(bridged.previous_ladder("p-1-rekeyed", 420), Some(1355), "LP delta bridges the key swap");
}

#[test]
fn a_repost_does_not_resurrect_a_finished_job() {
    let mut journal = Log::new();
    journal.append(&posted("NA1", 100, "Moon#132", "m-100"));
    journal.append(&ClipsAbandoned {
        platform: "NA1".into(),
        game_id: 100,
        tries: 3,
        riot_id: Some("Moon#132".into()),
    });
    journal.append(&posted("NA1", 100, "Moon#132", "m-200"));
    let state = journal.fold();
    assert!(state.pending_clips().is_empty());
    assert_eq!(text(state.message_id("NA1", 100, "Moon#132")), Some("m-200"));
}

#[test]
fn a_post_keeps_its_lp_line() {
    let mut journal = Log::new();
    let mut post = posted("NA1", 100, "Moon#132", "m-100");
    post.rank = Some(RankInfo { label: "Gold II".into(), lp: 55, delta: Some(-15) });
    post.puuid = Some("p-moon".into());
    journal.append(&post);
    let state = journal.fold();
    let line = state.rank_line("NA1", 100, "moon#132").unwrap();
    assert_eq!((line.label.as_str(), line.lp, line.delta), ("Gold II", 55, Some(-15)));
    assert_eq!(text(state.puuid_of("MOON#132")), Some("p-moon"));
    assert_eq!(state.clip_jobs("NA1", 100).len(), 1);
    assert!(state.clip_jobs("NA1", 101).is_empty());
}

#[test]
fn pending_jobs_come_newest_first() {
    let mut journal = Log::new();
    for id in [5u64, 9, 7] {
        journal.append(&posted("NA1", id, "Moon#132", "m"));
    }
    let ids: Vec<u64> = journal.fold().pending_clips().iter().map(|j| j.1).collect();
    assert_eq!(ids, vec![9, 7, 5]);
}

#[test]
fn unknown_kinds_change_nothing() {
    let mut journal = Log::new();
    journal.append(&posted("NA1", 100, "Moon#132", "m-100"));
    journal.append(&posted("NA1", 101, "Moon#132", "m-101"));
    for at in 0..3usize {
        let mut more = Log::new();
        more.append(&posted("NA1", 100, "Moon#132", "m-100"));
        more.append(&posted("NA1", 101, "Moon#132", "m-101"));
        more.rows.insert(at, ("scry.journal.later".to_string(), vec![1, 2, 3]));
        assert_eq!(format!("{:?}", more.fold()), format!("{:?}", journal.fold()));
    }
}

#[test]
fn a_row_that_does_not_decode_names_its_kind() {
    let rows = vec![("scry.journal.game_posted".to_string(), vec![1u8])];
    match Projection::fold(&rows, &ROOTS) {
        Ok(_) => panic!("decoded"),
        Err(e) => assert_eq!(e.kind, "scry.journal.game_posted"),
    }
}

#[test]
fn names_with_other_letters_ignore_case_too() {
    let mut journal = Log::new();
    journal.append(&posted("EUW1", 1, "ÉCLAIR#EUW", "m"));
    assert!(journal.fold().is_posted("EUW1", 1, "éclair#euw"));
}

#[test]
fn every_kind_reads_back() {
    let rank = RankObserved {
        puuid: "p".into(),
        riot_id: "n#t".into(),
        queue_id: 440,
        ladder_value: -5,
        label: "Émeraude".into(),
        lp: -1,
    };
    let bytes = encode_storage(&rank, &ROOTS).unwrap();
    assert_eq!(decode_storage::<RankObserved>(&bytes, &ROOTS), Ok(rank));

    let renamed = AccountRenamed {
        old_riot_id: "a#b".into(),
        new_riot_id: "c#d".into(),
        puuid: "p".into(),
    };
    let bytes = encode_storage(&renamed, &ROOTS).unwrap();
    assert_eq!(decode_storage::<AccountRenamed>(&bytes, &ROOTS), Ok(renamed));

    let post = GamePosted {
        platform: "NA1".into(),
        game_id: u64::MAX,
        riot_id: "Moon#132".into(),
        queue_id: 710,
        message_id: "".into(),
        rank: Some(RankInfo { label: "Master".into(), lp: 200, delta: None }),
        puuid: Some("p".into()),
    };
    let bytes = encode_storage(&post, &ROOTS).unwrap();
    assert_eq!(decode_storage::<GamePosted>(&bytes, &ROOTS), Ok(post));
}

#[test]
fn a_reader_passes_over_fields_it_does_not_know() {
    // An attached event has the first two fields of an attempt, and its player:
    // read as the one, the other's count is a field nobody asked for.
    let attempt = ClipAttempt {
        platform: "NA1".into(),
        game_id: 7,
        try_number: 3,
        riot_id: Some("Moon#132".into()),
    };
    let bytes = encode_storage(&attempt, &ROOTS).unwrap();
    let attached = decode_storage::<ClipsAttached>(&bytes, &ROOTS).unwrap();
    assert_eq!((attached.platform.as_str(), attached.game_id), ("NA1", 7));
    assert_eq!(attached.riot_id.as_deref(), Some("Moon#132"));
}

#[test]
fn a_text_that_is_no_utf8_is_refused() {
    let event = resolved("ab", "cd");
    let mut bytes = encode_storage(&event, &ROOTS).unwrap();
    let at = bytes.windows(2).position(|w| w == b"ab").unwrap();
    bytes[at] = 0xff;
    assert_eq!(decode_storage::<AccountResolved>(&bytes, &ROOTS), Err(StorageError::LeafBody));
    bytes.pop();
    assert_eq!(decode_storage::<AccountResolved>(&bytes, &ROOTS), Err(StorageError::TrailingBytes));
}

#[test]
fn records_keep_one_row_per_hash() {
    let mut records = Records::new();
    assert_eq!(records.emit(9, vec![1, 2]), Ok(()));
    assert_eq!(records.emit(3, vec![4]), Ok(()));
    assert_eq!(records.emit(9, vec![5]), Err(StorageError::DuplicateField { hash: 9 }));
    assert!(records.contains(3) && !records.contains(4));
    let bytes = records.finish().unwrap();
    let mut back = Records::parse(&bytes).unwrap();
    assert_eq!(back.take(9), Some(vec![1, 2]));
    assert_eq!(back.take(9), None);
    assert_eq!(back.take(3), Some(vec![4]));
    assert!(Records::parse(&vec![0xff, 0xff]).is_err());
}

#[test]
fn the_fold_is_fnv1a() {
    assert_eq!(fnv1a_64_fold(0xcbf29ce484222325, b""), 0xcbf29ce484222325);
    assert_eq!(fnv1a_64_fold(0xcbf29ce484222325, b"a"), 0xaf63dc4c8601ec8c);
    assert_eq!(fnv1a_64_fold(0xcbf29ce484222325, b"foobar"), 0x85944171f73967e8);
}

#[test]
fn missing_fields_are_errors_and_missing_options_are_none() {
    let resolved = resolved("a", "b");
    let bytes = encode_storage(&resolved, &ROOTS).unwrap();
    assert!(matches!(
        decode_storage::<ClipAttempt>(&bytes, &ROOTS),
        Err(StorageError::MissingRequiredField { .. })
    ));
    let attached = ClipsAttached { platform: "NA1".into(), game_id: 1, riot_id: None };
    let bytes = encode_storage(&attached, &ROOTS).unwrap();
    assert_eq!(decode_storage::<ClipsAttached>(&bytes, &ROOTS).unwrap().riot_id, None);
}

#[test]
fn rows_dump_as_json() {
    let post = posted("NA1", 100, "Moon#132", "m-100");
    let payload = encode_storage(&post, &ROOTS).unwrap();
    let row = dump_row(4, 1_700_000_000_000, GamePosted::name(), &payload, &ROOTS).unwrap();
    assert_eq!(row.int_at("seq"), Some(4));
    assert_eq!(row.int_at("at_millis"), Some(1_700_000_000_000));
    assert!(row.str_is("kind", "scry.journal.game_posted"));
    let body = row.get("payload").unwrap();
    assert_eq!(body.int_at("game_id"), Some(100));
    assert!(body.str_is("message_id", "m-100"));
    assert!(matches!(body.get("rank"), Some(Json::Null)));
    let unknown = dump_row(5, 0, "scry.journal.later", &vec![1], &ROOTS).unwrap();
    assert!(matches!(unknown.get("payload"), Some(Json::Null)));
    assert!(dump_row(6, 0, GamePosted::name(), &vec![1], &ROOTS).is_err());
}

fn archived(dir_name: &str) -> ArchivedGame {
    ArchivedGame {
        platform: "NA1".to_string(),
        dir_name: dir_name.to_string(),
        message_id: Some(" m-1\n".to_string()),
        match_json: Some(r#"{"info":{"queueId":440}}"#.to_string()),
        posted: vec![true, false],
        highlight: false,
        lowlight: true,
        tries: Some("2\n".to_string()),
        clips_done: true,
    }
}

#[test]
fn markers_become_events() {
    let accounts = parse_accounts("Moon#132|na1\nFaker#KR1|kr", None).unwrap();
    let mut undone = archived("8");
    undone.lowlight = false;
    undone.tries = None;
    let games = vec![archived("7"), archived("not-a-game"), undone];
    let snapshots = vec![
        SnapshotFile {
            stem: "p_uuid_420".to_string(),
            snapshot: Some(Snapshot { value: 1355, label: "Gold II".to_string(), lp: 55 }),
        },
        SnapshotFile { stem: "x_y".to_string(), snapshot: None },
    ];
    let events = import_legacy_state("j.sqlite", true, &games, &accounts, &snapshots).unwrap();
    assert_eq!(events.len(), 6);
    match &events[0] {
        Backfill::Posted(e) => {
            assert_eq!((e.game_id, e.riot_id.as_str(), e.queue_id), (7, "Moon#132", 440));
            assert_eq!(e.message_id, "m-1");
        }
        other => panic!("{other:?}"),
    }
    assert!(matches!(&events[1], Backfill::Attempt(e) if e.try_number == 2));
    assert!(matches!(&events[2], Backfill::Attached(e) if e.game_id == 7));
    assert!(matches!(&events[3], Backfill::Posted(e) if e.game_id == 8));
    assert!(matches!(&events[4], Backfill::Abandoned(e) if e.game_id == 8 && e.tries == 0));
    assert!(matches!(&events[5], Backfill::Rank(e) if e.puuid == "p_uuid" && e.ladder_value == 1355));
}

#[test]
fn a_journal_with_events_is_not_imported_into() {
    assert_eq!(
        import_legacy_state("j.sqlite", false, &Vec::new(), &Vec::new(), &Vec::new()).unwrap_err(),
        "journal j.sqlite already has events; refusing to import twice"
    );
}

#[test]
fn snapshots_are_read_from_their_files() {
    let s = read_snapshot(r#"{"value":1355,"label":"Gold II","lp":55}"#).unwrap();
    assert_eq!((s.value, s.label.as_str(), s.lp), (1355, "Gold II", 55));
    assert!(read_snapshot(r#"{"value":4294967296,"label":"Gold II","lp":55}"#).is_none());
    assert!(read_snapshot(r#"{"value":1355,"lp":55}"#).is_none());
    assert!(read_snapshot("").is_none());
    assert_eq!(posted_marker("Moon#132"), ".posted-Moon_132");
}

#[test]
fn queue_ids_are_read_from_match_records() {
    assert_eq!(read_queue_id(r#"{"info":{"queueId":420}}"#), Some(420));
    assert_eq!(read_queue_id(r#"{"info":{"queueId":-1}}"#), None);
    assert_eq!(read_queue_id(r#"{"info":{"queueId":4294967296}}"#), None);
    assert_eq!(read_queue_id(r#"{"info":{"queueId":18446744073709551615}}"#), None);
    assert_eq!(read_queue_id("{"), None);
    assert!(baseline(&SnapshotFile { stem: "p".to_string(), snapshot: None }).is_none());
}

#[test]
fn paths_hash_like_their_bytes() {
    let base = 0xcbf2_9ce4_8422_2325;
    assert_eq!(fold_path_segment(base, "a", 0), 0xaf63_dc4c_8601_ec8c);
    let nested = fold_path_segment(fold_path_segment(base, "rank", 0), "lp", 1);
    assert_eq!(nested, fnv1a_64_fold(base, b"rank.lp"));
    assert_eq!(terminate_field_hash(nested, &vec![2, 6]), fnv1a_64_fold(base, b"rank.lp\0\x02\x06"));
    let roots = Roots { field: 1, variant: base };
    assert_eq!(variant_hash(&roots, "Some", &vec![3]), fnv1a_64_fold(base, b"Some\0\x03"));
}
