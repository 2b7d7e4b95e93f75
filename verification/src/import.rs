//! Backfills the journal from the marker files of an archive (`.posted-*`,
//! `.message-id`, `.clips-*`) and the LP snapshots: a one-shot cutover.

use vstd::prelude::*;
use vstd::string::*;

use crate::game::text_of;
use crate::json::{read, Json, Tree};
use crate::kinds::{
    AbandonedV, AttachedV, AttemptV, ClipAttempt, ClipsAbandoned, ClipsAttached, GamePosted,
    PostedV, RankObserved, RankSeenV,
};
use crate::text::{parse_at_most, rsplit_once, trim};
use crate::tick::{slug, Account, AccountV};
use crate::{json, scan, text, tick};

verus! {

/// What one archived game's directory holds.
#[derive(Debug)]
pub struct ArchivedGame {
    /// The name of the directory above it.
    pub platform: String,
    /// Its own name.
    pub dir_name: String,
    /// What `.message-id` says.
    pub message_id: Option<String>,
    /// What `match.json` says.
    pub match_json: Option<String>,
    /// For each account of the watch list, whether its `.posted-*` is there.
    pub posted: Vec<bool>,
    /// Whether `highlight.mp4` is there.
    pub highlight: bool,
    /// Whether `lowlight.mp4` is there.
    pub lowlight: bool,
    /// What `.clips-tries` says.
    pub tries: Option<String>,
    /// Whether `.clips-done` is there.
    pub clips_done: bool,
}

/// The mathematical value of an [`ArchivedGame`].
pub struct ArchivedV {
    pub platform: Seq<char>,
    pub dir_name: Seq<char>,
    pub message_id: Option<Seq<char>>,
    pub match_json: Option<Seq<char>>,
    pub posted: Seq<bool>,
    pub highlight: bool,
    pub lowlight: bool,
    pub tries: Option<Seq<char>>,
    pub clips_done: bool,
}

impl View for ArchivedGame {
    type V = ArchivedV;

    open spec fn view(&self) -> ArchivedV {
        ArchivedV {
            platform: self.platform@,
            dir_name: self.dir_name@,
            message_id: text_of(self.message_id),
            match_json: text_of(self.match_json),
            posted: self.posted@,
            highlight: self.highlight,
            lowlight: self.lowlight,
            tries: text_of(self.tries),
            clips_done: self.clips_done,
        }
    }
}

/// A ranked standing that a snapshot file holds.
#[derive(Debug)]
pub struct Snapshot {
    /// The ladder position.
    pub value: i32,
    pub label: String,
    pub lp: i32,
}

/// An integer member of a value, where it fits in 32 bits.
pub open spec fn small_at(t: Tree, key: Seq<char>) -> Option<i32> {
    match t.int_at(key) {
        Some(n) => if i32::MIN <= n <= i32::MAX {
            Some(n as i32)
        } else {
            None
        },
        None => None,
    }
}

/// Ladder position, label and LP of the standing in a snapshot file.
pub open spec fn snapshot_in(t: Option<Tree>) -> Option<(i32, Seq<char>, i32)> {
    match t {
        Some(t) => match (small_at(t, "value"@), t.str_at("label"@), small_at(t, "lp"@)) {
            (Some(value), Some(label), Some(lp)) => Some((value, label, lp)),
            _ => None,
        },
        None => None,
    }
}

/// Ladder position, label and LP of a snapshot.
pub open spec fn standing(s: Option<Snapshot>) -> Option<(i32, Seq<char>, i32)> {
    match s {
        Some(s) => Some((s.value, s.label@, s.lp)),
        None => None,
    }
}

fn small(j: &Json, key: &str) -> (r: Option<i32>)
    ensures
        r == small_at(j@, key@),
{
    match j.int_at(key) {
        Some(n) => if -0x8000_0000 <= n && n <= 0x7fff_ffff {
            Some(n as i32)
        } else {
            None
        },
        None => None,
    }
}

/// The standing in a snapshot file.
pub fn read_snapshot(raw: &str) -> (r: Option<Snapshot>)
    ensures
        standing(r) == snapshot_in(json::read_tree(raw@)),
{
    match read(raw) {
        Some(j) => match (small(&j, "value"), j.str_at("label"), small(&j, "lp")) {
            (Some(value), Some(label), Some(lp)) => Some(
                Snapshot { value, label: label.clone(), lp },
            ),
            _ => None,
        },
        None => None,
    }
}

/// The name of the marker file that says a game was posted for a player.
pub fn posted_marker(riot_id: &str) -> (r: String)
    ensures
        r@ == ".posted-"@ + tick::slugged(riot_id@),
{
    ".posted-".to_string().concat(slug(riot_id).as_str())
}

/// One snapshot file: its name without the extension, and what it holds.
#[derive(Debug)]
pub struct SnapshotFile {
    pub stem: String,
    pub snapshot: Option<Snapshot>,
}

/// The mathematical value of a [`SnapshotFile`].
pub struct SnapshotFileV {
    pub stem: Seq<char>,
    /// Ladder position, label and LP.
    pub snapshot: Option<(i32, Seq<char>, i32)>,
}

impl View for SnapshotFile {
    type V = SnapshotFileV;

    open spec fn view(&self) -> SnapshotFileV {
        SnapshotFileV {
            stem: self.stem@,
            snapshot: standing(self.snapshot),
        }
    }
}

/// An event to be appended.
#[derive(Debug)]
pub enum Backfill {
    Posted(GamePosted),
    Attempt(ClipAttempt),
    Attached(ClipsAttached),
    Abandoned(ClipsAbandoned),
    Rank(RankObserved),
}

/// The mathematical value of a [`Backfill`].
pub enum BackfillV {
    Posted(PostedV),
    Attempt(AttemptV),
    Attached(AttachedV),
    Abandoned(AbandonedV),
    Rank(RankSeenV),
}

impl View for Backfill {
    type V = BackfillV;

    open spec fn view(&self) -> BackfillV {
        match self {
            Backfill::Posted(e) => BackfillV::Posted(e@),
            Backfill::Attempt(e) => BackfillV::Attempt(e@),
            Backfill::Attached(e) => BackfillV::Attached(e@),
            Backfill::Abandoned(e) => BackfillV::Abandoned(e@),
            Backfill::Rank(e) => BackfillV::Rank(e@),
        }
    }
}

// --- queue ids -----------------------------------------------------------------------

/// The queue id in a match record.
pub open spec fn queue_in(record: Option<Tree>) -> Option<u32> {
    match record {
        Some(t) => match t.get("info"@) {
            Some(info) => match info.int_at("queueId"@) {
                Some(n) => if 0 <= n <= u32::MAX {
                    Some(n as u32)
                } else {
                    None
                },
                None => None,
            },
            None => None,
        },
        None => None,
    }
}

/// The queue id in a parsed match record.
pub fn queue_id_in(record: &Json) -> (r: Option<u32>)
    ensures
        r == queue_in(Some(record@)),
{
    match record.get("info") {
        Some(info) => match info.int_at("queueId") {
            Some(n) => if 0 <= n && n <= 0xffff_ffff {
                Some(n as u32)
            } else {
                None
            },
            None => None,
        },
        None => None,
    }
}

/// The queue id of an archived game, from its `match.json`.
pub fn read_queue_id(raw: &str) -> (r: Option<u32>)
    ensures
        r == queue_in(json::read_tree(raw@)),
{
    match read(raw) {
        Some(record) => queue_id_in(&record),
        None => None,
    }
}

// --- one game ------------------------------------------------------------------------

/// The queue id that an archived game's record gives, 0 without one.
pub open spec fn queue_of(g: ArchivedV) -> u32 {
    match g.match_json {
        Some(raw) => match queue_in(json::read_tree(raw)) {
            Some(q) => q,
            None => 0,
        },
        None => 0,
    }
}

/// The message id that was noted, empty without one.
pub open spec fn message_of(g: ArchivedV) -> Seq<char> {
    match g.message_id {
        Some(m) => text::trimmed(m),
        None => seq![],
    }
}

/// The tries that were noted, 0 without any.
pub open spec fn tries_of(g: ArchivedV) -> u32 {
    match g.tries {
        Some(t) => match text::number_at_most(text::trimmed(t), u32::MAX as nat) {
            Some(n) => n as u32,
            None => 0,
        },
        None => 0,
    }
}

/// The post that an account's marker tells of.
pub open spec fn marked_post(g: ArchivedV, game_id: u64, account: AccountV) -> PostedV {
    PostedV {
        platform: g.platform,
        game_id,
        riot_id: account.riot_id,
        queue_id: queue_of(g),
        message_id: message_of(g),
        rank: None,
        puuid: None,
    }
}

/// The posts that the first `n` accounts' markers tell of.
pub open spec fn posts_of(
    g: ArchivedV,
    game_id: u64,
    accounts: Seq<AccountV>,
    n: nat,
) -> Seq<BackfillV>
    decreases n,
{
    if n == 0 {
        seq![]
    } else {
        let before = posts_of(g, game_id, accounts, (n - 1) as nat);
        if g.posted[n - 1] {
            before.push(
                BackfillV::Posted(marked_post(g, game_id, accounts[n - 1])),
            )
        } else {
            before
        }
    }
}

/// The attempt that the tries tell of.
pub open spec fn attempts_of(g: ArchivedV, game_id: u64) -> Seq<BackfillV> {
    if tries_of(g) > 0 {
        seq![
            BackfillV::Attempt(
                AttemptV {
                    platform: g.platform,
                    game_id,
                    try_number: tries_of(g),
                    riot_id: None,
                },
            ),
        ]
    } else {
        seq![]
    }
}

/// How the clip job ended, where it did: with a clip there it was attached,
/// otherwise abandoned.
pub open spec fn ending_of(g: ArchivedV, game_id: u64) -> Seq<BackfillV> {
    if !g.clips_done {
        seq![]
    } else if g.highlight || g.lowlight {
        seq![
            BackfillV::Attached(AttachedV { platform: g.platform, game_id, riot_id: None }),
        ]
    } else {
        seq![
            BackfillV::Abandoned(
                AbandonedV { platform: g.platform, game_id, tries: tries_of(g), riot_id: None },
            ),
        ]
    }
}

/// The events of an archived game; none where its directory is named by no
/// game id.
pub open spec fn events_of(g: ArchivedV, accounts: Seq<AccountV>) -> Seq<BackfillV> {
    match text::number_at_most(g.dir_name, u64::MAX as nat) {
        Some(id) => posts_of(g, id as u64, accounts, accounts.len()) + attempts_of(g, id as u64)
            + ending_of(g, id as u64),
        None => seq![],
    }
}

fn push_posts(
    out: &mut Vec<Backfill>,
    game: &ArchivedGame,
    game_id: u64,
    accounts: &Vec<Account>,
)
    requires
        game.posted@.len() == accounts@.len(),
    ensures
        scan::views(final(out)@) == scan::views(old(out)@) + posts_of(
            game@,
            game_id,
            scan::views(accounts@),
            accounts@.len(),
        ),
{
    let message_id: String = match &game.message_id {
        Some(m) => trim(m.as_str()),
        None => String::new(),
    };
    let queue_id: u32 = match &game.match_json {
        Some(raw) => match read_queue_id(raw.as_str()) {
            Some(q) => q,
            None => 0,
        },
        None => 0,
    };
    proof {
        assert(message_id@ =~= message_of(game@));
        assert(scan::views(out@) + posts_of(game@, game_id, scan::views(accounts@), 0)
            =~= scan::views(out@));
    }
    for i in 0..accounts.len()
        invariant
            game.posted@.len() == accounts@.len(),
            message_id@ == message_of(game@),
            queue_id == queue_of(game@),
            scan::views(out@) == scan::views(old(out)@) + posts_of(
                game@,
                game_id,
                scan::views(accounts@),
                i as nat,
            ),
    {
        let ghost before = out@;
        if game.posted[i] {
            let e: GamePosted = GamePosted {
                platform: game.platform.clone(),
                game_id,
                riot_id: accounts[i].riot_id.clone(),
                queue_id,
                message_id: message_id.clone(),
                rank: None,
                puuid: None,
            };
            out.push(Backfill::Posted(e));
            proof {
                assert(scan::views(out@) =~= scan::views(before).push(BackfillV::Posted(e@)));
                assert(scan::views(out@) =~= scan::views(old(out)@) + posts_of(
                    game@,
                    game_id,
                    scan::views(accounts@),
                    (i + 1) as nat,
                ));
            }
        }
    }
}

fn read_tries(game: &ArchivedGame) -> (r: u32)
    ensures
        r == tries_of(game@),
{
    match &game.tries {
        Some(t) => match parse_at_most(trim(t.as_str()).as_str(), u32::MAX as u64) {
            Some(n) => n as u32,
            None => 0,
        },
        None => 0,
    }
}

/// Appends the events that one archived game's directory tells of.
pub fn push_game(out: &mut Vec<Backfill>, game: &ArchivedGame, accounts: &Vec<Account>)
    requires
        game.posted@.len() == accounts@.len(),
    ensures
        scan::views(final(out)@) == scan::views(old(out)@) + events_of(
            game@,
            scan::views(accounts@),
        ),
{
    let game_id: u64 = match parse_at_most(game.dir_name.as_str(), u64::MAX) {
        Some(id) => id,
        None => {
            proof {
                assert(scan::views(out@) + seq![] =~= scan::views(out@));
            }
            return ;
        },
    };
    push_posts(out, game, game_id, accounts);
    let ghost posted = out@;
    let tries: u32 = read_tries(game);
    if tries > 0 {
        let e: ClipAttempt = ClipAttempt {
            platform: game.platform.clone(),
            game_id,
            try_number: tries,
            riot_id: None,
        };
        out.push(Backfill::Attempt(e));
        proof {
            assert(scan::views(out@) =~= scan::views(posted).push(BackfillV::Attempt(e@)));
        }
    }
    proof {
        assert(scan::views(out@) =~= scan::views(posted) + attempts_of(game@, game_id));
    }
    let ghost tried = out@;
    if game.clips_done {
        if game.highlight || game.lowlight {
            let e: ClipsAttached = ClipsAttached {
                platform: game.platform.clone(),
                game_id,
                riot_id: None,
            };
            out.push(Backfill::Attached(e));
            proof {
                assert(scan::views(out@) =~= scan::views(tried).push(BackfillV::Attached(e@)));
            }
        } else {
            let e: ClipsAbandoned = ClipsAbandoned {
                platform: game.platform.clone(),
                game_id,
                tries,
                riot_id: None,
            };
            out.push(Backfill::Abandoned(e));
            proof {
                assert(scan::views(out@) =~= scan::views(tried).push(BackfillV::Abandoned(e@)));
            }
        }
    }
    proof {
        assert(scan::views(out@) =~= scan::views(tried) + ending_of(game@, game_id));
        assert(scan::views(out@) =~= scan::views(old(out)@) + events_of(
            game@,
            scan::views(accounts@),
        ));
    }
}

// --- baselines -----------------------------------------------------------------------

/// The observation that a snapshot file tells of: it is named by a PUUID and a
/// queue id.
pub open spec fn baseline_of(f: SnapshotFileV) -> Option<RankSeenV> {
    match text::rcut_once(f.stem, '_') {
        Some((puuid, queue)) => match (
            text::number_at_most(queue, u32::MAX as nat),
            f.snapshot,
        ) {
            (Some(q), Some((value, label, lp))) => Some(
                RankSeenV {
                    puuid,
                    riot_id: seq![],
                    queue_id: q as u32,
                    ladder_value: value,
                    label,
                    lp,
                },
            ),
            _ => None,
        },
        None => None,
    }
}

/// The observation that a snapshot file tells of.
pub fn baseline(file: &SnapshotFile) -> (r: Option<RankObserved>)
    ensures
        match r {
            Some(e) => baseline_of(file@) == Some(e@),
            None => baseline_of(file@) is None,
        },
{
    match rsplit_once(file.stem.as_str(), '_') {
        Some((puuid, queue)) => match parse_at_most(queue.as_str(), u32::MAX as u64) {
            Some(q) => match &file.snapshot {
                Some(s) => {
                    let nobody: String = String::new();
                    proof {
                        assert(nobody@ =~= seq![]);
                    }
                    Some(
                        RankObserved {
                            puuid,
                            riot_id: nobody,
                            queue_id: q as u32,
                            ladder_value: s.value,
                            label: s.label.clone(),
                            lp: s.lp,
                        },
                    )
                },
                None => None,
            },
            None => None,
        },
        None => None,
    }
}

/// The observations that some snapshot files tell of.
pub open spec fn baselines_of(files: Seq<SnapshotFileV>) -> Seq<BackfillV>
    decreases files.len(),
{
    if files.len() == 0 {
        seq![]
    } else {
        let before = baselines_of(files.drop_last());
        match baseline_of(files.last()) {
            Some(e) => before.push(BackfillV::Rank(e)),
            None => before,
        }
    }
}

/// The events that some archived games tell of.
pub open spec fn all_events(games: Seq<ArchivedV>, accounts: Seq<AccountV>) -> Seq<BackfillV>
    decreases games.len(),
{
    if games.len() == 0 {
        seq![]
    } else {
        all_events(games.drop_last(), accounts) + events_of(games.last(), accounts)
    }
}

// --- the import ----------------------------------------------------------------------

/// What is said of a journal that has events already.
pub open spec fn refusal(journal: Seq<char>) -> Seq<char> {
    "journal "@ + journal + " already has events; refusing to import twice"@
}

/// The events to append to an empty journal: those of every archived game, in
/// order, then the LP baselines. Refused once the journal has events.
pub fn import_legacy_state(
    journal: &str,
    journal_is_empty: bool,
    games: &Vec<ArchivedGame>,
    accounts: &Vec<Account>,
    snapshots: &Vec<SnapshotFile>,
) -> (r: Result<Vec<Backfill>, String>)
    requires
        forall|i: int|
            0 <= i < games@.len() ==> (#[trigger] games@[i]).posted@.len() == accounts@.len(),
    ensures
        match r {
            Ok(events) => journal_is_empty && scan::views(events@) == all_events(
                scan::views(games@),
                scan::views(accounts@),
            ) + baselines_of(scan::views(snapshots@)),
            Err(e) => !journal_is_empty && e@ == refusal(journal@),
        },
{
    if !journal_is_empty {
        return Err(
            "journal ".to_string().concat(journal).concat(
                " already has events; refusing to import twice",
            ),
        );
    }
    let ghost all = scan::views(games@);
    let ghost roster = scan::views(accounts@);
    let mut out: Vec<Backfill> = Vec::new();
    proof {
        assert(scan::views(out@) =~= all_events(all.take(0), roster));
    }
    for i in 0..games.len()
        invariant
            all == scan::views(games@),
            roster == scan::views(accounts@),
            forall|i: int|
                0 <= i < games@.len() ==> (#[trigger] games@[i]).posted@.len() == accounts@.len(),
            scan::views(out@) == all_events(all.take(i as int), roster),
    {
        proof {
            assert(all.take(i + 1).drop_last() =~= all.take(i as int));
            assert(all.take(i + 1).last() == games@[i as int]@);
        }
        push_game(&mut out, &games[i], accounts);
    }
    let ghost first = scan::views(out@);
    let ghost files = scan::views(snapshots@);
    proof {
        assert(all.take(all.len() as int) =~= all);
        assert(first + baselines_of(files.take(0)) =~= first);
    }
    for i in 0..snapshots.len()
        invariant
            files == scan::views(snapshots@),
            scan::views(out@) == first + baselines_of(files.take(i as int)),
    {
        proof {
            assert(files.take(i + 1).drop_last() =~= files.take(i as int));
            assert(files.take(i + 1).last() == snapshots@[i as int]@);
        }
        let ghost before = out@;
        if let Some(e) = baseline(&snapshots[i]) {
            out.push(Backfill::Rank(e));
            proof {
                assert(scan::views(out@) =~= scan::views(before).push(BackfillV::Rank(e@)));
                assert(scan::views(out@) =~= first + baselines_of(files.take(i + 1)));
            }
        }
    }
    proof {
        assert(files.take(files.len() as int) =~= files);
    }
    Ok(out)
}

// --- laws ------------------------------------------------------------------------------

proof fn lemma_marker_is_told(
    g: ArchivedV,
    game_id: u64,
    accounts: Seq<AccountV>,
    n: nat,
    i: int,
)
    requires
        0 <= i < n,
        g.posted[i],
    ensures
        posts_of(g, game_id, accounts, n).contains(
            BackfillV::Posted(marked_post(g, game_id, accounts[i])),
        ),
    decreases n,
{
    let told = posts_of(g, game_id, accounts, n);
    let e = BackfillV::Posted(marked_post(g, game_id, accounts[i]));
    if i == n - 1 {
        assert(told.last() == e);
        assert(told[told.len() - 1] == e);
    } else {
        let before = posts_of(g, game_id, accounts, (n - 1) as nat);
        lemma_marker_is_told(g, game_id, accounts, (n - 1) as nat, i);
        let k = choose|k: int| 0 <= k < before.len() && before[k] == e;
        assert(told[k] == e);
    }
}

/// Every marker of an archived game becomes a post: whatever the poller posted
/// before the cutover is not posted again after it.
pub proof fn lemma_every_marker_becomes_a_post(
    games: Seq<ArchivedV>,
    accounts: Seq<AccountV>,
    k: int,
    i: int,
)
    requires
        0 <= k < games.len(),
        0 <= i < accounts.len(),
        games[k].posted[i],
        text::number_at_most(games[k].dir_name, u64::MAX as nat) is Some,
    ensures
        all_events(games, accounts).contains(
            BackfillV::Posted(
                marked_post(
                    games[k],
                    text::number_at_most(games[k].dir_name, u64::MAX as nat)->0 as u64,
                    accounts[i],
                ),
            ),
        ),
    decreases games.len(),
{
    let id = text::number_at_most(games[k].dir_name, u64::MAX as nat)->0 as u64;
    let e = BackfillV::Posted(marked_post(games[k], id, accounts[i]));
    let before = all_events(games.drop_last(), accounts);
    let all = all_events(games, accounts);
    if k == games.len() - 1 {
        lemma_marker_is_told(games[k], id, accounts, accounts.len(), i);
        let posts = posts_of(games[k], id, accounts, accounts.len());
        let j = choose|j: int| 0 <= j < posts.len() && posts[j] == e;
        assert(events_of(games[k], accounts)[j] == e);
        assert(all[before.len() + j] == e);
    } else {
        lemma_every_marker_becomes_a_post(games.drop_last(), accounts, k, i);
        let j = choose|j: int| 0 <= j < before.len() && before[j] == e;
        assert(all[j] == e);
    }
}

} // verus!
