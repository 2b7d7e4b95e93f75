//! The journal's read side: a pure fold over the append-only event log.
//!
//! The journal is the truth; everything the poller knows — what was posted,
//! which clips are pending, LP baselines — is a [`Projection`] of it. A row
//! carries the name of its kind and a payload; a row whose kind is not known is
//! skipped (a newer writer's event, not an error), and unknown fields inside a
//! known kind are passed over.

use vstd::prelude::*;
use vstd::string::*;

use crate::kinds::{
    AccountResolved, AttemptV, ClipAttempt, ClipsAbandoned, ClipsAttached, GamePosted,
    PicksAssigned, PicksV, PostedV, RankObserved, RankSeenV,
};
use crate::leaves::{decode_storage, Kind};
use crate::seqs::{sort, Order};
use crate::stats::{RankInfo, RankInfoV};
use crate::storage::{Roots, StorageError};
use crate::table::{Table, TableKey};
use crate::text::{precedes, same, to_lowercase};
use crate::{game, leaves, scan, seqs, table, text};

verus! {

/// How many eras back an identity is followed.
pub const ERA_BUDGET: u32 = 64;

/// A pending or finished clip job for one posted game.
#[derive(Debug)]
pub struct ClipJob {
    /// The tracked player whose perspective the clips take (the last poster).
    pub riot_id: String,
    /// Attempts already made.
    pub tries: u32,
    /// Terminal (attached or abandoned) — no further attempts.
    pub done: bool,
}

/// The mathematical value of a [`ClipJob`].
pub struct ClipJobV {
    pub riot_id: Seq<char>,
    pub tries: u32,
    pub done: bool,
}

impl View for ClipJob {
    type V = ClipJobV;

    open spec fn view(&self) -> ClipJobV {
        ClipJobV { riot_id: self.riot_id@, tries: self.tries, done: self.done }
    }
}

impl Clone for ClipJob {
    fn clone(&self) -> (r: ClipJob)
        ensures
            r == *self,
    {
        ClipJob { riot_id: self.riot_id.clone(), tries: self.tries, done: self.done }
    }
}

/// A job that nothing has happened to.
pub open spec fn fresh_job() -> ClipJobV {
    ClipJobV { riot_id: seq![], tries: 0, done: false }
}

fn new_job() -> (r: ClipJob)
    ensures
        r@ == fresh_job(),
{
    let riot_id: String = String::new();
    proof {
        assert(riot_id@ =~= seq![]);
    }
    ClipJob { riot_id, tries: 0, done: false }
}

/// The key of one player's perspective of a game: platform, game, identity.
pub type Perspective = (Seq<char>, u64, Seq<char>);

/// The mathematical value of a [`Projection`].
pub struct ProjectionV {
    /// Perspectives already posted.
    pub posted: Set<Perspective>,
    /// Discord message id per perspective.
    pub message_ids: Map<Perspective, Seq<char>>,
    /// Clip job per perspective.
    pub clips: Map<Perspective, ClipJobV>,
    /// Newest posted game per (identity, queue).
    pub newest: Map<(Seq<char>, u32), (Seq<char>, u64)>,
    /// Name (lowercase) → latest PUUID.
    pub pins: Map<Seq<char>, Seq<char>>,
    /// PUUID → the older PUUID it succeeded.
    pub canon: Map<Seq<char>, Seq<char>>,
    /// Last observed ladder value per (identity, queue).
    pub ranks: Map<(Seq<char>, u32), i32>,
    /// Post-time LP line per perspective.
    pub rank_lines: Map<Perspective, RankInfoV>,
    /// Clip picks per perspective.
    pub picks: Map<Perspective, PicksV>,
}

/// The state before any event.
pub open spec fn nothing() -> ProjectionV {
    ProjectionV {
        posted: Set::empty(),
        message_ids: Map::empty(),
        clips: Map::empty(),
        newest: Map::empty(),
        pins: Map::empty(),
        canon: Map::empty(),
        ranks: Map::empty(),
        rank_lines: Map::empty(),
        picks: Map::empty(),
    }
}

/// The PUUID reached from `puuid` by following at most `n` era links.
pub open spec fn walk(canon: Map<Seq<char>, Seq<char>>, puuid: Seq<char>, n: nat) -> Seq<char>
    decreases n,
{
    if n == 0 || !canon.dom().contains(puuid) {
        puuid
    } else {
        walk(canon, canon[puuid], (n - 1) as nat)
    }
}

impl ProjectionV {
    /// The oldest PUUID in a PUUID's era chain.
    pub open spec fn root(self, puuid: Seq<char>) -> Seq<char> {
        walk(self.canon, puuid, ERA_BUDGET as nat)
    }

    /// The permanent identity a display name resolves to, in whatever case.
    pub open spec fn identity(self, riot_id: Seq<char>) -> Seq<char> {
        self.identity_of(text::lowercase(riot_id))
    }

    /// The permanent identity a lowercased name resolves to: its PUUID pin's
    /// era root, or the name itself when nothing has pinned it.
    pub open spec fn identity_of(self, lower: Seq<char>) -> Seq<char> {
        if self.pins.dom().contains(lower) {
            self.root(self.pins[lower])
        } else {
            lower
        }
    }

    /// The state after a name was pinned to a PUUID.
    pub open spec fn pinned(self, riot_id: Seq<char>, puuid: Seq<char>) -> ProjectionV {
        self.pinned_as(text::lowercase(riot_id), puuid)
    }

    /// The state after a lowercased name was pinned to a PUUID. When the name
    /// already pointed at a different identity, the new PUUID's root joins the
    /// old one.
    pub open spec fn pinned_as(self, lower: Seq<char>, puuid: Seq<char>) -> ProjectionV {
        let joined = if self.pins.dom().contains(lower) && self.root(self.pins[lower])
            != self.root(puuid) {
            self.canon.insert(self.root(puuid), self.root(self.pins[lower]))
        } else {
            self.canon
        };
        ProjectionV { canon: joined, pins: self.pins.insert(lower, puuid), ..self }
    }

    /// The identity a post is about.
    pub open spec fn poster(self, e: PostedV) -> Seq<char> {
        match e.puuid {
            Some(puuid) => self.root(puuid),
            None => self.identity(e.riot_id),
        }
    }

    /// The floor of (identity, queue) after a post.
    pub open spec fn floor_after(self, e: PostedV) -> (Seq<char>, u64) {
        let key = (self.poster(e), e.queue_id);
        let floor = if self.newest.dom().contains(key) {
            self.newest[key]
        } else {
            (e.platform, 0)
        };
        if e.game_id > floor.1 {
            (e.platform, e.game_id)
        } else {
            floor
        }
    }

    /// The clip job of a perspective, a fresh one where there is none.
    pub open spec fn job(self, key: Perspective) -> ClipJobV {
        if self.clips.dom().contains(key) {
            self.clips[key]
        } else {
            fresh_job()
        }
    }

    /// The state after a post. A re-post refreshes the display name of a clip
    /// job and never resurrects a finished one.
    pub open spec fn after_posted(self, e: PostedV) -> ProjectionV {
        let ident = self.poster(e);
        let key = (e.platform, e.game_id, ident);
        let job = self.job(key);
        ProjectionV {
            newest: self.newest.insert((ident, e.queue_id), self.floor_after(e)),
            posted: self.posted.insert(key),
            message_ids: if e.message_id.len() > 0 {
                self.message_ids.insert(key, e.message_id)
            } else {
                self.message_ids
            },
            rank_lines: match e.rank {
                Some(rank) => self.rank_lines.insert(key, rank),
                None => self.rank_lines,
            },
            clips: self.clips.insert(
                key,
                if job.done {
                    job
                } else {
                    ClipJobV { riot_id: e.riot_id, ..job }
                },
            ),
            ..self
        }
    }

    /// The state after a ranked standing was observed.
    pub open spec fn after_rank(self, e: RankSeenV) -> ProjectionV {
        ProjectionV {
            ranks: self.ranks.insert((self.root(e.puuid), e.queue_id), e.ladder_value),
            ..self
        }
    }

    /// The clip jobs with those of one game changed by `f`.
    pub open spec fn jobs_changed(
        self,
        platform: Seq<char>,
        game_id: u64,
        f: spec_fn(ClipJobV) -> ClipJobV,
    ) -> Map<Perspective, ClipJobV> {
        Map::new(
            |k: Perspective| self.clips.dom().contains(k),
            |k: Perspective|
                if k.0 == platform && k.1 == game_id {
                    f(self.clips[k])
                } else {
                    self.clips[k]
                },
        )
    }

    /// The state after a recording attempt: one perspective's, or, without a
    /// player, every perspective's of the game.
    pub open spec fn after_attempt(self, e: AttemptV) -> ProjectionV {
        ProjectionV {
            clips: match e.riot_id {
                Some(riot_id) => {
                    let key = (e.platform, e.game_id, self.identity(riot_id));
                    self.clips.insert(key, tried(e.try_number)(self.job(key)))
                },
                None => self.jobs_changed(e.platform, e.game_id, tried(e.try_number)),
            },
            ..self
        }
    }

    /// The state after a clip job ended: one perspective's, or, without a
    /// player, every perspective's of the game.
    pub open spec fn after_terminal(
        self,
        platform: Seq<char>,
        game_id: u64,
        riot_id: Option<Seq<char>>,
    ) -> ProjectionV {
        ProjectionV {
            clips: match riot_id {
                Some(riot_id) => {
                    let key = (platform, game_id, self.identity(riot_id));
                    self.clips.insert(key, finished()(self.job(key)))
                },
                None => self.jobs_changed(platform, game_id, finished()),
            },
            ..self
        }
    }

    /// The state after picks were assigned; the last write wins.
    pub open spec fn after_picks(self, e: PicksV) -> ProjectionV {
        ProjectionV {
            picks: self.picks.insert((e.platform, e.game_id, self.root(e.puuid)), e),
            ..self
        }
    }
}

/// A job after an attempt: it keeps the most tries seen.
pub open spec fn tried(try_number: u32) -> spec_fn(ClipJobV) -> ClipJobV {
    |job: ClipJobV|
        ClipJobV {
            tries: if job.tries < try_number {
                try_number
            } else {
                job.tries
            },
            ..job
        }
}

/// A job that ended.
pub open spec fn finished() -> spec_fn(ClipJobV) -> ClipJobV {
    |job: ClipJobV| ClipJobV { done: true, ..job }
}

/// Read-side state: a pure fold of the journal.
#[derive(Debug)]
pub struct Projection {
    posted: Table<(String, u64, String), bool>,
    message_ids: Table<(String, u64, String), String>,
    clips: Table<(String, u64, String), ClipJob>,
    newest: Table<(String, u32), (String, u64)>,
    pins: Table<String, String>,
    canon: Table<String, String>,
    ranks: Table<(String, u32), i32>,
    rank_lines: Table<(String, u64, String), RankInfo>,
    picks: Table<(String, u64, String), PicksAssigned>,
}

impl View for Projection {
    type V = ProjectionV;

    closed spec fn view(&self) -> ProjectionV {
        ProjectionV {
            posted: self.posted.map().dom(),
            message_ids: self.message_ids.map(),
            clips: self.clips.map(),
            newest: self.newest.map(),
            pins: self.pins.map(),
            canon: self.canon.map(),
            ranks: self.ranks.map(),
            rank_lines: self.rank_lines.map(),
            picks: self.picks.map(),
        }
    }
}

impl Projection {
    /// Whether no table holds a key twice.
    pub closed spec fn wf(self) -> bool {
        &&& self.posted.wf()
        &&& self.message_ids.wf()
        &&& self.clips.wf()
        &&& self.newest.wf()
        &&& self.pins.wf()
        &&& self.canon.wf()
        &&& self.ranks.wf()
        &&& self.rank_lines.wf()
        &&& self.picks.wf()
    }

    /// The state before any event.
    pub fn new() -> (r: Projection)
        ensures
            r.wf(),
            r@ == nothing(),
    {
        let r: Projection = Projection {
            posted: Table::new(),
            message_ids: Table::new(),
            clips: Table::new(),
            newest: Table::new(),
            pins: Table::new(),
            canon: Table::new(),
            ranks: Table::new(),
            rank_lines: Table::new(),
            picks: Table::new(),
        };
        proof {
            assert(r@.posted =~= Set::empty());
        }
        r
    }

    /// The oldest PUUID in this PUUID's era chain — the one identity every
    /// projection map keys by. Budgeted walk; the chain is one hop per key
    /// swap in practice.
    pub fn canonical(&self, puuid: &str) -> (r: String)
        requires
            self.wf(),
        ensures
            r@ == self@.root(puuid@),
    {
        let mut current: String = puuid.to_string();
        let mut left: u32 = ERA_BUDGET;
        let mut going: bool = true;
        while going && left > 0
            invariant
                self.wf(),
                walk(self@.canon, puuid@, ERA_BUDGET as nat) == walk(
                    self@.canon,
                    current@,
                    left as nat,
                ),
                !going ==> !self@.canon.dom().contains(current@),
            decreases left,
        {
            match self.canon.get(&current) {
                Some(older) => {
                    current = older.clone();
                },
                None => {
                    going = false;
                },
            }
            left = left - 1;
        }
        current
    }

    /// The permanent identity a display name resolves to: its PUUID pin's
    /// era root, or the lowercased name itself when nothing has pinned it.
    pub fn ident(&self, riot_id: &str) -> (r: String)
        requires
            self.wf(),
        ensures
            r@ == self@.identity(riot_id@),
    {
        self.ident_of(to_lowercase(riot_id))
    }

    /// The permanent identity a lowercased name resolves to.
    pub fn ident_of(&self, lower: String) -> (r: String)
        requires
            self.wf(),
        ensures
            r@ == self@.identity_of(lower@),
    {
        match self.pins.get(&lower) {
            Some(puuid) => self.canonical(puuid.as_str()),
            None => lower,
        }
    }

    /// Records a name → PUUID pin, unioning PUUID eras: when the name already
    /// pointed at a different identity, the new PUUID's root joins the old
    /// one, so a key swap (which re-encrypts every PUUID) never forks a
    /// player's history.
    pub fn pin(&mut self, riot_id: &str, puuid: String)
        requires
            old(self).wf(),
        ensures
            final(self).wf(),
            final(self)@ == old(self)@.pinned(riot_id@, puuid@),
    {
        self.pin_as(to_lowercase(riot_id), puuid);
    }

    /// Records the pin of a lowercased name.
    pub fn pin_as(&mut self, lower: String, puuid: String)
        requires
            old(self).wf(),
        ensures
            final(self).wf(),
            final(self)@ == old(self)@.pinned_as(lower@, puuid@),
    {
        let new_root: String = self.canonical(puuid.as_str());
        let prev_root: Option<String> = match self.pins.get(&lower) {
            Some(prev) => Some(self.canonical(prev.as_str())),
            None => None,
        };
        if let Some(prev_root) = prev_root {
            if !same(prev_root.as_str(), new_root.as_str()) {
                self.canon.insert(new_root, prev_root);
            }
        }
        self.pins.insert(lower, puuid);
    }

    /// A post: the dedup row, the floor, the message and the LP line of a
    /// perspective, and its clip job.
    pub fn apply_posted(&mut self, event: GamePosted)
        requires
            old(self).wf(),
        ensures
            final(self).wf(),
            final(self)@ == old(self)@.after_posted(event@),
    {
        let ident: String = match &event.puuid {
            Some(puuid) => self.canonical(puuid.as_str()),
            None => self.ident(event.riot_id.as_str()),
        };
        proof {
            assert(ident@ == self@.poster(event@));
        }
        let floor_key: (String, u32) = (ident.clone(), event.queue_id);
        let floor: (String, u64) = match self.newest.get(&floor_key) {
            Some(floor) => (floor.0.clone(), floor.1),
            None => (event.platform.clone(), 0),
        };
        let raised: (String, u64) = if event.game_id > floor.1 {
            (event.platform.clone(), event.game_id)
        } else {
            floor
        };
        let key: (String, u64, String) = (event.platform.clone(), event.game_id, ident);
        let job: ClipJob = match self.clips.get(&key) {
            Some(job) => job.clone(),
            None => new_job(),
        };
        let ghost was = self@;
        self.newest.insert(floor_key, raised);
        self.posted.insert(key.copy_key(), true);
        if !event.message_id.as_str().is_empty() {
            self.message_ids.insert(key.copy_key(), event.message_id);
        }
        if let Some(rank) = event.rank {
            self.rank_lines.insert(key.copy_key(), rank);
        }
        // Refresh the display name; a re-post never resurrects a finished job.
        let job: ClipJob = if job.done {
            job
        } else {
            ClipJob { riot_id: event.riot_id, tries: job.tries, done: false }
        };
        self.clips.insert(key, job);
        proof {
            let want = was.after_posted(event@);
            assert(self@.posted =~= want.posted);
            assert(self@.clips =~= want.clips);
            assert(self@ == want);
        }
    }

    /// An observed standing.
    pub fn apply_rank(&mut self, event: RankObserved)
        requires
            old(self).wf(),
        ensures
            final(self).wf(),
            final(self)@ == old(self)@.after_rank(event@),
    {
        let ident: String = self.canonical(event.puuid.as_str());
        self.ranks.insert((ident, event.queue_id), event.ladder_value);
    }

    /// Changes every clip job of a game: counts an attempt, or ends it.
    fn change_jobs(&mut self, platform: &str, game_id: u64, attempt: Option<u32>)
        requires
            old(self).wf(),
        ensures
            final(self).wf(),
            final(self)@ == (ProjectionV {
                clips: old(self)@.jobs_changed(
                    platform@,
                    game_id,
                    match attempt {
                        Some(n) => tried(n),
                        None => finished(),
                    },
                ),
                ..old(self)@
            }),
    {
        let ghost f = match attempt {
            Some(n) => tried(n),
            None => finished(),
        };
        let ghost before = self@;
        let ghost rows = self.clips.rows();
        let n: usize = self.clips.entries.len();
        let ghost want = before.jobs_changed(platform@, game_id, f);
        proof {
            table::lemma_map_of(rows);
        }
        for i in 0..n
            invariant
                self.wf(),
                n == self.clips.entries@.len(),
                rows.len() == n,
                f == (match attempt {
                    Some(n) => tried(n),
                    None => finished(),
                }),
                self@ == (ProjectionV { clips: self.clips.map(), ..before }),
                forall|j: int|
                    0 <= j < n ==> (#[trigger] self.clips.rows()[j]).0 == rows[j].0,
                forall|j: int| i <= j < n ==> (#[trigger] self.clips.rows()[j]).1 == rows[j].1,
                forall|j: int|
                    0 <= j < i ==> (#[trigger] self.clips.rows()[j]).1 == (if rows[j].0.0
                        == platform@ && rows[j].0.1 == game_id {
                        f(rows[j].1)
                    } else {
                        rows[j].1
                    }),
        {
            let ghost here = self.clips.rows();
            proof {
                assert(here[i as int] == (
                    self.clips.entries@[i as int].0.key(),
                    self.clips.entries@[i as int].1@,
                ));
            }
            let hit: bool = self.clips.entries[i].0.1 == game_id && same(
                self.clips.entries[i].0.0.as_str(),
                platform,
            );
            if hit {
                let job: &ClipJob = &self.clips.entries[i].1;
                let changed: ClipJob = match attempt {
                    Some(n) => ClipJob {
                        riot_id: job.riot_id.clone(),
                        tries: if job.tries < n {
                            n
                        } else {
                            job.tries
                        },
                        done: job.done,
                    },
                    None => ClipJob { riot_id: job.riot_id.clone(), tries: job.tries, done: true },
                };
                proof {
                    assert(changed@ == f(rows[i as int].1));
                }
                let ghost was = self.clips.entries@;
                self.clips.replace(i, changed);
                proof {
                    let now = self.clips.rows();
                    assert forall|j: int| 0 <= j < n implies (#[trigger] now[j]).0 == here[j].0 && (
                    j != i ==> now[j].1 == here[j].1) by {
                        assert(now[j] == (
                            self.clips.entries@[j].0.key(),
                            self.clips.entries@[j].1@,
                        ));
                        assert(here[j] == (was[j].0.key(), was[j].1@));
                    }
                    assert(now[i as int].1 == changed@);
                }
            }
        }
        proof {
            let now = self.clips.rows();
            assert forall|j: int| 0 <= j < now.len() implies want.dom().contains(
                (#[trigger] now[j]).0,
            ) && want[now[j].0] == now[j].1 by {
                assert(now[j].0 == rows[j].0);
                assert(before.clips.dom().contains(rows[j].0));
                assert(before.clips[rows[j].0] == rows[j].1);
            }
            assert forall|x: Perspective| #[trigger] want.dom().contains(x) implies exists|j: int|
                0 <= j < now.len() && (#[trigger] now[j]).0 == x by {
                let j = choose|j: int| 0 <= j < rows.len() && (#[trigger] rows[j]).0 == x;
                assert(now[j].0 == x);
            }
            table::lemma_is_map_of(now, want);
        }
    }

    /// A recording attempt. A legacy event without a player is every
    /// perspective's of the game.
    pub fn apply_attempt(&mut self, event: &ClipAttempt)
        requires
            old(self).wf(),
        ensures
            final(self).wf(),
            final(self)@ == old(self)@.after_attempt(event@),
    {
        match &event.riot_id {
            Some(riot_id) => {
                let ident: String = self.ident(riot_id.as_str());
                let key: (String, u64, String) = (event.platform.clone(), event.game_id, ident);
                let job: ClipJob = match self.clips.get(&key) {
                    Some(job) => job.clone(),
                    None => new_job(),
                };
                let tries: u32 = if job.tries < event.try_number {
                    event.try_number
                } else {
                    job.tries
                };
                self.clips.insert(key, ClipJob { riot_id: job.riot_id, tries, done: job.done });
            },
            None => {
                self.change_jobs(event.platform.as_str(), event.game_id, Some(event.try_number));
            },
        }
    }

    /// The end of a clip job. A legacy event without a player ends every
    /// perspective's of the game.
    pub fn apply_terminal(&mut self, platform: &str, game_id: u64, riot_id: &Option<String>)
        requires
            old(self).wf(),
        ensures
            final(self).wf(),
            final(self)@ == old(self)@.after_terminal(platform@, game_id, game::text_of(*riot_id)),
    {
        match riot_id {
            Some(riot_id) => {
                let ident: String = self.ident(riot_id.as_str());
                let key: (String, u64, String) = (platform.to_string(), game_id, ident);
                let job: ClipJob = match self.clips.get(&key) {
                    Some(job) => job.clone(),
                    None => new_job(),
                };
                self.clips.insert(
                    key,
                    ClipJob { riot_id: job.riot_id, tries: job.tries, done: true },
                );
            },
            None => {
                self.change_jobs(platform, game_id, None);
            },
        }
    }

    /// Assigned picks.
    pub fn apply_picks(&mut self, event: PicksAssigned)
        requires
            old(self).wf(),
        ensures
            final(self).wf(),
            final(self)@ == old(self)@.after_picks(event@),
    {
        let ident: String = self.canonical(event.puuid.as_str());
        self.picks.insert((event.platform.clone(), event.game_id, ident), event);
    }
}

// --- the fold ----------------------------------------------------------------

/// Why a fold failed: a row of a known kind does not decode.
#[derive(Debug)]
pub struct FoldError {
    pub kind: String,
    pub error: StorageError,
}

/// The value of a fold error.
pub open spec fn fold_error(e: FoldError) -> (Seq<char>, StorageError) {
    (e.kind@, e.error)
}

/// What a row pins: a name and a PUUID.
#[verifier::opaque]
pub open spec fn pin_of(kind: Seq<char>, payload: Seq<u8>, roots: Roots) -> Result<
    Option<(Seq<char>, Seq<char>)>,
    StorageError,
> {
    if kind == AccountResolved::kind_name() {
        match leaves::decoded::<AccountResolved>(payload, roots) {
            Ok(e) => Ok(Some((e.riot_id, e.puuid))),
            Err(e) => Err(e),
        }
    } else if kind == GamePosted::kind_name() {
        match leaves::decoded::<GamePosted>(payload, roots) {
            Ok(e) => match e.puuid {
                Some(puuid) => Ok(Some((e.riot_id, puuid))),
                None => Ok(None),
            },
            Err(e) => Err(e),
        }
    } else if kind == PicksAssigned::kind_name() {
        match leaves::decoded::<PicksAssigned>(payload, roots) {
            Ok(e) => Ok(Some((e.riot_id, e.puuid))),
            Err(e) => Err(e),
        }
    } else {
        Ok(None)
    }
}

/// The state after the name → PUUID pins of the first `n` rows.
pub open spec fn pins_pass(rows: Seq<(Seq<char>, Seq<u8>)>, n: nat, roots: Roots) -> Result<
    ProjectionV,
    (Seq<char>, StorageError),
>
    decreases n,
{
    if n == 0 {
        Ok(nothing())
    } else {
        match pins_pass(rows, (n - 1) as nat, roots) {
            Err(e) => Err(e),
            Ok(p) => match pin_of(rows[n - 1].0, rows[n - 1].1, roots) {
                Err(e) => Err((rows[n - 1].0, e)),
                Ok(Some((riot_id, puuid))) => Ok(p.pinned(riot_id, puuid)),
                Ok(None) => Ok(p),
            },
        }
    }
}

/// The state after a row, with every name-keyed row re-keyed to its permanent
/// identity. A row of an unknown kind changes nothing.
#[verifier::opaque]
pub open spec fn applied(p: ProjectionV, kind: Seq<char>, payload: Seq<u8>, roots: Roots) -> Result<
    ProjectionV,
    StorageError,
> {
    if kind == GamePosted::kind_name() {
        match leaves::decoded::<GamePosted>(payload, roots) {
            Ok(e) => Ok(p.after_posted(e)),
            Err(e) => Err(e),
        }
    } else if kind == RankObserved::kind_name() {
        match leaves::decoded::<RankObserved>(payload, roots) {
            Ok(e) => Ok(p.after_rank(e)),
            Err(e) => Err(e),
        }
    } else if kind == ClipAttempt::kind_name() {
        match leaves::decoded::<ClipAttempt>(payload, roots) {
            Ok(e) => Ok(p.after_attempt(e)),
            Err(e) => Err(e),
        }
    } else if kind == ClipsAttached::kind_name() {
        match leaves::decoded::<ClipsAttached>(payload, roots) {
            Ok(e) => Ok(p.after_terminal(e.platform, e.game_id, e.riot_id)),
            Err(e) => Err(e),
        }
    } else if kind == ClipsAbandoned::kind_name() {
        match leaves::decoded::<ClipsAbandoned>(payload, roots) {
            Ok(e) => Ok(p.after_terminal(e.platform, e.game_id, e.riot_id)),
            Err(e) => Err(e),
        }
    } else if kind == PicksAssigned::kind_name() {
        match leaves::decoded::<PicksAssigned>(payload, roots) {
            Ok(e) => Ok(p.after_picks(e)),
            Err(e) => Err(e),
        }
    } else {
        Ok(p)
    }
}

/// The state after the first `n` rows, from `start`.
pub open spec fn events_pass(
    start: ProjectionV,
    rows: Seq<(Seq<char>, Seq<u8>)>,
    n: nat,
    roots: Roots,
) -> Result<ProjectionV, (Seq<char>, StorageError)>
    decreases n,
{
    if n == 0 {
        Ok(start)
    } else {
        match events_pass(start, rows, (n - 1) as nat, roots) {
            Err(e) => Err(e),
            Ok(p) => match applied(p, rows[n - 1].0, rows[n - 1].1, roots) {
                Err(e) => Err((rows[n - 1].0, e)),
                Ok(next) => Ok(next),
            },
        }
    }
}

/// The state that a journal folds to: first every pin, then every event.
pub open spec fn folded(rows: Seq<(Seq<char>, Seq<u8>)>, roots: Roots) -> Result<
    ProjectionV,
    (Seq<char>, StorageError),
> {
    match pins_pass(rows, rows.len(), roots) {
        Err(e) => Err(e),
        Ok(p) => events_pass(p, rows, rows.len(), roots),
    }
}

proof fn lemma_pins_stop(rows: Seq<(Seq<char>, Seq<u8>)>, k: nat, n: nat, roots: Roots)
    requires
        k <= n,
        pins_pass(rows, k, roots) is Err,
    ensures
        pins_pass(rows, n, roots) == pins_pass(rows, k, roots),
    decreases n - k,
{
    if k < n {
        lemma_pins_stop(rows, k, (n - 1) as nat, roots);
    }
}

proof fn lemma_events_stop(
    start: ProjectionV,
    rows: Seq<(Seq<char>, Seq<u8>)>,
    k: nat,
    n: nat,
    roots: Roots,
)
    requires
        k <= n,
        events_pass(start, rows, k, roots) is Err,
    ensures
        events_pass(start, rows, n, roots) == events_pass(start, rows, k, roots),
    decreases n - k,
{
    if k < n {
        lemma_events_stop(start, rows, k, (n - 1) as nat, roots);
    }
}

/// The value of an optional pin.
pub open spec fn pin_view(p: Option<(String, String)>) -> Option<(Seq<char>, Seq<char>)> {
    match p {
        Some((riot_id, puuid)) => Some((riot_id@, puuid@)),
        None => None,
    }
}

/// Reads what a row pins.
pub fn read_pin(kind: &str, payload: &Vec<u8>, roots: &Roots) -> (r: Result<
    Option<(String, String)>,
    StorageError,
>)
    ensures
        match r {
            Ok(p) => pin_of(kind@, payload@, *roots) == Ok::<
                Option<(Seq<char>, Seq<char>)>,
                StorageError,
            >(pin_view(p)),
            Err(e) => pin_of(kind@, payload@, *roots) == Err::<
                Option<(Seq<char>, Seq<char>)>,
                StorageError,
            >(e),
        },
{
    reveal(pin_of);
    if same(kind, AccountResolved::name()) {
        match decode_storage::<AccountResolved>(payload, roots) {
            Ok(e) => Ok(Some((e.riot_id, e.puuid))),
            Err(e) => Err(e),
        }
    } else if same(kind, GamePosted::name()) {
        match decode_storage::<GamePosted>(payload, roots) {
            Ok(e) => match e.puuid {
                Some(puuid) => Ok(Some((e.riot_id, puuid))),
                None => Ok(None),
            },
            Err(e) => Err(e),
        }
    } else if same(kind, PicksAssigned::name()) {
        match decode_storage::<PicksAssigned>(payload, roots) {
            Ok(e) => Ok(Some((e.riot_id, e.puuid))),
            Err(e) => Err(e),
        }
    } else {
        Ok(None)
    }
}

impl Projection {
    /// Applies one row. A row of an unknown kind is a newer writer's event, and
    /// is skipped.
    pub fn apply(&mut self, kind: &str, payload: &Vec<u8>, roots: &Roots) -> (r: Result<
        (),
        StorageError,
    >)
        requires
            old(self).wf(),
        ensures
            final(self).wf(),
            match r {
                Ok(_) => applied(old(self)@, kind@, payload@, *roots) == Ok::<
                    ProjectionV,
                    StorageError,
                >(final(self)@),
                Err(e) => applied(old(self)@, kind@, payload@, *roots) == Err::<
                    ProjectionV,
                    StorageError,
                >(e) && final(self)@ == old(self)@,
            },
    {
        reveal(applied);
        if same(kind, GamePosted::name()) {
            match decode_storage::<GamePosted>(payload, roots) {
                Ok(e) => {
                    self.apply_posted(e);
                    Ok(())
                },
                Err(e) => Err(e),
            }
        } else if same(kind, RankObserved::name()) {
            match decode_storage::<RankObserved>(payload, roots) {
                Ok(e) => {
                    self.apply_rank(e);
                    Ok(())
                },
                Err(e) => Err(e),
            }
        } else if same(kind, ClipAttempt::name()) {
            match decode_storage::<ClipAttempt>(payload, roots) {
                Ok(e) => {
                    self.apply_attempt(&e);
                    Ok(())
                },
                Err(e) => Err(e),
            }
        } else if same(kind, ClipsAttached::name()) {
            match decode_storage::<ClipsAttached>(payload, roots) {
                Ok(e) => {
                    self.apply_terminal(e.platform.as_str(), e.game_id, &e.riot_id);
                    Ok(())
                },
                Err(e) => Err(e),
            }
        } else if same(kind, ClipsAbandoned::name()) {
            match decode_storage::<ClipsAbandoned>(payload, roots) {
                Ok(e) => {
                    self.apply_terminal(e.platform.as_str(), e.game_id, &e.riot_id);
                    Ok(())
                },
                Err(e) => Err(e),
            }
        } else if same(kind, PicksAssigned::name()) {
            match decode_storage::<PicksAssigned>(payload, roots) {
                Ok(e) => {
                    self.apply_picks(e);
                    Ok(())
                },
                Err(e) => Err(e),
            }
        } else {
            Ok(())
        }
    }

    /// Folds every row, in append order, into the current state.
    ///
    /// Two passes: the first collects the name→PUUID pins (account_resolved
    /// and picks_assigned events, plus any game_posted that carries its puuid),
    /// the second applies events with every name-keyed row re-keyed to its
    /// permanent identity — so rows written before the puuid field, or before a
    /// rename, land under the same identity as everything after.
    pub fn fold(rows: &Vec<(String, Vec<u8>)>, roots: &Roots) -> (r: Result<
        Projection,
        FoldError,
    >)
        ensures
            match r {
                Ok(p) => p.wf() && folded(scan::views(rows@), *roots) == Ok::<
                    ProjectionV,
                    (Seq<char>, StorageError),
                >(p@),
                Err(e) => folded(scan::views(rows@), *roots) == Err::<
                    ProjectionV,
                    (Seq<char>, StorageError),
                >(fold_error(e)),
            },
    {
        let ghost all = scan::views(rows@);
        let mut projection: Projection = Projection::new();
        for i in 0..rows.len()
            invariant
                all == scan::views(rows@),
                projection.wf(),
                pins_pass(all, i as nat, *roots) == Ok::<ProjectionV, (Seq<char>, StorageError)>(
                    projection@,
                ),
        {
            proof {
                assert(all[i as int] == (rows@[i as int].0@, rows@[i as int].1@));
            }
            match read_pin(rows[i].0.as_str(), &rows[i].1, roots) {
                Ok(Some((riot_id, puuid))) => {
                    projection.pin(riot_id.as_str(), puuid);
                },
                Ok(None) => {},
                Err(error) => {
                    proof {
                        lemma_pins_stop(all, (i + 1) as nat, all.len(), *roots);
                    }
                    return Err(FoldError { kind: rows[i].0.clone(), error });
                },
            }
        }
        let ghost start = projection@;
        for i in 0..rows.len()
            invariant
                all == scan::views(rows@),
                projection.wf(),
                pins_pass(all, all.len(), *roots) == Ok::<ProjectionV, (Seq<char>, StorageError)>(
                    start,
                ),
                events_pass(start, all, i as nat, *roots) == Ok::<
                    ProjectionV,
                    (Seq<char>, StorageError),
                >(projection@),
        {
            proof {
                assert(all[i as int] == (rows@[i as int].0@, rows@[i as int].1@));
            }
            if let Err(error) = projection.apply(rows[i].0.as_str(), &rows[i].1, roots) {
                proof {
                    lemma_events_stop(start, all, (i + 1) as nat, all.len(), *roots);
                }
                return Err(FoldError { kind: rows[i].0.clone(), error });
            }
        }
        Ok(projection)
    }
}

// --- queries -----------------------------------------------------------------

impl Projection {
    /// Was this game already posted for this player? The name re-keys through
    /// its PUUID pin, so the answer survives renames.
    pub fn is_posted(&self, platform: &str, game_id: u64, riot_id: &str) -> (r: bool)
        requires
            self.wf(),
        ensures
            r == self@.posted.contains((platform@, game_id, self@.identity(riot_id@))),
    {
        self.posted.find(&(platform.to_string(), game_id, self.ident(riot_id))).is_some()
    }

    /// The Discord message id recorded for this player's post of a game.
    pub fn message_id(&self, platform: &str, game_id: u64, riot_id: &str) -> (r: Option<&String>)
        requires
            self.wf(),
        ensures
            ({
                let key = (platform@, game_id, self@.identity(riot_id@));
                match r {
                    Some(id) => self@.message_ids.dom().contains(key) && self@.message_ids[key]
                        == id@,
                    None => !self@.message_ids.dom().contains(key),
                }
            }),
    {
        self.message_ids.get(&(platform.to_string(), game_id, self.ident(riot_id)))
    }

    /// The pinned PUUID for a display name, if any pass recorded one.
    pub fn puuid_of(&self, riot_id: &str) -> (r: Option<&String>)
        requires
            self.wf(),
        ensures
            match r {
                Some(puuid) => self@.pins.dom().contains(text::lowercase(riot_id@))
                    && self@.pins[text::lowercase(riot_id@)] == puuid@,
                None => !self@.pins.dom().contains(text::lowercase(riot_id@)),
            },
    {
        self.pins.get(&to_lowercase(riot_id))
    }

    /// The LP line rendered when this player's post of the game went out.
    pub fn rank_line(&self, platform: &str, game_id: u64, riot_id: &str) -> (r: Option<&RankInfo>)
        requires
            self.wf(),
        ensures
            ({
                let key = (platform@, game_id, self@.identity(riot_id@));
                match r {
                    Some(rank) => self@.rank_lines.dom().contains(key) && self@.rank_lines[key]
                        == rank@,
                    None => !self@.rank_lines.dom().contains(key),
                }
            }),
    {
        self.rank_lines.get(&(platform.to_string(), game_id, self.ident(riot_id)))
    }

    /// The journaled clip picks for this player's perspective of a game.
    pub fn picks(&self, platform: &str, game_id: u64, riot_id: &str) -> (r: Option<&PicksAssigned>)
        requires
            self.wf(),
        ensures
            ({
                let key = (platform@, game_id, self@.identity(riot_id@));
                match r {
                    Some(picks) => self@.picks.dom().contains(key) && self@.picks[key] == picks@,
                    None => !self@.picks.dom().contains(key),
                }
            }),
    {
        self.picks.get(&(platform.to_string(), game_id, self.ident(riot_id)))
    }

    /// The previous ladder value for (puuid, queue), the LP-delta baseline.
    /// Resolves through the era chain so a key swap doesn't null the delta.
    pub fn previous_ladder(&self, puuid: &str, queue_id: u32) -> (r: Option<i32>)
        requires
            self.wf(),
        ensures
            r == self@.baseline(puuid@, queue_id),
    {
        match self.ranks.get(&(self.canonical(puuid), queue_id)) {
            Some(value) => Some(*value),
            None => None,
        }
    }

    /// The oldest game id of a platform already posted for this player: what
    /// came before it is history, not news.
    pub fn oldest_posted(&self, platform: &str, riot_id: &str) -> (r: Option<u64>)
        requires
            self.wf(),
        ensures
            match r {
                Some(id) => {
                    &&& self@.was_posted(platform@, riot_id@, id)
                    &&& forall|other: u64| #[trigger]
                        self@.was_posted(platform@, riot_id@, other) ==> id <= other
                },
                None => forall|other: u64| !#[trigger]
                    self@.was_posted(platform@, riot_id@, other),
            },
    {
        let ident: String = self.ident(riot_id);
        let mut least: Option<u64> = None;
        let ghost rows = self.posted.rows();
        proof {
            table::lemma_map_of(rows);
        }
        for i in 0..self.posted.entries.len()
            invariant
                self.wf(),
                rows == self.posted.rows(),
                ident@ == self@.identity(riot_id@),
                forall|j: int|
                    0 <= j < rows.len() ==> self@.posted.contains((#[trigger] rows[j]).0),
                match least {
                    Some(id) => {
                        &&& self@.was_posted(platform@, riot_id@, id)
                        &&& forall|j: int|
                            0 <= j < i && (#[trigger] rows[j]).0.0 == platform@ && rows[j].0.2
                                == ident@ ==> id <= rows[j].0.1
                    },
                    None => forall|j: int|
                        0 <= j < i ==> !((#[trigger] rows[j]).0.0 == platform@ && rows[j].0.2
                            == ident@),
                },
        {
            let entry: &((String, u64, String), bool) = &self.posted.entries[i];
            proof {
                assert(rows[i as int] == (entry.0.key(), entry.1@));
            }
            if same(entry.0.0.as_str(), platform) && same(entry.0.2.as_str(), ident.as_str()) {
                let id: u64 = entry.0.1;
                proof {
                    assert(self@.posted.contains(rows[i as int].0));
                    assert(self@.was_posted(platform@, riot_id@, id));
                }
                least = match least {
                    Some(b) => if id < b {
                        Some(id)
                    } else {
                        Some(b)
                    },
                    None => Some(id),
                };
            }
        }
        proof {
            assert forall|other: u64| #[trigger]
                self@.was_posted(platform@, riot_id@, other) implies match least {
                Some(id) => id <= other,
                None => false,
            } by {
                let key = (platform@, other, ident@);
                assert(table::map_of(rows).dom().contains(key));
                assert(map_contains_row(rows, key));
                let j = choose|j: int| 0 <= j < rows.len() && (#[trigger] rows[j]).0 == key;
                assert(rows[j].0 == key);
            }
        }
        least
    }

    /// The newest game id already posted for this player — in one queue, or
    /// across all queues when `queue_id` is `None` (an `all` watch line).
    pub fn newest_posted(&self, riot_id: &str, queue_id: Option<u32>) -> (r: Option<u64>)
        requires
            self.wf(),
        ensures
            match r {
                Some(id) => {
                    &&& exists|q: u32|
                        #[trigger] self@.has_floor(riot_id@, queue_id, q) && self@.floor(
                            riot_id@,
                            q,
                        ) == id
                    &&& forall|q: u32| #[trigger]
                        self@.has_floor(riot_id@, queue_id, q) ==> self@.floor(riot_id@, q) <= id
                },
                None => forall|q: u32| !#[trigger] self@.has_floor(riot_id@, queue_id, q),
            },
    {
        let ident: String = self.ident(riot_id);
        let mut best: Option<u64> = None;
        let ghost rows = self.newest.rows();
        proof {
            table::lemma_map_of(rows);
        }
        for i in 0..self.newest.entries.len()
            invariant
                self.wf(),
                rows == self.newest.rows(),
                ident@ == self@.identity(riot_id@),
                forall|j: int|
                    0 <= j < rows.len() ==> self@.newest.dom().contains((#[trigger] rows[j]).0)
                        && self@.newest[rows[j].0] == rows[j].1,
                match best {
                    Some(id) => {
                        &&& exists|q: u32|
                            #[trigger] self@.has_floor(riot_id@, queue_id, q) && self@.floor(
                                riot_id@,
                                q,
                            ) == id
                        &&& forall|j: int|
                            0 <= j < i && (#[trigger] rows[j]).0.0 == ident@ && (match queue_id {
                                Some(want) => rows[j].0.1 == want,
                                None => true,
                            }) ==> rows[j].1.1 <= id
                    },
                    None => forall|j: int|
                        0 <= j < i ==> !((#[trigger] rows[j]).0.0 == ident@ && (match queue_id {
                            Some(want) => rows[j].0.1 == want,
                            None => true,
                        })),
                },
        {
            let entry: &((String, u32), (String, u64)) = &self.newest.entries[i];
            proof {
                assert(rows[i as int] == (entry.0.key(), entry.1@));
            }
            let wanted: bool = match queue_id {
                Some(want) => entry.0.1 == want,
                None => true,
            };
            if wanted && same(entry.0.0.as_str(), ident.as_str()) {
                let id: u64 = entry.1.1;
                proof {
                    assert(self@.has_floor(riot_id@, queue_id, entry.0.1));
                    assert(self@.floor(riot_id@, entry.0.1) == id);
                }
                best = match best {
                    Some(b) => if id > b {
                        Some(id)
                    } else {
                        Some(b)
                    },
                    None => Some(id),
                };
            }
        }
        proof {
            assert forall|q: u32| #[trigger] self@.has_floor(riot_id@, queue_id, q) implies match best {
                Some(id) => self@.floor(riot_id@, q) <= id,
                None => false,
            } by {
                let key = (ident@, q);
                assert(map_contains_row(rows, key));
                let j = choose|j: int| 0 <= j < rows.len() && (#[trigger] rows[j]).0 == key;
                assert(self@.newest[rows[j].0] == rows[j].1);
            }
        }
        best
    }
}

/// Whether a row with this key is present.
spec fn map_contains_row<K, V>(rows: Seq<(K, V)>, key: K) -> bool {
    exists|j: int| 0 <= j < rows.len() && (#[trigger] rows[j]).0 == key
}

impl ProjectionV {
    /// Whether a game was posted for a player.
    pub open spec fn was_posted(self, platform: Seq<char>, riot_id: Seq<char>, game_id: u64) -> bool {
        self.posted.contains((platform, game_id, self.identity(riot_id)))
    }

    /// Whether a player has a floor in queue `q`, and `q` is asked for.
    pub open spec fn has_floor(self, riot_id: Seq<char>, queue_id: Option<u32>, q: u32) -> bool {
        self.newest.dom().contains((self.identity(riot_id), q)) && (match queue_id {
            Some(want) => q == want,
            None => true,
        })
    }

    /// A player's floor in queue `q`.
    pub open spec fn floor(self, riot_id: Seq<char>, q: u32) -> u64 {
        self.newest[(self.identity(riot_id), q)].1
    }

    /// The last observed ladder value of an identity in a queue.
    pub open spec fn baseline(self, puuid: Seq<char>, queue_id: u32) -> Option<i32> {
        let key = (self.root(puuid), queue_id);
        if self.ranks.dom().contains(key) {
            Some(self.ranks[key])
        } else {
            None
        }
    }
}

// --- clip jobs ---------------------------------------------------------------

/// A clip job as it is listed: platform, game, job.
pub type Listed = (Seq<char>, u64, ClipJobV);

/// Whether `keys` are the keys of `clips` that satisfy `p`, each one once.
pub open spec fn lists(
    keys: Seq<Perspective>,
    clips: Map<Perspective, ClipJobV>,
    p: spec_fn(Perspective) -> bool,
) -> bool {
    &&& keys.no_duplicates()
    &&& forall|k: Perspective|
        #![trigger keys.contains(k)]
        #![trigger clips.dom().contains(k)]
        keys.contains(k) <==> clips.dom().contains(k) && p(k)
}

/// The jobs under a list of keys.
pub open spec fn listing(keys: Seq<Perspective>, clips: Map<Perspective, ClipJobV>) -> Seq<Listed> {
    keys.map_values(|k: Perspective| (k.0, k.1, clips[k]))
}

/// The jobs under a list of keys, alone.
pub open spec fn jobs_under(keys: Seq<Perspective>, clips: Map<Perspective, ClipJobV>) -> Seq<
    ClipJobV,
> {
    keys.map_values(|k: Perspective| clips[k])
}

/// Which keys hold an unfinished job of a known player.
pub open spec fn pending_in(clips: Map<Perspective, ClipJobV>) -> spec_fn(Perspective) -> bool {
    |k: Perspective| !clips[k].done && clips[k].riot_id.len() > 0
}

/// Which keys are perspectives of a game.
pub open spec fn of_game(platform: Seq<char>, game_id: u64) -> spec_fn(Perspective) -> bool {
    |k: Perspective| k.0 == platform && k.1 == game_id
}

/// The newest game first; within a game, the players by name.
pub open spec fn newest_first() -> spec_fn(Listed, Listed) -> bool {
    |a: Listed, b: Listed|
        a.1 > b.1 || (a.1 == b.1 && text::comes_before(a.2.riot_id, b.2.riot_id))
}

/// The values of a list of jobs.
pub open spec fn jobs_view(v: Seq<(String, u64, ClipJob)>) -> Seq<Listed> {
    v.map_values(|e: (String, u64, ClipJob)| (e.0@, e.1, e.2@))
}

/// An entry of the clip table.
pub type JobEntry = ((String, u64, String), ClipJob);

struct NewestFirst;

impl Order<JobEntry> for NewestFirst {
    open spec fn lt(a: JobEntry, b: JobEntry) -> bool {
        a.0.1 > b.0.1 || (a.0.1 == b.0.1 && text::comes_before(a.1.riot_id@, b.1.riot_id@))
    }

    fn before(a: &JobEntry, b: &JobEntry) -> (r: bool) {
        a.0.1 > b.0.1 || (a.0.1 == b.0.1 && precedes(a.1.riot_id.as_str(), b.1.riot_id.as_str()))
    }
}

/// The key of an entry of the clip table.
spec fn entry_key() -> spec_fn(JobEntry) -> Perspective {
    |e: JobEntry| e.0.key()
}

impl Projection {
    /// Copies the entries of the clip table that are pending.
    fn pending_entries(&self) -> (r: Vec<JobEntry>)
        requires
            self.wf(),
        ensures
            seqs::distinct_by(r@, entry_key()),
            forall|i: int|
                0 <= i < r@.len() ==> self@.clips.dom().contains((#[trigger] r@[i]).0.key())
                    && self@.clips[r@[i].0.key()] == r@[i].1@ && pending_in(self@.clips)(
                    r@[i].0.key(),
                ),
            forall|k: Perspective| #[trigger]
                self@.clips.dom().contains(k) && pending_in(self@.clips)(k) ==> exists|i: int|
                    0 <= i < r@.len() && (#[trigger] r@[i]).0.key() == k,
    {
        let ghost rows = self.clips.rows();
        proof {
            table::lemma_map_of(rows);
        }
        let mut out: Vec<JobEntry> = Vec::new();
        // Where each copied entry stands in the table.
        let ghost mut at: Seq<int> = seq![];
        for i in 0..self.clips.entries.len()
            invariant
                self.wf(),
                rows == self.clips.rows(),
                rows.len() == self.clips.entries@.len(),
                forall|j: int|
                    0 <= j < rows.len() ==> self@.clips.dom().contains((#[trigger] rows[j]).0)
                        && self@.clips[rows[j].0] == rows[j].1,
                at.len() == out@.len(),
                forall|k: int|
                    #![trigger at[k]]
                    0 <= k < at.len() ==> 0 <= at[k] < i && rows[at[k]].0 == out@[k].0.key()
                        && rows[at[k]].1 == out@[k].1@ && pending_in(self@.clips)(rows[at[k]].0),
                forall|a: int, b: int| 0 <= a < b < at.len() ==> #[trigger] at[a] < #[trigger] at[b],
                forall|j: int|
                    0 <= j < i && pending_in(self@.clips)((#[trigger] rows[j]).0) ==> at.contains(j),
        {
            let ghost before = out@;
            let ghost was = at;
            let entry: &JobEntry = &self.clips.entries[i];
            proof {
                assert(rows[i as int] == (entry.0.key(), entry.1@));
            }
            if !entry.1.done && !entry.1.riot_id.as_str().is_empty() {
                out.push((entry.0.copy_key(), entry.1.clone()));
                proof {
                    at = was.push(i as int);
                    assert forall|k: int| #![trigger at[k]] 0 <= k < at.len() implies 0 <= at[k] < i
                        + 1 && rows[at[k]].0 == out@[k].0.key() && rows[at[k]].1 == out@[k].1@
                        && pending_in(self@.clips)(rows[at[k]].0) by {
                        if k < was.len() {
                            assert(at[k] == was[k]);
                            assert(out@[k] == before[k]);
                        }
                    }
                    assert forall|j: int|
                        0 <= j < i + 1 && pending_in(self@.clips)(
                            (#[trigger] rows[j]).0,
                        ) implies at.contains(j) by {
                        if j < i {
                            let k = choose|k: int| 0 <= k < was.len() && was[k] == j;
                            assert(at[k] == j);
                        } else {
                            assert(at[was.len() as int] == j);
                        }
                    }
                }
            }
        }
        proof {
            assert forall|a: int, b: int| 0 <= a < b < out@.len() implies entry_key()(
                #[trigger] out@[a],
            ) != entry_key()(#[trigger] out@[b]) by {
                assert(at[a] < at[b]);
                assert(rows[at[a]].0 != rows[at[b]].0);
            }
            assert forall|k: int| 0 <= k < out@.len() implies self@.clips.dom().contains(
                (#[trigger] out@[k]).0.key(),
            ) && self@.clips[out@[k].0.key()] == out@[k].1@ && pending_in(self@.clips)(
                out@[k].0.key(),
            ) by {
                assert(rows[at[k]].0 == out@[k].0.key());
            }
            assert forall|k: Perspective| #[trigger]
                self@.clips.dom().contains(k) && pending_in(self@.clips)(k) implies exists|i: int|
                0 <= i < out@.len() && (#[trigger] out@[i]).0.key() == k by {
                let j = choose|j: int| 0 <= j < rows.len() && (#[trigger] rows[j]).0 == k;
                assert(pending_in(self@.clips)(rows[j].0));
                let i = choose|i: int| 0 <= i < at.len() && at[i] == j;
                assert(out@[i].0.key() == k);
            }
        }
        out
    }

    /// Unfinished clip jobs, newest game first: the latest post gets its clips
    /// promptly and a stuck replay can't starve newer games behind it. Within a
    /// game they come by the players' names; in which order two jobs of one name
    /// come is left open.
    pub fn pending_clips(&self) -> (r: Vec<(String, u64, ClipJob)>)
        requires
            self.wf(),
        ensures
            exists|keys: Seq<Perspective>|
                #![trigger listing(keys, self@.clips)]
                lists(keys, self@.clips, pending_in(self@.clips)) && jobs_view(r@) == listing(
                    keys,
                    self@.clips,
                ),
            seqs::in_order(jobs_view(r@), newest_first()),
    {
        let list: Vec<JobEntry> = self.pending_entries();
        let ghost lt = |a: JobEntry, b: JobEntry| NewestFirst::lt(a, b);
        let ghost given = list@;
        let sorted: Vec<JobEntry> = sort::<JobEntry, NewestFirst>(list);
        let ghost keys = sorted@.map_values(entry_key());
        proof {
            seqs::lemma_sort_distinct(given, lt, entry_key());
            lemma_job_order();
            seqs::lemma_sort_orders(given, lt);
            assert(keys.no_duplicates()) by {
                assert forall|a: int, b: int|
                    0 <= a < keys.len() && 0 <= b < keys.len() && a != b implies keys[a]
                    != keys[b] by {
                    if a < b {
                        assert(entry_key()(sorted@[a]) != entry_key()(sorted@[b]));
                    } else {
                        assert(entry_key()(sorted@[b]) != entry_key()(sorted@[a]));
                    }
                }
            }
            assert forall|k: Perspective|
                #![trigger keys.contains(k)]
                #![trigger self@.clips.dom().contains(k)]
                keys.contains(k) <==> self@.clips.dom().contains(k) && pending_in(self@.clips)(
                    k,
                ) by {
                if keys.contains(k) {
                    let i = choose|i: int| 0 <= i < keys.len() && keys[i] == k;
                    assert(sorted@.contains(sorted@[i]));
                    assert(given.contains(sorted@[i]));
                    let j = choose|j: int| 0 <= j < given.len() && given[j] == sorted@[i];
                    assert(given[j].0.key() == k);
                }
                if self@.clips.dom().contains(k) && pending_in(self@.clips)(k) {
                    let j = choose|j: int| 0 <= j < given.len() && (#[trigger] given[j]).0.key()
                        == k;
                    assert(given.contains(given[j]));
                    assert(sorted@.contains(given[j]));
                    let i = choose|i: int| 0 <= i < sorted@.len() && sorted@[i] == given[j];
                    assert(keys[i] == k);
                }
            }
            assert forall|i: int| 0 <= i < sorted@.len() implies self@.clips[
                (#[trigger] sorted@[i]).0.key()] == sorted@[i].1@ by {
                assert(sorted@.contains(sorted@[i]));
                assert(given.contains(sorted@[i]));
                let j = choose|j: int| 0 <= j < given.len() && given[j] == sorted@[i];
                assert(self@.clips[given[j].0.key()] == given[j].1@);
            }
        }
        let mut out: Vec<(String, u64, ClipJob)> = Vec::new();
        for i in 0..sorted.len()
            invariant
                keys == sorted@.map_values(entry_key()),
                forall|i: int|
                    0 <= i < sorted@.len() ==> self@.clips[(#[trigger] sorted@[i]).0.key()]
                        == sorted@[i].1@,
                jobs_view(out@) =~= listing(keys, self@.clips).take(i as int),
        {
            let ghost before = out@;
            let entry: &JobEntry = &sorted[i];
            out.push((entry.0.0.clone(), entry.0.1, entry.1.clone()));
            proof {
                assert(jobs_view(out@) =~= jobs_view(before).push(
                    (entry.0.0@, entry.0.1, entry.1@),
                ));
                assert(keys[i as int] == entry.0.key());
            }
        }
        proof {
            let want = listing(keys, self@.clips);
            assert(want.take(want.len() as int) =~= want);
            assert forall|a: int, b: int| 0 <= a < b < want.len() implies !newest_first()(
                #[trigger] want[b],
                #[trigger] want[a],
            ) by {
                assert(!lt(sorted@[b], sorted@[a]));
                assert(self@.clips[sorted@[a].0.key()] == sorted@[a].1@);
                assert(self@.clips[sorted@[b].0.key()] == sorted@[b].1@);
            }
        }
        out
    }

    /// Every clip job of one posted game (one per tracked perspective), in no
    /// particular order.
    pub fn clip_jobs(&self, platform: &str, game_id: u64) -> (r: Vec<&ClipJob>)
        requires
            self.wf(),
        ensures
            exists|keys: Seq<Perspective>|
                #![trigger jobs_under(keys, self@.clips)]
                lists(keys, self@.clips, of_game(platform@, game_id)) && scan::views(r@)
                    == jobs_under(keys, self@.clips),
    {
        let ghost rows = self.clips.rows();
        let ghost p = of_game(platform@, game_id);
        proof {
            table::lemma_map_of(rows);
        }
        let mut out: Vec<&ClipJob> = Vec::new();
        let ghost mut keys: Seq<Perspective> = seq![];
        for i in 0..self.clips.entries.len()
            invariant
                self.wf(),
                rows == self.clips.rows(),
                rows.len() == self.clips.entries@.len(),
                p == of_game(platform@, game_id),
                forall|j: int|
                    0 <= j < rows.len() ==> self@.clips.dom().contains((#[trigger] rows[j]).0)
                        && self@.clips[rows[j].0] == rows[j].1,
                keys.no_duplicates(),
                forall|k: Perspective| #[trigger]
                    keys.contains(k) ==> p(k) && exists|j: int|
                        0 <= j < i && (#[trigger] rows[j]).0 == k,
                forall|j: int| 0 <= j < i && p((#[trigger] rows[j]).0) ==> keys.contains(rows[j].0),
                scan::views(out@) =~= jobs_under(keys, self@.clips),
        {
            let entry: &JobEntry = &self.clips.entries[i];
            proof {
                assert(rows[i as int] == (entry.0.key(), entry.1@));
            }
            if entry.0.1 == game_id && same(entry.0.0.as_str(), platform) {
                let ghost before = out@;
                let ghost held = keys;
                out.push(&entry.1);
                proof {
                    let x = entry.0.key();
                    if held.contains(x) {
                        let j = choose|j: int| 0 <= j < i && (#[trigger] rows[j]).0 == x;
                        assert(rows[j].0 != rows[i as int].0);
                    }
                    keys = held.push(x);
                    assert(scan::views(out@) =~= scan::views(before).push(entry.1@));
                    assert forall|k: Perspective| #[trigger] keys.contains(k) implies p(k)
                        && exists|j: int| 0 <= j < i + 1 && (#[trigger] rows[j]).0 == k by {
                        let a = choose|a: int| 0 <= a < keys.len() && keys[a] == k;
                        if a < held.len() {
                            assert(held[a] == k);
                            assert(held.contains(k));
                            let j = choose|j: int| 0 <= j < i && (#[trigger] rows[j]).0 == k;
                            assert(rows[j].0 == k);
                        } else {
                            assert(rows[i as int].0 == k);
                        }
                    }
                    assert forall|j: int| 0 <= j < i + 1 && p(
                        (#[trigger] rows[j]).0,
                    ) implies keys.contains(rows[j].0) by {
                        if j < i {
                            assert(held.contains(rows[j].0));
                            let a = choose|a: int| 0 <= a < held.len() && held[a] == rows[j].0;
                            assert(keys[a] == rows[j].0);
                        } else {
                            assert(keys[held.len() as int] == rows[j].0);
                        }
                    }
                }
            }
        }
        proof {
            assert(lists(keys, self@.clips, p)) by {
                assert forall|k: Perspective|
                    #![trigger keys.contains(k)]
                    #![trigger self@.clips.dom().contains(k)]
                    keys.contains(k) <==> self@.clips.dom().contains(k) && p(k) by {
                    if self@.clips.dom().contains(k) && p(k) {
                        let j = choose|j: int| 0 <= j < rows.len() && (#[trigger] rows[j]).0 == k;
                        assert(keys.contains(rows[j].0));
                    }
                }
            }
        }
        out
    }
}

proof fn lemma_job_order()
    ensures
        seqs::orders(|a: JobEntry, b: JobEntry| NewestFirst::lt(a, b)),
{
    text::lemma_text_order();
    let lt = |a: JobEntry, b: JobEntry| NewestFirst::lt(a, b);
    let names = text::text_order();
    assert forall|a: JobEntry, b: JobEntry| #[trigger] lt(a, b) implies !lt(b, a) by {
        assert(names(a.1.riot_id@, b.1.riot_id@) ==> !names(b.1.riot_id@, a.1.riot_id@));
    }
    assert forall|a: JobEntry, b: JobEntry, c: JobEntry|
        #![trigger lt(a, b), lt(b, c)]
        #![trigger lt(a, b), lt(a, c)]
        #![trigger lt(a, c), lt(b, c)]
        lt(a, c) implies lt(a, b) || lt(b, c) by {
        assert(names(a.1.riot_id@, c.1.riot_id@) ==> names(a.1.riot_id@, b.1.riot_id@) || names(
            b.1.riot_id@,
            c.1.riot_id@,
        ));
    }
}

} // verus!
