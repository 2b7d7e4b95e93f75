//! What each event of the journal changes, and what it leaves as it was.

use vstd::prelude::*;

use crate::journal::{self, ClipJobV, Perspective, ProjectionV};
use crate::kinds::{
    AbandonedV, AttachedV, AttemptV, ClipAttempt, ClipsAbandoned, ClipsAttached, GamePosted,
    PicksAssigned, PicksV, PostedV, RankObserved, RankSeenV,
};
use crate::leaves::{self, Kind};
use crate::storage::{Roots, StorageError};

verus! {

/// Whether two states tell the same of a perspective.
pub open spec fn same_perspective(p: ProjectionV, q: ProjectionV, k: Perspective) -> bool {
    &&& p.posted.contains(k) == q.posted.contains(k)
    &&& p.message_ids.dom().contains(k) == q.message_ids.dom().contains(k)
    &&& p.message_ids.dom().contains(k) ==> p.message_ids[k] == q.message_ids[k]
    &&& p.rank_lines.dom().contains(k) == q.rank_lines.dom().contains(k)
    &&& p.rank_lines.dom().contains(k) ==> p.rank_lines[k] == q.rank_lines[k]
    &&& p.clips.dom().contains(k) == q.clips.dom().contains(k)
    &&& p.clips.dom().contains(k) ==> p.clips[k] == q.clips[k]
    &&& p.picks.dom().contains(k) == q.picks.dom().contains(k)
    &&& p.picks.dom().contains(k) ==> p.picks[k] == q.picks[k]
}

/// A post is about one player's perspective of one game, and leaves every other
/// as it was. It is posted then, with its message and its LP line, where it has
/// them; a first post opens a clip job without tries in the player's name, and
/// a later one keeps the tries.
pub proof fn lemma_a_post(p: ProjectionV, e: PostedV)
    ensures
        ({
            let q = p.after_posted(e);
            let who = match e.puuid {
                Some(puuid) => p.root(puuid),
                None => p.identity(e.riot_id),
            };
            let key = (e.platform, e.game_id, who);
            &&& q.posted.contains(key)
            &&& e.message_id.len() > 0 ==> q.message_ids.dom().contains(key) && q.message_ids[key]
                == e.message_id
            &&& e.message_id.len() == 0 ==> q.message_ids == p.message_ids
            &&& e.rank matches Some(rank) ==> q.rank_lines.dom().contains(key) && q.rank_lines[key]
                == rank
            &&& e.rank is None ==> q.rank_lines == p.rank_lines
            &&& q.clips.dom().contains(key)
            &&& !p.clips.dom().contains(key) ==> q.clips[key] == (ClipJobV {
                riot_id: e.riot_id,
                tries: 0,
                done: false,
            })
            &&& p.clips.dom().contains(key) && !p.clips[key].done ==> q.clips[key] == (ClipJobV {
                riot_id: e.riot_id,
                tries: p.clips[key].tries,
                done: false,
            })
            &&& p.clips.dom().contains(key) && p.clips[key].done ==> q.clips[key] == p.clips[key]
            &&& forall|k: Perspective| k != key ==> #[trigger] same_perspective(p, q, k)
            &&& q.ranks == p.ranks
            &&& q.picks == p.picks
            &&& q.pins == p.pins
            &&& q.canon == p.canon
        }),
{
}

/// The floor of a player in a queue is the newest game that was posted there:
/// the higher of what it was and what is posted, and no other floor moves.
pub proof fn lemma_floors_rise(p: ProjectionV, e: PostedV, f: (Seq<char>, u32))
    ensures
        ({
            let q = p.after_posted(e);
            let own = (p.poster(e), e.queue_id);
            &&& q.newest.dom().contains(own)
            &&& q.newest[own].1 >= e.game_id
            &&& !p.newest.dom().contains(own) || p.newest[own].1 < e.game_id ==> q.newest[own] == (
                e.platform,
                e.game_id,
            )
            &&& p.newest.dom().contains(own) && p.newest[own].1 >= e.game_id ==> q.newest[own]
                == p.newest[own]
            &&& f != own ==> q.newest.dom().contains(f) == p.newest.dom().contains(f) && (
            p.newest.dom().contains(f) ==> q.newest[f] == p.newest[f])
        }),
{
}

/// Whether two states differ at most in their clip jobs.
pub open spec fn same_but_jobs(p: ProjectionV, q: ProjectionV) -> bool {
    q == ProjectionV { clips: q.clips, ..p }
}

/// An attempt of one player's raises the tries of their job to its number, if
/// they were lower, and leaves every other job as it was.
pub proof fn lemma_an_attempt(p: ProjectionV, e: AttemptV, riot_id: Seq<char>)
    requires
        e.riot_id == Some(riot_id),
    ensures
        ({
            let q = p.after_attempt(e);
            let key = (e.platform, e.game_id, p.identity(riot_id));
            let before = if p.clips.dom().contains(key) {
                p.clips[key].tries
            } else {
                0
            };
            &&& same_but_jobs(p, q)
            &&& q.clips.dom().contains(key)
            &&& q.clips[key].tries >= e.try_number
            &&& q.clips[key].tries >= before
            &&& q.clips[key].tries == e.try_number || q.clips[key].tries == before
            &&& p.clips.dom().contains(key) ==> q.clips[key].done == p.clips[key].done
                && q.clips[key].riot_id == p.clips[key].riot_id
            &&& !p.clips.dom().contains(key) ==> !q.clips[key].done
            &&& forall|k: Perspective| k != key ==> #[trigger] same_perspective(p, q, k)
        }),
{
}

/// An attempt that names no player is every perspective's of its game, and
/// nobody else's.
pub proof fn lemma_an_attempt_at_a_game(p: ProjectionV, e: AttemptV, k: Perspective)
    requires
        e.riot_id is None,
        p.clips.dom().contains(k),
    ensures
        ({
            let q = p.after_attempt(e);
            &&& same_but_jobs(p, q)
            &&& q.clips.dom() == p.clips.dom()
            &&& k.0 == e.platform && k.1 == e.game_id ==> {
                &&& q.clips[k].tries >= e.try_number
                &&& q.clips[k].tries >= p.clips[k].tries
                &&& q.clips[k].tries == e.try_number || q.clips[k].tries == p.clips[k].tries
                &&& q.clips[k].done == p.clips[k].done
                &&& q.clips[k].riot_id == p.clips[k].riot_id
            }
            &&& k.0 != e.platform || k.1 != e.game_id ==> q.clips[k] == p.clips[k]
        }),
{
    let q = p.after_attempt(e);
    assert(q.clips.dom() =~= p.clips.dom());
}

/// The end of one player's job finishes it, keeps its tries, and leaves every
/// other job as it was.
pub proof fn lemma_an_end(p: ProjectionV, platform: Seq<char>, game_id: u64, riot_id: Seq<char>)
    ensures
        ({
            let q = p.after_terminal(platform, game_id, Some(riot_id));
            let key = (platform, game_id, p.identity(riot_id));
            &&& same_but_jobs(p, q)
            &&& q.clips.dom().contains(key)
            &&& q.clips[key].done
            &&& p.clips.dom().contains(key) ==> q.clips[key].tries == p.clips[key].tries
                && q.clips[key].riot_id == p.clips[key].riot_id
            &&& forall|k: Perspective| k != key ==> #[trigger] same_perspective(p, q, k)
        }),
{
}

/// An end that names no player finishes every perspective's job of its game,
/// and nobody else's.
pub proof fn lemma_an_end_of_a_game(
    p: ProjectionV,
    platform: Seq<char>,
    game_id: u64,
    k: Perspective,
)
    requires
        p.clips.dom().contains(k),
    ensures
        ({
            let q = p.after_terminal(platform, game_id, None);
            &&& same_but_jobs(p, q)
            &&& q.clips.dom() == p.clips.dom()
            &&& k.0 == platform && k.1 == game_id ==> q.clips[k] == (ClipJobV {
                done: true,
                ..p.clips[k]
            })
            &&& k.0 != platform || k.1 != game_id ==> q.clips[k] == p.clips[k]
        }),
{
    let q = p.after_terminal(platform, game_id, None);
    assert(q.clips.dom() =~= p.clips.dom());
}

/// An observed standing is the baseline of that player in that queue, and of
/// nobody else and nowhere else.
pub proof fn lemma_an_observation(p: ProjectionV, e: RankSeenV, puuid: Seq<char>, queue_id: u32)
    ensures
        ({
            let q = p.after_rank(e);
            &&& q == ProjectionV { ranks: q.ranks, ..p }
            &&& q.baseline(e.puuid, e.queue_id) == Some(e.ladder_value)
            &&& queue_id != e.queue_id || p.root(puuid) != p.root(e.puuid) ==> q.baseline(
                puuid,
                queue_id,
            ) == p.baseline(puuid, queue_id)
        }),
{
}

/// Assigned picks are those of one perspective, and leave everything else as it
/// was.
pub proof fn lemma_assigned_picks(p: ProjectionV, e: PicksV, k: Perspective)
    ensures
        ({
            let q = p.after_picks(e);
            let key = (e.platform, e.game_id, p.root(e.puuid));
            &&& q == ProjectionV { picks: q.picks, ..p }
            &&& q.picks.dom().contains(key)
            &&& q.picks[key] == e
            &&& k != key ==> same_perspective(p, q, k)
        }),
{
}

proof fn lemma_kind_names()
    ensures
        ClipAttempt::kind_name() != GamePosted::kind_name(),
        ClipAttempt::kind_name() != RankObserved::kind_name(),
        ClipsAttached::kind_name() != GamePosted::kind_name(),
        ClipsAttached::kind_name() != RankObserved::kind_name(),
        ClipsAttached::kind_name() != ClipAttempt::kind_name(),
        ClipsAbandoned::kind_name() != GamePosted::kind_name(),
        ClipsAbandoned::kind_name() != RankObserved::kind_name(),
        ClipsAbandoned::kind_name() != ClipAttempt::kind_name(),
        ClipsAbandoned::kind_name() != ClipsAttached::kind_name(),
        PicksAssigned::kind_name() != GamePosted::kind_name(),
        PicksAssigned::kind_name() != RankObserved::kind_name(),
        PicksAssigned::kind_name() != ClipAttempt::kind_name(),
        PicksAssigned::kind_name() != ClipsAttached::kind_name(),
        PicksAssigned::kind_name() != ClipsAbandoned::kind_name(),
        RankObserved::kind_name() != GamePosted::kind_name(),
{
    reveal_strlit("scry.journal.game_posted");
    reveal_strlit("scry.journal.rank_observed");
    reveal_strlit("scry.journal.clip_attempt");
    reveal_strlit("scry.journal.clips_attached");
    reveal_strlit("scry.journal.clips_abandoned");
    reveal_strlit("scry.journal.picks_assigned");
    assert("scry.journal.game_posted"@.len() == 24);
    assert("scry.journal.rank_observed"@.len() == 26);
    assert("scry.journal.clip_attempt"@.len() == 25);
    assert("scry.journal.clips_attached"@.len() == 27 && "scry.journal.clips_attached"@[13] == 'c');
    assert("scry.journal.clips_abandoned"@.len() == 28);
    assert("scry.journal.picks_assigned"@.len() == 27 && "scry.journal.picks_assigned"@[13] == 'p');
}

/// A row of attached clips finishes the job it is about.
pub proof fn lemma_attached_rows_finish(
    p: ProjectionV,
    payload: Seq<u8>,
    roots: Roots,
    e: AttachedV,
    riot_id: Seq<char>,
)
    requires
        leaves::decoded::<ClipsAttached>(payload, roots) == Ok::<AttachedV, StorageError>(e),
        e.riot_id == Some(riot_id),
    ensures
        match journal::applied(p, ClipsAttached::kind_name(), payload, roots) {
            Ok(q) => {
                let key = (e.platform, e.game_id, p.identity(riot_id));
                &&& q.clips.dom().contains(key) && q.clips[key].done
                &&& forall|k: Perspective| k != key ==> #[trigger] same_perspective(p, q, k)
            },
            Err(_) => false,
        },
{
    reveal(journal::applied);
    lemma_kind_names();
    lemma_an_end(p, e.platform, e.game_id, riot_id);
}

/// A row of abandoned clips finishes the job it is about.
pub proof fn lemma_abandoned_rows_finish(
    p: ProjectionV,
    payload: Seq<u8>,
    roots: Roots,
    e: AbandonedV,
    riot_id: Seq<char>,
)
    requires
        leaves::decoded::<ClipsAbandoned>(payload, roots) == Ok::<AbandonedV, StorageError>(e),
        e.riot_id == Some(riot_id),
    ensures
        match journal::applied(p, ClipsAbandoned::kind_name(), payload, roots) {
            Ok(q) => {
                let key = (e.platform, e.game_id, p.identity(riot_id));
                &&& q.clips.dom().contains(key) && q.clips[key].done
                &&& forall|k: Perspective| k != key ==> #[trigger] same_perspective(p, q, k)
            },
            Err(_) => false,
        },
{
    reveal(journal::applied);
    lemma_kind_names();
    lemma_an_end(p, e.platform, e.game_id, riot_id);
}

/// A row of an attempt counts as a try of the job it is about.
pub proof fn lemma_attempt_rows_count(
    p: ProjectionV,
    payload: Seq<u8>,
    roots: Roots,
    e: AttemptV,
    riot_id: Seq<char>,
)
    requires
        leaves::decoded::<ClipAttempt>(payload, roots) == Ok::<AttemptV, StorageError>(e),
        e.riot_id == Some(riot_id),
    ensures
        match journal::applied(p, ClipAttempt::kind_name(), payload, roots) {
            Ok(q) => {
                let key = (e.platform, e.game_id, p.identity(riot_id));
                &&& q.clips.dom().contains(key) && q.clips[key].tries >= e.try_number
                &&& forall|k: Perspective| k != key ==> #[trigger] same_perspective(p, q, k)
            },
            Err(_) => false,
        },
{
    reveal(journal::applied);
    lemma_kind_names();
    lemma_an_attempt(p, e, riot_id);
}

/// A row of an observation is the baseline of the player it is about.
pub proof fn lemma_observation_rows_are_baselines(
    p: ProjectionV,
    payload: Seq<u8>,
    roots: Roots,
    e: RankSeenV,
)
    requires
        leaves::decoded::<RankObserved>(payload, roots) == Ok::<RankSeenV, StorageError>(e),
    ensures
        match journal::applied(p, RankObserved::kind_name(), payload, roots) {
            Ok(q) => q.baseline(e.puuid, e.queue_id) == Some(e.ladder_value),
            Err(_) => false,
        },
{
    reveal(journal::applied);
    lemma_kind_names();
}

/// A row of picks is read by the perspective it is about.
pub proof fn lemma_pick_rows_are_read(p: ProjectionV, payload: Seq<u8>, roots: Roots, e: PicksV)
    requires
        leaves::decoded::<PicksAssigned>(payload, roots) == Ok::<PicksV, StorageError>(e),
    ensures
        match journal::applied(p, PicksAssigned::kind_name(), payload, roots) {
            Ok(q) => {
                let key = (e.platform, e.game_id, p.root(e.puuid));
                q.picks.dom().contains(key) && q.picks[key] == e
            },
            Err(_) => false,
        },
{
    reveal(journal::applied);
    lemma_kind_names();
}

/// A row that does not decode stops the fold, which names its kind.
pub proof fn lemma_bad_rows_stop_the_fold(
    start: ProjectionV,
    rows: Seq<(Seq<char>, Seq<u8>)>,
    n: nat,
    roots: Roots,
)
    requires
        n < rows.len(),
        journal::events_pass(start, rows, n, roots) matches Ok(p) && journal::applied(
            p,
            rows[n as int].0,
            rows[n as int].1,
            roots,
        ) is Err,
    ensures
        journal::events_pass(start, rows, rows.len(), roots) matches Err(e) && e.0
            == rows[n as int].0,
{
    lemma_stopped(start, rows, n + 1, rows.len(), roots);
}

proof fn lemma_stopped(
    start: ProjectionV,
    rows: Seq<(Seq<char>, Seq<u8>)>,
    k: nat,
    n: nat,
    roots: Roots,
)
    requires
        k <= n,
        journal::events_pass(start, rows, k, roots) is Err,
    ensures
        journal::events_pass(start, rows, n, roots) == journal::events_pass(start, rows, k, roots),
    decreases n - k,
{
    if k < n {
        lemma_stopped(start, rows, k, (n - 1) as nat, roots);
    }
}

/// A PUUID's era chain is followed to its end, over 64 links.
pub proof fn lemma_chains_are_followed(p: ProjectionV, puuid: Seq<char>, n: nat)
    requires
        n <= 64,
        !p.canon.dom().contains(journal::walk(p.canon, puuid, n)),
    ensures
        p.root(puuid) == journal::walk(p.canon, puuid, n),
{
    lemma_settled(p.canon, puuid, n, 64);
}

proof fn lemma_settled(canon: Map<Seq<char>, Seq<char>>, puuid: Seq<char>, n: nat, m: nat)
    requires
        n <= m,
        !canon.dom().contains(journal::walk(canon, puuid, n)),
    ensures
        journal::walk(canon, puuid, m) == journal::walk(canon, puuid, n),
    decreases n,
{
    if n > 0 && canon.dom().contains(puuid) {
        lemma_settled(canon, canon[puuid], (n - 1) as nat, (m - 1) as nat);
    }
}

/// A walk takes one link after the other.
pub proof fn lemma_walks(canon: Map<Seq<char>, Seq<char>>, puuid: Seq<char>, n: nat)
    ensures
        journal::walk(canon, puuid, 0) == puuid,
        canon.dom().contains(puuid) ==> journal::walk(canon, puuid, n + 1) == journal::walk(
            canon,
            canon[puuid],
            n,
        ),
        !canon.dom().contains(puuid) ==> journal::walk(canon, puuid, n) == puuid,
{
}

} // verus!
