//! The journal's inspection surface: every event as one JSON value.

use vstd::prelude::*;

use crate::game::text_of;
use crate::journal::FoldError;
use crate::json::{entry, number, object, Json, Number, NumberTree, Tree};
use crate::kinds::{
    AbandonedV, AccountRenamed, AccountResolved, AttachedV, AttemptV, ClipAttempt, ClipPick,
    ClipPickV, ClipsAbandoned, ClipsAttached, GamePosted, PicksAssigned, PicksV, PostedV,
    RankObserved, RankSeenV, RenamedV, ResolvedV,
};
use crate::leaves::{decode_storage, Kind, StorageLeaves};
use crate::stats::{RankInfo, RankInfoV};
use crate::storage::{Roots, StorageError};
use crate::text::{natural, same};
use crate::{json, leaves, stats, text};

verus! {

// --- values --------------------------------------------------------------------------

/// An unsigned integer value.
pub open spec fn unsigned(n: u64) -> Tree {
    if n <= i64::MAX {
        json::num(n as i64)
    } else {
        Tree::Num(NumberTree::Real(text::digits(n as nat)))
    }
}

fn of_u64(n: u64) -> (r: Json)
    ensures
        r@ == unsigned(n),
{
    if n <= 0x7fff_ffff_ffff_ffff {
        number(n as i64)
    } else {
        Json::Num(Number::Real(natural(n as u128)))
    }
}

/// A text, null without one.
pub open spec fn text_or_null(s: Option<Seq<char>>) -> Tree {
    match s {
        Some(s) => Tree::Str(s),
        None => Tree::Null,
    }
}

fn of_text(s: &Option<String>) -> (r: Json)
    ensures
        r@ == text_or_null(text_of(*s)),
{
    match s {
        Some(s) => Json::Str(s.clone()),
        None => Json::Null,
    }
}

fn of_str(s: &String) -> (r: Json)
    ensures
        r@ == Tree::Str(s@),
{
    Json::Str(s.clone())
}

/// A standing, null without one.
pub open spec fn rank_tree(rank: Option<RankInfoV>) -> Tree {
    match rank {
        Some(k) => Tree::Obj(
            seq![
                ("label"@, Tree::Str(k.label)),
                ("lp"@, json::num(k.lp as i64)),
                (
                    "delta"@,
                    match k.delta {
                        Some(d) => json::num(d as i64),
                        None => Tree::Null,
                    },
                ),
            ],
        ),
        None => Tree::Null,
    }
}

fn of_rank(rank: &Option<RankInfo>) -> (r: Json)
    ensures
        r@ == rank_tree(stats::rank_value(*rank)),
{
    match rank {
        Some(k) => {
            let delta: Json = match k.delta {
                Some(d) => number(d as i64),
                None => Json::Null,
            };
            let r: Json = json::object3(
                entry("label", of_str(&k.label)),
                entry("lp", number(k.lp as i64)),
                entry("delta", delta),
            );
            proof {
                assert(r@->Obj_0 =~= rank_tree(Some(k@))->Obj_0);
            }
            r
        },
        None => Json::Null,
    }
}

/// A pick, null without one.
pub open spec fn pick_tree(pick: Option<ClipPickV>) -> Tree {
    match pick {
        Some(p) => Tree::Obj(
            seq![
                ("t_millis"@, json::num(p.t_millis)),
                ("seek_secs"@, json::num(p.seek_secs)),
                ("duration_secs"@, json::num(p.duration_secs)),
                ("summary"@, Tree::Str(p.summary)),
            ],
        ),
        None => Tree::Null,
    }
}

fn of_pick(pick: &Option<ClipPick>) -> (r: Json)
    ensures
        r@ == pick_tree(pick.val()),
{
    match pick {
        Some(p) => {
            let mut m: Vec<(String, Json)> = Vec::new();
            m.push(entry("t_millis", number(p.t_millis)));
            m.push(entry("seek_secs", number(p.seek_secs)));
            m.push(entry("duration_secs", number(p.duration_secs)));
            m.push(entry("summary", of_str(&p.summary)));
            proof {
                assert(json::members(m@) =~= pick_tree(pick.val())->Obj_0);
            }
            object(m)
        },
        None => Json::Null,
    }
}

// --- events --------------------------------------------------------------------------

/// A post.
pub open spec fn posted_tree(e: PostedV) -> Tree {
    Tree::Obj(
        seq![
            ("platform"@, Tree::Str(e.platform)),
            ("game_id"@, unsigned(e.game_id)),
            ("riot_id"@, Tree::Str(e.riot_id)),
            ("queue_id"@, json::num(e.queue_id as i64)),
            ("message_id"@, Tree::Str(e.message_id)),
            ("rank"@, rank_tree(e.rank)),
            ("puuid"@, text_or_null(e.puuid)),
        ],
    )
}

fn of_posted(e: &GamePosted) -> (r: Json)
    ensures
        r@ == posted_tree(e@),
{
    let mut m: Vec<(String, Json)> = Vec::new();
    m.push(entry("platform", of_str(&e.platform)));
    m.push(entry("game_id", of_u64(e.game_id)));
    m.push(entry("riot_id", of_str(&e.riot_id)));
    m.push(entry("queue_id", number(e.queue_id as i64)));
    m.push(entry("message_id", of_str(&e.message_id)));
    m.push(entry("rank", of_rank(&e.rank)));
    m.push(entry("puuid", of_text(&e.puuid)));
    proof {
        assert(e@.rank == stats::rank_value(e.rank));
        assert(e@.puuid == text_of(e.puuid));
        assert(json::members(m@) =~= posted_tree(e@)->Obj_0);
    }
    object(m)
}

/// An observation.
pub open spec fn observed_tree(e: RankSeenV) -> Tree {
    Tree::Obj(
        seq![
            ("puuid"@, Tree::Str(e.puuid)),
            ("riot_id"@, Tree::Str(e.riot_id)),
            ("queue_id"@, json::num(e.queue_id as i64)),
            ("ladder_value"@, json::num(e.ladder_value as i64)),
            ("label"@, Tree::Str(e.label)),
            ("lp"@, json::num(e.lp as i64)),
        ],
    )
}

fn of_observed(e: &RankObserved) -> (r: Json)
    ensures
        r@ == observed_tree(e@),
{
    let mut m: Vec<(String, Json)> = Vec::new();
    m.push(entry("puuid", of_str(&e.puuid)));
    m.push(entry("riot_id", of_str(&e.riot_id)));
    m.push(entry("queue_id", number(e.queue_id as i64)));
    m.push(entry("ladder_value", number(e.ladder_value as i64)));
    m.push(entry("label", of_str(&e.label)));
    m.push(entry("lp", number(e.lp as i64)));
    proof {
        assert(json::members(m@) =~= observed_tree(e@)->Obj_0);
    }
    object(m)
}

/// An attempt.
pub open spec fn attempt_tree(e: AttemptV) -> Tree {
    Tree::Obj(
        seq![
            ("platform"@, Tree::Str(e.platform)),
            ("game_id"@, unsigned(e.game_id)),
            ("try_number"@, json::num(e.try_number as i64)),
            ("riot_id"@, text_or_null(e.riot_id)),
        ],
    )
}

fn of_attempt(e: &ClipAttempt) -> (r: Json)
    ensures
        r@ == attempt_tree(e@),
{
    let mut m: Vec<(String, Json)> = Vec::new();
    m.push(entry("platform", of_str(&e.platform)));
    m.push(entry("game_id", of_u64(e.game_id)));
    m.push(entry("try_number", number(e.try_number as i64)));
    m.push(entry("riot_id", of_text(&e.riot_id)));
    proof {
        assert(e@.riot_id == text_of(e.riot_id));
        assert(json::members(m@) =~= attempt_tree(e@)->Obj_0);
    }
    object(m)
}

/// Attached clips.
pub open spec fn attached_tree(e: AttachedV) -> Tree {
    Tree::Obj(
        seq![
            ("platform"@, Tree::Str(e.platform)),
            ("game_id"@, unsigned(e.game_id)),
            ("riot_id"@, text_or_null(e.riot_id)),
        ],
    )
}

fn of_attached(e: &ClipsAttached) -> (r: Json)
    ensures
        r@ == attached_tree(e@),
{
    proof {
        assert(e@.riot_id == text_of(e.riot_id));
    }
    json::object3(
        entry("platform", of_str(&e.platform)),
        entry("game_id", of_u64(e.game_id)),
        entry("riot_id", of_text(&e.riot_id)),
    )
}

/// Abandoned clips.
pub open spec fn abandoned_tree(e: AbandonedV) -> Tree {
    Tree::Obj(
        seq![
            ("platform"@, Tree::Str(e.platform)),
            ("game_id"@, unsigned(e.game_id)),
            ("tries"@, json::num(e.tries as i64)),
            ("riot_id"@, text_or_null(e.riot_id)),
        ],
    )
}

fn of_abandoned(e: &ClipsAbandoned) -> (r: Json)
    ensures
        r@ == abandoned_tree(e@),
{
    let mut m: Vec<(String, Json)> = Vec::new();
    m.push(entry("platform", of_str(&e.platform)));
    m.push(entry("game_id", of_u64(e.game_id)));
    m.push(entry("tries", number(e.tries as i64)));
    m.push(entry("riot_id", of_text(&e.riot_id)));
    proof {
        assert(e@.riot_id == text_of(e.riot_id));
        assert(json::members(m@) =~= abandoned_tree(e@)->Obj_0);
    }
    object(m)
}

/// Assigned picks.
pub open spec fn picks_tree(e: PicksV) -> Tree {
    Tree::Obj(
        seq![
            ("platform"@, Tree::Str(e.platform)),
            ("game_id"@, unsigned(e.game_id)),
            ("riot_id"@, Tree::Str(e.riot_id)),
            ("puuid"@, Tree::Str(e.puuid)),
            ("highlight"@, pick_tree(e.highlight)),
            ("lowlight"@, pick_tree(e.lowlight)),
        ],
    )
}

fn of_picks(e: &PicksAssigned) -> (r: Json)
    ensures
        r@ == picks_tree(e@),
{
    let mut m: Vec<(String, Json)> = Vec::new();
    m.push(entry("platform", of_str(&e.platform)));
    m.push(entry("game_id", of_u64(e.game_id)));
    m.push(entry("riot_id", of_str(&e.riot_id)));
    m.push(entry("puuid", of_str(&e.puuid)));
    m.push(entry("highlight", of_pick(&e.highlight)));
    m.push(entry("lowlight", of_pick(&e.lowlight)));
    proof {
        assert(json::members(m@) =~= picks_tree(e@)->Obj_0);
    }
    object(m)
}

/// A resolved account.
pub open spec fn resolved_tree(e: ResolvedV) -> Tree {
    Tree::Obj(seq![("riot_id"@, Tree::Str(e.riot_id)), ("puuid"@, Tree::Str(e.puuid))])
}

fn of_resolved(e: &AccountResolved) -> (r: Json)
    ensures
        r@ == resolved_tree(e@),
{
    json::object2(entry("riot_id", of_str(&e.riot_id)), entry("puuid", of_str(&e.puuid)))
}

/// A renamed account.
pub open spec fn renamed_tree(e: RenamedV) -> Tree {
    Tree::Obj(
        seq![
            ("old_riot_id"@, Tree::Str(e.old_riot_id)),
            ("new_riot_id"@, Tree::Str(e.new_riot_id)),
            ("puuid"@, Tree::Str(e.puuid)),
        ],
    )
}

fn of_renamed(e: &AccountRenamed) -> (r: Json)
    ensures
        r@ == renamed_tree(e@),
{
    json::object3(
        entry("old_riot_id", of_str(&e.old_riot_id)),
        entry("new_riot_id", of_str(&e.new_riot_id)),
        entry("puuid", of_str(&e.puuid)),
    )
}

// --- rows ----------------------------------------------------------------------------

/// What a row's payload says: the event of its kind, null for a kind that is
/// not known.
pub open spec fn payload_tree(kind: Seq<char>, payload: Seq<u8>, roots: Roots) -> Result<
    Tree,
    StorageError,
> {
    if kind == GamePosted::kind_name() {
        match leaves::decoded::<GamePosted>(payload, roots) {
            Ok(e) => Ok(posted_tree(e)),
            Err(e) => Err(e),
        }
    } else if kind == RankObserved::kind_name() {
        match leaves::decoded::<RankObserved>(payload, roots) {
            Ok(e) => Ok(observed_tree(e)),
            Err(e) => Err(e),
        }
    } else if kind == ClipAttempt::kind_name() {
        match leaves::decoded::<ClipAttempt>(payload, roots) {
            Ok(e) => Ok(attempt_tree(e)),
            Err(e) => Err(e),
        }
    } else if kind == ClipsAttached::kind_name() {
        match leaves::decoded::<ClipsAttached>(payload, roots) {
            Ok(e) => Ok(attached_tree(e)),
            Err(e) => Err(e),
        }
    } else if kind == ClipsAbandoned::kind_name() {
        match leaves::decoded::<ClipsAbandoned>(payload, roots) {
            Ok(e) => Ok(abandoned_tree(e)),
            Err(e) => Err(e),
        }
    } else if kind == PicksAssigned::kind_name() {
        match leaves::decoded::<PicksAssigned>(payload, roots) {
            Ok(e) => Ok(picks_tree(e)),
            Err(e) => Err(e),
        }
    } else if kind == AccountResolved::kind_name() {
        match leaves::decoded::<AccountResolved>(payload, roots) {
            Ok(e) => Ok(resolved_tree(e)),
            Err(e) => Err(e),
        }
    } else if kind == AccountRenamed::kind_name() {
        match leaves::decoded::<AccountRenamed>(payload, roots) {
            Ok(e) => Ok(renamed_tree(e)),
            Err(e) => Err(e),
        }
    } else {
        Ok(Tree::Null)
    }
}

fn payload_json(kind: &str, payload: &Vec<u8>, roots: &Roots) -> (r: Result<Json, StorageError>)
    ensures
        match r {
            Ok(j) => payload_tree(kind@, payload@, *roots) == Ok::<Tree, StorageError>(j@),
            Err(e) => payload_tree(kind@, payload@, *roots) == Err::<Tree, StorageError>(e),
        },
{
    if same(kind, GamePosted::name()) {
        match decode_storage::<GamePosted>(payload, roots) {
            Ok(e) => Ok(of_posted(&e)),
            Err(e) => Err(e),
        }
    } else if same(kind, RankObserved::name()) {
        match decode_storage::<RankObserved>(payload, roots) {
            Ok(e) => Ok(of_observed(&e)),
            Err(e) => Err(e),
        }
    } else if same(kind, ClipAttempt::name()) {
        match decode_storage::<ClipAttempt>(payload, roots) {
            Ok(e) => Ok(of_attempt(&e)),
            Err(e) => Err(e),
        }
    } else if same(kind, ClipsAttached::name()) {
        match decode_storage::<ClipsAttached>(payload, roots) {
            Ok(e) => Ok(of_attached(&e)),
            Err(e) => Err(e),
        }
    } else if same(kind, ClipsAbandoned::name()) {
        match decode_storage::<ClipsAbandoned>(payload, roots) {
            Ok(e) => Ok(of_abandoned(&e)),
            Err(e) => Err(e),
        }
    } else if same(kind, PicksAssigned::name()) {
        match decode_storage::<PicksAssigned>(payload, roots) {
            Ok(e) => Ok(of_picks(&e)),
            Err(e) => Err(e),
        }
    } else if same(kind, AccountResolved::name()) {
        match decode_storage::<AccountResolved>(payload, roots) {
            Ok(e) => Ok(of_resolved(&e)),
            Err(e) => Err(e),
        }
    } else if same(kind, AccountRenamed::name()) {
        match decode_storage::<AccountRenamed>(payload, roots) {
            Ok(e) => Ok(of_renamed(&e)),
            Err(e) => Err(e),
        }
    } else {
        Ok(Json::Null)
    }
}

/// A row as one value: `{seq, at_millis, kind, payload}`.
pub open spec fn row_tree(seq: i64, at_millis: i64, kind: Seq<char>, payload: Tree) -> Tree {
    Tree::Obj(
        seq![
            ("seq"@, json::num(seq)),
            ("at_millis"@, json::num(at_millis)),
            ("kind"@, Tree::Str(kind)),
            ("payload"@, payload),
        ],
    )
}

fn of_row(seq: i64, at_millis: i64, kind: &str, payload: Json) -> (r: Json)
    ensures
        r@ == row_tree(seq, at_millis, kind@, payload@),
{
    let mut m: Vec<(String, Json)> = Vec::new();
    m.push(entry("seq", number(seq)));
    m.push(entry("at_millis", number(at_millis)));
    m.push(entry("kind", Json::Str(kind.to_string())));
    m.push(entry("payload", payload));
    proof {
        assert(json::members(m@) =~= row_tree(seq, at_millis, kind@, payload@)->Obj_0);
    }
    object(m)
}

/// One event as a JSON value: `{seq, at_millis, kind, payload}`. An unknown
/// kind has a null payload rather than failing.
pub fn dump_row(
    seq: i64,
    at_millis: i64,
    kind: &str,
    payload: &Vec<u8>,
    roots: &Roots,
) -> (r: Result<Json, FoldError>)
    ensures
        match r {
            Ok(j) => payload_tree(kind@, payload@, *roots) matches Ok(t) && j@ == row_tree(
                seq,
                at_millis,
                kind@,
                t,
            ),
            Err(e) => e.kind@ == kind@ && payload_tree(kind@, payload@, *roots) == Err::<
                Tree,
                StorageError,
            >(e.error),
        },
{
    match payload_json(kind, payload, roots) {
        Err(error) => Err(FoldError { kind: kind.to_string(), error }),
        Ok(body) => Ok(of_row(seq, at_millis, kind, body)),
    }
}

} // verus!
