//! What is posted of an archived game: one player's picks, the standing on the
//! LP line, the clips, and the events that the journal keeps of it.

use vstd::prelude::*;

use crate::candidates::{Candidate, CandidateV};
use crate::discord::{scene_message, Clip, ClipV, Rates, Scene, SceneV};
use crate::game::{find_puuid, text_of, tracked_puuids, Game, GameV};
use crate::journal::{Projection, ProjectionV};
use crate::json::{read, Json, Tree};
use crate::kinds::{
    copy_rank, AttachedV, ClipPick, ClipPickV, ClipsAttached, GamePosted, PicksAssigned, PostedV,
    RankObserved, RankSeenV,
};
use crate::leaves::StorageLeaves;
use crate::picks::assign;
use crate::rank::{queue_type, Rank, RankV};
use crate::riot::Client;
use crate::stats::{MatchSummary, RankInfo, RankInfoV};
use crate::text::{same, split, to_lowercase};
use crate::tick::{slug, split_match_id};
use crate::timeline::{Timeline, TimelineV};
use crate::{discord, game, json, kinds, picks, rank, riot, scan, seqs, stats, text, tick};

verus! {

/// Why a package cannot be made.
#[derive(Debug, PartialEq, Eq)]
pub enum PostError {
    /// No participant goes by the Riot ID.
    PlayerNotFound,
    /// The record's match id cannot be taken apart; says how.
    MalformedMatchId(String),
    /// A gold sum or a score leaves 64 bits.
    OutOfRange,
}

// --- picks ---------------------------------------------------------------------------

/// The players whose picks are assigned together: everyone of the watch list
/// in the game, and the player in question.
pub open spec fn watched_with(
    g: GameV,
    puuid: Seq<char>,
    roster: Seq<Seq<char>>,
) -> Seq<Seq<char>> {
    let listed = game::tracked_in(g, roster);
    if listed.contains(puuid) {
        listed
    } else {
        listed.push(puuid)
    }
}

fn watched(game: &Game, puuid: &str, roster: &Vec<String>) -> (r: Vec<String>)
    ensures
        text::texts(r@) == watched_with(game@, puuid@, text::texts(roster@)),
{
    let mut listed: Vec<String> = tracked_puuids(game, roster);
    let ghost before = text::texts(listed@);
    let mut found: bool = false;
    for i in 0..listed.len()
        invariant
            before == text::texts(listed@),
            found == before.take(i as int).contains(puuid@),
    {
        proof {
            let now = before.take(i + 1);
            assert(now =~= before.take(i as int).push(before[i as int]));
            assert(before[i as int] == listed@[i as int]@);
            if before.take(i as int).contains(puuid@) {
                let k = choose|k: int| 0 <= k < i && before.take(i as int)[k] == puuid@;
                assert(now[k] == puuid@);
            }
            if now.contains(puuid@) && before[i as int] != puuid@ {
                let k = choose|k: int| 0 <= k < now.len() && now[k] == puuid@;
                assert(before.take(i as int)[k] == puuid@);
            }
            assert(now[i as int] == before[i as int]);
        }
        if same(listed[i].as_str(), puuid) {
            found = true;
        }
    }
    proof {
        assert(before.take(before.len() as int) =~= before);
    }
    if !found {
        listed.push(puuid.to_string());
        proof {
            assert(text::texts(listed@) =~= before.push(puuid@));
        }
    }
    listed
}

/// A player's picks among everyone's.
pub type PickRow = (Seq<char>, Option<CandidateV>, Option<CandidateV>);

/// Whether a row of picks is a player's.
pub open spec fn row_of(puuid: Seq<char>) -> spec_fn(PickRow) -> bool {
    |p: PickRow| p.0 == puuid
}

/// The Highlight and Lowlight of one player among everyone's.
pub open spec fn own_among(all: Seq<PickRow>, puuid: Seq<char>) -> (
    Option<CandidateV>,
    Option<CandidateV>,
) {
    match seqs::first_where(all, row_of(puuid)) {
        Some(i) => (all[i].1, all[i].2),
        None => (None, None),
    }
}

/// The Highlight and Lowlight of one player, assigned together with every
/// watched player in the game; nothing where a number does not fit.
pub open spec fn own_picks_of(
    g: GameV,
    tl: TimelineV,
    near: Seq<Seq<bool>>,
    puuid: Seq<char>,
    roster: Seq<Seq<char>>,
) -> Option<(Option<CandidateV>, Option<CandidateV>)> {
    match picks::joint_picks(g, tl, near, watched_with(g, puuid, roster)) {
        Some(all) => Some(own_among(all, puuid)),
        None => None,
    }
}

fn copy_candidate(c: &Option<Candidate>) -> (r: Option<Candidate>)
    ensures
        picks::candidate_view(r) == picks::candidate_view(*c),
{
    match c {
        Some(c) => Some(
            Candidate {
                t_ms: c.t_ms,
                seek_s: c.seek_s,
                dur_s: c.dur_s,
                summary: c.summary.clone(),
                score: c.score,
            },
        ),
        None => None,
    }
}

/// One watched player's clip picks for a game, assigned jointly across every
/// watched player in the lobby so a shared teamfight doesn't become N
/// near-identical clips.
pub fn own_picks(
    game: &Game,
    tl: &Timeline,
    near: &Vec<Vec<bool>>,
    puuid: &str,
    roster: &Vec<String>,
) -> (r: Option<(Option<Candidate>, Option<Candidate>)>)
    ensures
        match r {
            Some(p) => own_picks_of(
                game@,
                tl@,
                scan::views(near@),
                puuid@,
                text::texts(roster@),
            ) == Some((picks::candidate_view(p.0), picks::candidate_view(p.1))),
            None => own_picks_of(
                game@,
                tl@,
                scan::views(near@),
                puuid@,
                text::texts(roster@),
            ) is None,
        },
{
    let names: Vec<String> = watched(game, puuid, roster);
    match assign(game, tl, near, &names) {
        None => None,
        Some(all) => {
            let ghost rows = picks::picks_view(all@);
            let ghost p = row_of(puuid@);
            for i in 0..all.len()
                invariant
                    rows == picks::picks_view(all@),
                    p == row_of(puuid@),
                    seqs::first_where(rows.take(i as int), p) is None,
                    picks::joint_picks(
                        game@,
                        tl@,
                        scan::views(near@),
                        watched_with(game@, puuid@, text::texts(roster@)),
                    ) == Some(rows),
            {
                proof {
                    assert(rows.take(i + 1).drop_last() =~= rows.take(i as int));
                    assert(rows.take(i + 1).last() == rows[i as int]);
                }
                if same(all[i].0.as_str(), puuid) {
                    proof {
                        seqs::lemma_first_extends(rows, p, i + 1);
                    }
                    return Some((copy_candidate(&all[i].1), copy_candidate(&all[i].2)));
                }
            }
            proof {
                assert(rows.take(rows.len() as int) =~= rows);
            }
            Some((None, None))
        },
    }
}

/// The pick that an optional candidate becomes.
pub open spec fn picked(c: Option<CandidateV>) -> Option<ClipPickV> {
    match c {
        Some(c) => Some(kinds::pick_from(c)),
        None => None,
    }
}

fn to_pick(c: &Option<Candidate>) -> (r: Option<ClipPick>)
    ensures
        r.val() == picked(picks::candidate_view(*c)),
{
    match c {
        Some(c) => Some(ClipPick::from(c)),
        None => None,
    }
}

/// One player's clip picks for an archived game, as the event that the post's
/// captions and the recorder's clip windows read.
pub fn journal_picks(
    game: &Game,
    tl: &Timeline,
    near: &Vec<Vec<bool>>,
    riot_id: &str,
    roster: &Vec<String>,
) -> (r: Result<PicksAssigned, PostError>)
    ensures
        match r {
            Ok(e) => {
                &&& game@.puuid_of(riot_id@) == Some(e.puuid@)
                &&& tick::match_parts(game.match_id@) == Some((e.platform@, e.game_id))
                &&& e.riot_id@ == riot_id@
                &&& own_picks_of(
                    game@,
                    tl@,
                    scan::views(near@),
                    e.puuid@,
                    text::texts(roster@),
                ) matches Some(own) && e@.highlight == picked(own.0) && e@.lowlight == picked(own.1)
            },
            Err(PostError::PlayerNotFound) => game@.puuid_of(riot_id@) is None,
            Err(PostError::OutOfRange) => game@.puuid_of(riot_id@) matches Some(puuid)
                && own_picks_of(
                game@,
                tl@,
                scan::views(near@),
                puuid,
                text::texts(roster@),
            ) is None,
            Err(PostError::MalformedMatchId(e)) => {
                &&& game@.puuid_of(riot_id@) matches Some(puuid) && own_picks_of(
                    game@,
                    tl@,
                    scan::views(near@),
                    puuid,
                    text::texts(roster@),
                ) is Some
                &&& tick::match_parts(game.match_id@) is None
                &&& e@ == tick::malformed(game.match_id@)
            },
        },
{
    let puuid: String = match find_puuid(game, riot_id) {
        Some(puuid) => puuid,
        None => return Err(PostError::PlayerNotFound),
    };
    match own_picks(game, tl, near, puuid.as_str(), roster) {
        None => Err(PostError::OutOfRange),
        Some((highlight, lowlight)) => match split_match_id(game.match_id.as_str()) {
            Err(e) => Err(PostError::MalformedMatchId(e)),
            Ok((platform, game_id)) => Ok(
                PicksAssigned {
                    platform: platform.to_string(),
                    game_id,
                    riot_id: riot_id.to_string(),
                    puuid,
                    highlight: to_pick(&highlight),
                    lowlight: to_pick(&lowlight),
                },
            ),
        },
    }
}

// --- the LP line ---------------------------------------------------------------------

/// Where the standing on a post comes from.
#[derive(Debug, PartialEq, Eq)]
pub enum LpSource {
    /// The line that was recorded when the game was posted.
    Journaled,
    /// The player's current standing on this league-v4 ladder.
    Ladder(&'static str),
    /// There is none.
    Nowhere,
}

/// The mathematical value of an [`LpSource`].
pub enum LpSourceV {
    Journaled,
    Ladder(Seq<char>),
    Nowhere,
}

impl View for LpSource {
    type V = LpSourceV;

    open spec fn view(&self) -> LpSourceV {
        match self {
            LpSource::Journaled => LpSourceV::Journaled,
            LpSource::Ladder(q) => LpSourceV::Ladder(q@),
            LpSource::Nowhere => LpSourceV::Nowhere,
        }
    }
}

/// Where the standing comes from. An edit must not fetch or diff again: the
/// baseline already advanced at post time, so a second diff would read zero.
pub open spec fn source_of(edit: bool, track_lp: bool, queue_id: u16) -> LpSourceV {
    if edit {
        LpSourceV::Journaled
    } else {
        match rank::ladder_of(queue_id) {
            Some(q) => if track_lp {
                LpSourceV::Ladder(q)
            } else {
                LpSourceV::Nowhere
            },
            None => LpSourceV::Nowhere,
        }
    }
}

/// Where the standing on a post or an edit comes from.
pub fn lp_source(edit: bool, track_lp: bool, queue_id: u16) -> (r: LpSource)
    ensures
        r@ == source_of(edit, track_lp, queue_id),
{
    if edit {
        return LpSource::Journaled;
    }
    match queue_type(queue_id) {
        Some(q) => if track_lp {
            LpSource::Ladder(q)
        } else {
            LpSource::Nowhere
        },
        None => LpSource::Nowhere,
    }
}

/// The client that a game's platform is asked with.
pub fn client_for(api_key: &str, platform_id: &str) -> (r: Result<Client, String>)
    ensures
        ({
            let code = text::ascii_lowered(text::lowercase(platform_id@));
            match r {
                Ok(c) => c.wf() && riot::platform_named(code) == Some(c.platform) && c.api_key@
                    == api_key@,
                Err(e) => riot::platform_named(code) is None && e@ == riot::unknown_region(code),
            }
        }),
{
    Client::new(api_key, to_lowercase(platform_id).as_str())
}

/// The LP line that was recorded when the game was posted.
pub open spec fn recorded_line(
    p: ProjectionV,
    platform: Seq<char>,
    game_id: u64,
    riot_id: Seq<char>,
) -> Option<RankInfoV> {
    let key = (platform, game_id, p.identity(riot_id));
    if p.rank_lines.dom().contains(key) {
        Some(p.rank_lines[key])
    } else {
        None
    }
}

/// The LP line that was recorded when the game was posted.
pub fn journaled_line(state: &Projection, platform: &str, game_id: u64, riot_id: &str) -> (r: Option<
    RankInfo,
>)
    requires
        state.wf(),
    ensures
        stats::rank_value(r) == recorded_line(state@, platform@, game_id, riot_id@),
{
    match state.rank_line(platform, game_id, riot_id) {
        Some(line) => Some(line.clone()),
        None => None,
    }
}

/// The LP change since the last observation, where there was one.
pub open spec fn delta_since(
    p: ProjectionV,
    puuid: Seq<char>,
    queue_id: u32,
    ladder: int,
) -> Option<int> {
    match p.baseline(puuid, queue_id) {
        Some(prev) => Some(ladder - prev),
        None => None,
    }
}

/// Whether a standing's ladder position and its change fit in 32 bits.
pub open spec fn diffable(p: ProjectionV, puuid: Seq<char>, queue_id: u32, current: RankV) -> bool {
    &&& i32::MIN <= current.ladder() <= i32::MAX
    &&& delta_since(p, puuid, queue_id, current.ladder()) matches Some(d) ==> i32::MIN <= d
        <= i32::MAX
}

/// What a current standing becomes: the observation that is the next baseline,
/// and the line that is shown, with the change since the last one.
pub open spec fn observation(
    p: ProjectionV,
    puuid: Seq<char>,
    riot_id: Seq<char>,
    queue_id: u32,
    current: RankV,
) -> (RankSeenV, RankInfoV) {
    (
        RankSeenV {
            puuid,
            riot_id,
            queue_id,
            ladder_value: current.ladder() as i32,
            label: current.label(),
            lp: current.lp,
        },
        RankInfoV {
            label: current.label(),
            lp: current.lp,
            delta: match delta_since(p, puuid, queue_id, current.ladder()) {
                Some(d) => Some(d as i32),
                None => None,
            },
        },
    )
}

/// What a current standing becomes: the observation that is the next baseline,
/// and the line that is shown, with the change since the last one.
pub fn observe(
    state: &Projection,
    puuid: &str,
    riot_id: &str,
    queue_id: u16,
    current: &Rank,
) -> (r: (RankObserved, RankInfo))
    requires
        state.wf(),
        diffable(state@, puuid@, queue_id as u32, current@),
    ensures
        (r.0@, r.1@) == observation(state@, puuid@, riot_id@, queue_id as u32, current@),
{
    let queue: u32 = queue_id as u32;
    let ladder_value: i32 = current.ladder_value();
    let delta: Option<i32> = match state.previous_ladder(puuid, queue) {
        Some(prev) => Some(ladder_value - prev),
        None => None,
    };
    (
        RankObserved {
            puuid: puuid.to_string(),
            riot_id: riot_id.to_string(),
            queue_id: queue,
            ladder_value,
            label: current.label(),
            lp: current.lp,
        },
        RankInfo { label: current.label(), lp: current.lp, delta },
    )
}

/// What a current standing becomes, where its ladder position and its change
/// fit in 32 bits.
pub fn checked_observe(
    state: &Projection,
    puuid: &str,
    riot_id: &str,
    queue_id: u16,
    current: &Rank,
) -> (r: Option<(RankObserved, RankInfo)>)
    requires
        state.wf(),
    ensures
        match r {
            Some(seen) => diffable(state@, puuid@, queue_id as u32, current@) && (
                seen.0@,
                seen.1@,
            ) == observation(state@, puuid@, riot_id@, queue_id as u32, current@),
            None => !diffable(state@, puuid@, queue_id as u32, current@),
        },
{
    match current.checked_ladder_value() {
        None => None,
        Some(ladder) => match state.previous_ladder(puuid, queue_id as u32) {
            Some(prev) => match ladder.checked_sub(prev) {
                Some(_) => Some(observe(state, puuid, riot_id, queue_id, current)),
                None => None,
            },
            None => Some(observe(state, puuid, riot_id, queue_id, current)),
        },
    }
}

// --- clips ---------------------------------------------------------------------------

/// The name of a player's recorded clip.
pub open spec fn own_clip(base: Seq<char>, riot_id: Seq<char>) -> Seq<char> {
    base + "-"@ + tick::slugged(riot_id) + ".mp4"@
}

/// The name of a clip that belongs to nobody in particular.
pub open spec fn shared_clip(base: Seq<char>) -> Seq<char> {
    base + ".mp4"@
}

/// The name of a player's recorded clip.
pub fn own_clip_name(base: &str, riot_id: &str) -> (r: String)
    ensures
        r@ == own_clip(base@, riot_id@),
{
    base.to_string().concat("-").concat(slug(riot_id).as_str()).concat(".mp4")
}

/// The name of a clip recorded before perspectives split.
pub fn shared_clip_name(base: &str) -> (r: String)
    ensures
        r@ == shared_clip(base@),
{
    base.to_string().concat(".mp4")
}

/// The clip that is embedded: the player's own where it is there, else the
/// unsuffixed one.
pub fn clip_file(base: &str, riot_id: &str, own_there: bool, shared_there: bool) -> (r: Option<
    String,
>)
    ensures
        text_of(r) == (if own_there {
            Some(own_clip(base@, riot_id@))
        } else if shared_there {
            Some(shared_clip(base@))
        } else {
            None
        }),
{
    if own_there {
        Some(own_clip_name(base, riot_id))
    } else if shared_there {
        Some(shared_clip_name(base))
    } else {
        None
    }
}

/// The patch of a game version: its first two parts.
pub open spec fn patch_in(version: Seq<char>) -> Option<Seq<char>> {
    let parts = text::pieces(version, '.');
    if parts.len() < 2 {
        None
    } else {
        Some(parts[0] + "."@ + parts[1])
    }
}

/// The patch of a game version: its first two parts, `16.3` of `16.3.741.2`.
pub fn patch_of(version: &str) -> (r: Option<String>)
    ensures
        text_of(r) == patch_in(version@),
{
    let parts: Vec<String> = split(version, '.');
    let ghost all = text::pieces(version@, '.');
    proof {
        assert(all.len() == parts@.len());
        assert(forall|i: int| 0 <= i < all.len() ==> all[i] == #[trigger] parts@[i]@);
    }
    if parts.len() < 2 {
        None
    } else {
        Some(parts[0].clone().concat(".").concat(parts[1].as_str()))
    }
}

/// The patch that the member `gameVersion` of a value tells.
pub open spec fn patch_told(t: Option<Tree>) -> Option<Seq<char>> {
    match t {
        Some(t) => match t.str_at("gameVersion"@) {
            Some(version) => patch_in(version),
            None => None,
        },
        None => None,
    }
}

/// The patch that an archived game was played on, by its record.
pub open spec fn patch_recorded(t: Option<Tree>) -> Option<Seq<char>> {
    match t {
        Some(t) => patch_told(t.get("info"@)),
        None => None,
    }
}

fn version_patch(j: &Json) -> (r: Option<String>)
    ensures
        text_of(r) == patch_told(Some(j@)),
{
    match j.str_at("gameVersion") {
        Some(version) => patch_of(version.as_str()),
        None => None,
    }
}

/// The patch an archived game was played on, from its `match.json`.
pub fn game_patch(record: &str) -> (r: Option<String>)
    ensures
        text_of(r) == patch_recorded(json::read_tree(record@)),
{
    match read(record) {
        Some(j) => match j.get("info") {
            Some(info) => version_patch(info),
            None => None,
        },
        None => None,
    }
}

/// The patch whose replays the League client plays, from its reply.
pub fn replay_patch(reply: &str) -> (r: Option<String>)
    ensures
        text_of(r) == patch_told(json::read_tree(reply@)),
{
    match read(reply) {
        Some(j) => version_patch(&j),
        None => None,
    }
}

/// What a post without clips says: that the replay died at a patch boundary,
/// where the game's patch and the client's are known and differ.
pub open spec fn note_for(
    has_clip: bool,
    game_patch: Option<Seq<char>>,
    client_patch: Option<Seq<char>>,
) -> Option<Seq<char>> {
    match (game_patch, client_patch) {
        (Some(game), Some(client)) => if !has_clip && game != client {
            Some("Replay expired (older patch) — no clips for this game"@)
        } else {
            None
        },
        _ => None,
    }
}

/// What a post without clips says of the clips.
pub fn clip_note(
    has_clip: bool,
    game_patch: &Option<String>,
    client_patch: &Option<String>,
) -> (r: Option<String>)
    ensures
        text_of(r) == note_for(has_clip, text_of(*game_patch), text_of(*client_patch)),
{
    match (game_patch, client_patch) {
        (Some(game), Some(client)) => if !has_clip && !same(game.as_str(), client.as_str()) {
            Some("Replay expired (older patch) — no clips for this game".to_string())
        } else {
            None
        },
        _ => None,
    }
}

/// A moment as it is posted: its clip with the caption of its pick, or the
/// caption alone as long as no clip was recorded.
pub open spec fn captioned(filename: Option<Seq<char>>, pick: Option<ClipPickV>) -> Option<SceneV> {
    match (filename, pick) {
        (Some(filename), Some(pick)) => Some(
            SceneV::Recorded(ClipV { filename, caption: Some(pick.caption_text()) }),
        ),
        (Some(filename), None) => Some(SceneV::Recorded(ClipV { filename, caption: None })),
        (None, Some(pick)) => Some(SceneV::Told(pick.caption_text())),
        (None, None) => None,
    }
}

fn scene_with(filename: &Option<String>, pick: &Option<ClipPick>) -> (r: Option<Scene>)
    ensures
        discord::scene_value(r) == captioned(text_of(*filename), pick.val()),
{
    match (filename, pick) {
        (Some(filename), Some(pick)) => Some(
            Scene::Recorded(Clip { filename: filename.clone(), caption: Some(pick.caption()) }),
        ),
        (Some(filename), None) => Some(
            Scene::Recorded(Clip { filename: filename.clone(), caption: None }),
        ),
        (None, Some(pick)) => Some(Scene::Told(pick.caption())),
        (None, None) => None,
    }
}

/// The journaled Highlight and Lowlight of a perspective.
pub open spec fn journaled_picks(
    p: ProjectionV,
    platform: Seq<char>,
    game_id: u64,
    riot_id: Seq<char>,
) -> (Option<ClipPickV>, Option<ClipPickV>) {
    let key = (platform, game_id, p.identity(riot_id));
    if p.picks.dom().contains(key) {
        (p.picks[key].highlight, p.picks[key].lowlight)
    } else {
        (None, None)
    }
}

/// The message of a package: the stats, and the Highlight and the Lowlight with
/// the captions of this perspective's journaled picks. The captions go out
/// first, and the clips join them once they are recorded (a clip without a
/// pick still embeds, just uncaptioned).
pub fn package(
    state: &Projection,
    platform: &str,
    game_id: u64,
    riot_id: &str,
    summary: &MatchSummary,
    rates: &Rates,
    highlight: &Option<String>,
    lowlight: &Option<String>,
    note: &Option<String>,
) -> (r: Json)
    requires
        state.wf(),
        discord::ends_in_time(summary@),
    ensures
        ({
            let own = journaled_picks(state@, platform@, game_id, riot_id@);
            r@ == discord::message_tree(
                summary.win,
                discord::message_parts(
                    summary@,
                    rates@,
                    discord::scene_parts(
                        captioned(text_of(*highlight), own.0),
                        captioned(text_of(*lowlight), own.1),
                    ),
                    text_of(*note),
                ),
            )
        }),
{
    let (first, second): (Option<Scene>, Option<Scene>) = match state.picks(
        platform,
        game_id,
        riot_id,
    ) {
        Some(p) => (scene_with(highlight, &p.highlight), scene_with(lowlight, &p.lowlight)),
        None => (scene_with(highlight, &None), scene_with(lowlight, &None)),
    };
    scene_message(summary, rates, &first, &second, note)
}

// --- what the journal keeps ------------------------------------------------------------

/// The message that an edit attaches the clips to.
pub fn message_to_edit(
    state: &Projection,
    platform: &str,
    game_id: u64,
    riot_id: &str,
    dir: &str,
) -> (r: Result<String, String>)
    requires
        state.wf(),
    ensures
        ({
            let key = (platform@, game_id, state@.identity(riot_id@));
            match r {
                Ok(id) => state@.message_ids.dom().contains(key) && state@.message_ids[key] == id@,
                Err(e) => !state@.message_ids.dom().contains(key) && e@
                    == "no posted message in the journal for "@ + riot_id@ + " in "@ + dir@
                    + " (was this archive posted?)"@,
            }
        }),
{
    match state.message_id(platform, game_id, riot_id) {
        Some(id) => Ok(id.clone()),
        None => Err(
            "no posted message in the journal for ".to_string().concat(riot_id).concat(
                " in ",
            ).concat(dir).concat(" (was this archive posted?)"),
        ),
    }
}

/// The event of a post: it carries the message id the clip pass edits later
/// (empty when the webhook returned none), plus the LP line the edit
/// reproduces.
pub fn posted_event(
    platform: &str,
    game_id: u64,
    riot_id: &str,
    queue_id: u16,
    message_id: Option<String>,
    rank: &Option<RankInfo>,
    puuid: &str,
) -> (r: GamePosted)
    ensures
        r@ == (PostedV {
            platform: platform@,
            game_id,
            riot_id: riot_id@,
            queue_id: queue_id as u32,
            message_id: rank::text_or(text_of(message_id), seq![]),
            rank: stats::rank_value(*rank),
            puuid: Some(puuid@),
        }),
{
    let message_id: String = match message_id {
        Some(id) => id,
        None => String::new(),
    };
    proof {
        assert(message_id@ =~= rank::text_or(text_of(Some(message_id)), seq![]));
    }
    let r: GamePosted = GamePosted {
        platform: platform.to_string(),
        game_id,
        riot_id: riot_id.to_string(),
        queue_id: queue_id as u32,
        message_id,
        rank: copy_rank(rank),
        puuid: Some(puuid.to_string()),
    };
    proof {
        assert(r@.rank == stats::rank_value(*rank));
    }
    r
}

/// The event of an edit that attached a player's clips.
pub fn attached_event(platform: &str, game_id: u64, riot_id: &str) -> (r: ClipsAttached)
    ensures
        r@ == (AttachedV { platform: platform@, game_id, riot_id: Some(riot_id@) }),
{
    ClipsAttached {
        platform: platform.to_string(),
        game_id,
        riot_id: Some(riot_id.to_string()),
    }
}

// --- laws ------------------------------------------------------------------------------

/// The captions go out with the post, before any clip is recorded: the message
/// tells each pick without a clip.
pub proof fn lemma_captions_go_out_first(
    highlight: ClipPickV,
    lowlight: ClipPickV,
    file: Option<Seq<char>>,
    other: Option<ClipPickV>,
)
    ensures
        discord::scene_parts(captioned(None, Some(highlight)), captioned(file, other)).contains(
            discord::text_tree("**"@ + "Highlight"@ + "** "@ + highlight.caption_text()),
        ),
        discord::scene_parts(captioned(file, other), captioned(None, Some(lowlight))).contains(
            discord::text_tree("**"@ + "Lowlight"@ + "** "@ + lowlight.caption_text()),
        ),
{
    let first = discord::scene_parts(captioned(None, Some(highlight)), captioned(file, other));
    assert(first[1] == discord::text_tree(
        "**"@ + "Highlight"@ + "** "@ + highlight.caption_text(),
    ));
    let second = discord::scene_parts(captioned(file, other), captioned(None, Some(lowlight)));
    assert(second[second.len() - 1] == discord::text_tree(
        "**"@ + "Lowlight"@ + "** "@ + lowlight.caption_text(),
    ));
}

/// An edit shows the LP line of the post, under any name of the player.
pub proof fn lemma_edit_shows_the_posted_line(p: ProjectionV, e: PostedV, name: Seq<char>)
    requires
        p.identity(name) == p.poster(e),
        e.rank is Some,
    ensures
        recorded_line(p.after_posted(e), e.platform, e.game_id, name) == e.rank,
{
}

/// The change on a post is the ladder distance to the observation before it,
/// under any PUUID of the player.
pub proof fn lemma_deltas_chain(p: ProjectionV, e: RankSeenV, puuid: Seq<char>, ladder: int)
    requires
        p.root(puuid) == p.root(e.puuid),
    ensures
        delta_since(p.after_rank(e), puuid, e.queue_id, ladder) == Some(ladder - e.ladder_value),
{
}

} // verus!
