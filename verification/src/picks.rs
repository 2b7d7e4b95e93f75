//! The clip picks: every tracked player's Highlight and Lowlight, assigned
//! jointly over the game so that they spread across distinct moments.

use vstd::prelude::*;
use vstd::string::*;

use crate::candidates::{
    objective_candidates, role_weight, top_candidates, Candidate, CandidateV, ScoreContext, ScoreV,
};
use crate::game::{find_player, team_by_participant, team_i32, Game, GameV, Participant, ParticipantV};
use crate::highlights::highlight_candidates;
use crate::lowlights::lowlight_candidates;
use crate::seqs::{sort, Order};
use crate::text::{precedes, same};
use crate::timeline::{Timeline, TimelineV};
use crate::{candidates, game, highlights, lowlights, scan, seqs, text};

verus! {

// --- one player's candidates -------------------------------------------------

/// The roles of the participants on another team than `team_id`.
pub open spec fn roles_against(participants: Seq<ParticipantV>, team_id: u16) -> Seq<
    (i32, i64, Seq<char>),
>
    decreases participants.len(),
{
    if participants.len() == 0 {
        seq![]
    } else {
        let before = roles_against(participants.drop_last(), team_id);
        let p = participants.last();
        if p.team_id != team_id {
            let (weight, label) = candidates::role_of(p.team_position);
            before.push((p.participant_id, weight, label))
        } else {
            before
        }
    }
}

/// The scoring context of a player.
pub open spec fn context_of(game: GameV, player: ParticipantV) -> ScoreV {
    ScoreV {
        cc_seconds: player.time_ccing_others as i64,
        end_ms: game.game_duration * 1000,
        enemy_roles: roles_against(game.participants, player.team_id),
        roster: game.roster(),
    }
}

fn score_context(game: &Game, player: &Participant) -> (r: ScoreContext)
    ensures
        r@ == context_of(game@, player@),
{
    let ghost all = game@.participants;
    let mut roles: Vec<(i32, i64, &'static str)> = Vec::new();
    proof {
        assert(scan::views(roles@) =~= seq![]);
    }
    for i in 0..game.participants.len()
        invariant
            all == game@.participants,
            scan::views(roles@) == roles_against(all.take(i as int), player.team_id),
    {
        let p: &Participant = &game.participants[i];
        proof {
            assert(all.take(i + 1).drop_last() =~= all.take(i as int));
            assert(all.take(i + 1).last() == p@);
        }
        if p.team_id != player.team_id {
            let (weight, label) = role_weight(p.team_position.as_str());
            let ghost before = roles@;
            roles.push((p.participant_id, weight, label));
            proof {
                assert(scan::views(roles@) =~= scan::views(before).push(
                    (p.participant_id, weight, label@),
                ));
            }
        }
    }
    proof {
        assert(all.take(all.len() as int) =~= all);
    }
    ScoreContext {
        cc_seconds: player.time_ccing_others as i64,
        end_ms: game.game_duration as i128 * 1000,
        enemy_roles: roles,
        roster: team_by_participant(game),
    }
}

/// Candidates paired with their scores.
pub open spec fn scored(clips: Seq<CandidateV>) -> Seq<(i64, CandidateV)> {
    clips.map_values(|c: CandidateV| (c.score, c))
}

/// The Highlight and Lowlight candidates of a player; nobody has none. Nothing
/// where a number does not fit.
pub open spec fn clips_of(
    game: GameV,
    tl: TimelineV,
    near: Seq<Seq<bool>>,
    puuid: Seq<char>,
) -> Option<(Seq<CandidateV>, Seq<CandidateV>)> {
    match game.player(puuid) {
        None => Some((seq![], seq![])),
        Some(player) => {
            let pid = player.participant_id;
            let pteam = game::side_of(player.team_id);
            let ctx = context_of(game, player);
            let fights = candidates::clusters(tl.kills, tl.kills.len());
            match highlights::fight_clips(tl, near, fights, pid, pteam, ctx) {
                None => None,
                Some(plays) => Some(
                    (
                        candidates::top_of(
                            scored(
                                plays + candidates::secure_clips(tl.objectives, pid, pteam, ctx),
                            ),
                        ),
                        candidates::top_of(
                            lowlights::death_clips(
                                tl,
                                near,
                                tl.kills.len() as int,
                                pid,
                                pteam,
                                game,
                                ctx,
                            ),
                        ),
                    ),
                ),
            }
        },
    }
}

fn with_scores(a: Vec<Candidate>, b: Vec<Candidate>) -> (r: Vec<(i64, Candidate)>)
    ensures
        scan::views(r@) == scored(scan::views(a@) + scan::views(b@)),
{
    let ghost want = scored(scan::views(a@) + scan::views(b@));
    let mut rest: Vec<Candidate> = a;
    let mut more: Vec<Candidate> = b;
    rest.append(&mut more);
    let ghost all = rest@;
    let mut out: Vec<(i64, Candidate)> = Vec::new();
    proof {
        assert(scan::views(all) =~= scan::views(a@) + scan::views(b@));
    }
    while rest.len() > 0
        invariant
            rest@.len() + out@.len() == all.len(),
            rest@ == all.skip(out@.len() as int),
            want == scored(scan::views(all)),
            scan::views(out@) =~= want.take(out@.len() as int),
        decreases rest@.len(),
    {
        let ghost k = out@.len() as int;
        let ghost before = out@;
        let c: Candidate = rest.remove(0);
        let score: i64 = c.score;
        out.push((score, c));
        proof {
            assert(c == all[k]);
            assert(scan::views(out@) =~= scan::views(before).push((score, c@)));
            assert(want.take(k + 1) =~= want.take(k).push(want[k]));
        }
    }
    proof {
        assert(want.take(want.len() as int) =~= want);
    }
    out
}

/// The values of a player's candidates.
pub open spec fn clips_view(c: Option<(Vec<Candidate>, Vec<Candidate>)>) -> Option<
    (Seq<CandidateV>, Seq<CandidateV>),
> {
    match c {
        Some((h, l)) => Some((scan::views(h@), scan::views(l@))),
        None => None,
    }
}

/// Computes the ranked Highlight and Lowlight clip candidates for the centered
/// player. `near[i][j]` says whether kill `j` of the timeline lies within the
/// trade radius of kill `i`. Nothing where a gold sum or a score leaves 64
/// bits.
pub fn candidates_of(game: &Game, tl: &Timeline, near: &Vec<Vec<bool>>, puuid: &str) -> (r:
    Option<(Vec<Candidate>, Vec<Candidate>)>)
    ensures
        clips_view(r) == clips_of(game@, tl@, scan::views(near@), puuid@),
{
    match find_player(game, puuid) {
        None => {
            let none: (Vec<Candidate>, Vec<Candidate>) = (Vec::new(), Vec::new());
            proof {
                assert(scan::views(none.0@) =~= seq![]);
                assert(scan::views(none.1@) =~= seq![]);
            }
            Some(none)
        },
        Some(i) => {
            let player: &Participant = &game.participants[i];
            let pid: i32 = player.participant_id;
            let pteam: i32 = team_i32(player.team_id);
            let ctx: ScoreContext = score_context(game, player);
            match highlight_candidates(tl, near, pid, pteam, &ctx) {
                None => None,
                Some(plays) => {
                    let secures: Vec<Candidate> = objective_candidates(tl, pid, pteam, &ctx);
                    Some(
                        (
                            top_candidates(with_scores(plays, secures)),
                            lowlight_candidates(tl, near, pid, pteam, game, &ctx),
                        ),
                    )
                },
            }
        },
    }
}

// --- the joint assignment ----------------------------------------------------

/// Whether two clip windows show substantially the same footage: the overlap
/// covers more than half of the shorter window.
pub open spec fn overlapping(c: CandidateV, window: (i64, i64)) -> bool {
    let c_end = c.seek_s + c.dur_s;
    let end = if c_end < window.1 {
        c_end
    } else {
        window.1 as int
    };
    let start = if c.seek_s > window.0 {
        c.seek_s as int
    } else {
        window.0 as int
    };
    let shorter = if c.dur_s < window.1 - window.0 {
        c.dur_s as int
    } else {
        window.1 - window.0
    };
    (end - start) * 2 > shorter
}

/// Two clip windows showing substantially the same footage: the overlap
/// covers more than half of the shorter window.
pub fn overlaps(candidate: &Candidate, window: (i64, i64)) -> (r: bool)
    ensures
        r == overlapping(candidate@, window),
{
    let (start, end) = (window.0 as i128, window.1 as i128);
    let c_start: i128 = candidate.seek_s as i128;
    let dur: i128 = candidate.dur_s as i128;
    let c_end: i128 = c_start + dur;
    let to: i128 = if c_end < end {
        c_end
    } else {
        end
    };
    let from: i128 = if c_start > start {
        c_start
    } else {
        start
    };
    let shorter: i128 = if dur < end - start {
        dur
    } else {
        end - start
    };
    (to - from) * 2 > shorter
}

/// Whether a candidate's window is free of every claimed one.
pub open spec fn is_free(c: CandidateV, claimed: Seq<(i64, i64)>) -> bool {
    forall|w: int| 0 <= w < claimed.len() ==> !overlapping(c, #[trigger] claimed[w])
}

fn free(c: &Candidate, claimed: &Vec<(i64, i64)>) -> (r: bool)
    ensures
        r == is_free(c@, claimed@),
{
    for i in 0..claimed.len()
        invariant
            forall|w: int| 0 <= w < i ==> !overlapping(c@, #[trigger] claimed@[w]),
    {
        if overlaps(c, claimed[i]) {
            return false;
        }
    }
    true
}

/// Whether a candidate is at least as good as another: a higher score, or the
/// same one no later.
pub open spec fn at_least(a: CandidateV, b: CandidateV) -> bool {
    a.score > b.score || (a.score == b.score && a.t_ms <= b.t_ms)
}

/// The best of a player's candidates, or of those whose windows are free; the
/// last one of equals.
pub open spec fn best_clip(
    clips: Seq<CandidateV>,
    claimed: Seq<(i64, i64)>,
    free_only: bool,
) -> Option<CandidateV>
    decreases clips.len(),
{
    if clips.len() == 0 {
        None
    } else {
        let before = best_clip(clips.drop_last(), claimed, free_only);
        if free_only && !is_free(clips.last(), claimed) {
            before
        } else {
            match before {
                Some(b) => if at_least(clips.last(), b) {
                    Some(clips.last())
                } else {
                    Some(b)
                },
                None => Some(clips.last()),
            }
        }
    }
}

/// What a player would claim: their best free candidate when it's worth at
/// least half their best — otherwise the best, for the shared moment really is
/// their story too.
pub open spec fn choice_of(clips: Seq<CandidateV>, claimed: Seq<(i64, i64)>) -> Option<CandidateV> {
    match (best_clip(clips, claimed, false), best_clip(clips, claimed, true)) {
        (None, _) => None,
        (Some(any), Some(free)) => if free.score * 2 >= any.score {
            Some(free)
        } else {
            Some(any)
        },
        (Some(any), None) => Some(any),
    }
}

fn best(clips: &Vec<Candidate>, claimed: &Vec<(i64, i64)>, free_only: bool) -> (r: Option<usize>)
    ensures
        match r {
            Some(i) => i < clips@.len() && best_clip(scan::views(clips@), claimed@, free_only)
                == Some(clips@[i as int]@),
            None => best_clip(scan::views(clips@), claimed@, free_only) is None,
        },
{
    let ghost all = scan::views(clips@);
    let mut found: Option<usize> = None;
    for i in 0..clips.len()
        invariant
            all == scan::views(clips@),
            match found {
                Some(k) => k < i && best_clip(all.take(i as int), claimed@, free_only) == Some(
                    clips@[k as int]@,
                ),
                None => best_clip(all.take(i as int), claimed@, free_only) is None,
            },
    {
        let c: &Candidate = &clips[i];
        proof {
            assert(all.take(i + 1).drop_last() =~= all.take(i as int));
            assert(all.take(i + 1).last() == c@);
        }
        if !free_only || free(c, claimed) {
            let wins: bool = match found {
                Some(k) => c.score > clips[k].score || (c.score == clips[k].score && c.t_ms
                    <= clips[k].t_ms),
                None => true,
            };
            if wins {
                found = Some(i);
            }
        }
    }
    proof {
        assert(all.take(all.len() as int) =~= all);
    }
    found
}

fn choose_clip(clips: &Vec<Candidate>, claimed: &Vec<(i64, i64)>) -> (r: Option<usize>)
    ensures
        match r {
            Some(i) => i < clips@.len() && choice_of(scan::views(clips@), claimed@) == Some(
                clips@[i as int]@,
            ),
            None => choice_of(scan::views(clips@), claimed@) is None,
        },
{
    match best(clips, claimed, false) {
        None => None,
        Some(any) => match best(clips, claimed, true) {
            Some(free) => if clips[free].score as i128 * 2 >= clips[any].score as i128 {
                Some(free)
            } else {
                Some(any)
            },
            None => Some(any),
        },
    }
}

/// The strongest claim among the players: whose it is, and what they claim; the
/// first one of equals.
pub open spec fn strongest(
    players: Seq<(Seq<char>, Seq<CandidateV>)>,
    claimed: Seq<(i64, i64)>,
) -> Option<(int, CandidateV)>
    decreases players.len(),
{
    if players.len() == 0 {
        None
    } else {
        match (
            strongest(players.drop_last(), claimed),
            choice_of(players.last().1, claimed),
        ) {
            (before, None) => before,
            (None, Some(c)) => Some((players.len() - 1, c)),
            (Some((i, b)), Some(c)) => if c.score > b.score {
                Some((players.len() - 1, c))
            } else {
                Some((i, b))
            },
        }
    }
}

/// The window that a candidate claims.
pub open spec fn window_of(c: CandidateV) -> (i64, i64) {
    (c.seek_s, (c.seek_s + c.dur_s) as i64)
}

/// Whether the end of a candidate's window is a 64-bit integer.
pub open spec fn in_time(c: CandidateV) -> bool {
    candidates::fits(c.seek_s + c.dur_s)
}

/// Whether every candidate of every player ends in time.
pub open spec fn all_in_time(players: Seq<(Seq<char>, Seq<CandidateV>)>) -> bool {
    forall|i: int, j: int|
        0 <= i < players.len() && 0 <= j < players[i].1.len() ==> in_time(
            #[trigger] players[i].1[j],
        )
}

proof fn lemma_strongest_index(
    players: Seq<(Seq<char>, Seq<CandidateV>)>,
    claimed: Seq<(i64, i64)>,
)
    ensures
        match strongest(players, claimed) {
            Some((i, c)) => 0 <= i < players.len() && choice_of(players[i].1, claimed) == Some(c),
            None => true,
        },
    decreases players.len(),
{
    if players.len() > 0 {
        lemma_strongest_index(players.drop_last(), claimed);
    }
}

/// The greedy joint assignment: the strongest claim wins each round.
pub open spec fn assignment(
    players: Seq<(Seq<char>, Seq<CandidateV>)>,
    claimed: Seq<(i64, i64)>,
) -> Seq<(Seq<char>, CandidateV)>
    decreases players.len(),
    via assignment_decreases
{
    match strongest(players, claimed) {
        None => seq![],
        Some((i, c)) => seq![(players[i].0, c)] + assignment(
            players.remove(i),
            claimed.push(window_of(c)),
        ),
    }
}

#[via_fn]
proof fn assignment_decreases(
    players: Seq<(Seq<char>, Seq<CandidateV>)>,
    claimed: Seq<(i64, i64)>,
) {
    lemma_strongest_index(players, claimed);
}

/// The values of a list of players with their candidates.
pub open spec fn players_view(v: Seq<(String, Vec<Candidate>)>) -> Seq<
    (Seq<char>, Seq<CandidateV>),
> {
    v.map_values(|p: (String, Vec<Candidate>)| (p.0@, scan::views(p.1@)))
}

/// The players that are left, by their indices.
spec fn left(
    players: Seq<(Seq<char>, Seq<CandidateV>)>,
    remaining: Seq<usize>,
) -> Seq<(Seq<char>, Seq<CandidateV>)> {
    remaining.map_values(|i: usize| players[i as int])
}

/// Finds the strongest claim among the players that are left: where it stands
/// in `remaining`, and which of the player's candidates it is.
fn strongest_claim(
    players: &Vec<(String, Vec<Candidate>)>,
    remaining: &Vec<usize>,
    claimed: &Vec<(i64, i64)>,
) -> (r: Option<(usize, usize)>)
    requires
        forall|k: int| 0 <= k < remaining@.len() ==> #[trigger] remaining@[k] < players@.len(),
    ensures
        match r {
            Some((k, j)) => {
                &&& k < remaining@.len()
                &&& j < players@[remaining@[k as int] as int].1@.len()
                &&& strongest(left(players_view(players@), remaining@), claimed@) == Some(
                    (k as int, players@[remaining@[k as int] as int].1@[j as int]@),
                )
            },
            None => strongest(left(players_view(players@), remaining@), claimed@) is None,
        },
{
    let ghost all = left(players_view(players@), remaining@);
    let mut best: Option<(usize, usize)> = None;
    for i in 0..remaining.len()
        invariant
            forall|k: int| 0 <= k < remaining@.len() ==> #[trigger] remaining@[k] < players@.len(),
            all == left(players_view(players@), remaining@),
            match best {
                Some((k, j)) => {
                    &&& k < i
                    &&& j < players@[remaining@[k as int] as int].1@.len()
                    &&& strongest(all.take(i as int), claimed@) == Some(
                        (k as int, players@[remaining@[k as int] as int].1@[j as int]@),
                    )
                },
                None => strongest(all.take(i as int), claimed@) is None,
            },
    {
        let clips: &Vec<Candidate> = &players[remaining[i]].1;
        proof {
            assert(all.take(i + 1).drop_last() =~= all.take(i as int));
            assert(all.take(i + 1).last().1 == scan::views(clips@));
        }
        if let Some(j) = choose_clip(clips, claimed) {
            let wins: bool = match best {
                Some((k, b)) => clips[j].score > players[remaining[k]].1[b].score,
                None => true,
            };
            if wins {
                best = Some((i, j));
            }
        }
    }
    proof {
        assert(all.take(all.len() as int) =~= all);
    }
    best
}

/// The values of a list of assigned picks.
pub open spec fn assigned_view(v: Seq<(String, Candidate)>) -> Seq<(Seq<char>, CandidateV)> {
    v.map_values(|p: (String, Candidate)| (p.0@, p.1@))
}

/// Greedy joint assignment for one side: the strongest unassigned claim wins
/// each round, and a player whose best candidate overlaps a claimed window
/// diverts to their best free alternative when it's worth at least half their
/// best — otherwise the shared moment really is their story too. The picks come
/// in the order in which they were claimed.
pub fn assign_side(players: &Vec<(String, Vec<Candidate>)>) -> (r: Vec<(String, Candidate)>)
    requires
        all_in_time(players_view(players@)),
    ensures
        assigned_view(r@) == assignment(players_view(players@), seq![]),
{
    let ghost all = players_view(players@);
    let mut claimed: Vec<(i64, i64)> = Vec::new();
    let mut assigned: Vec<(String, Candidate)> = Vec::new();
    let mut remaining: Vec<usize> = Vec::new();
    for i in 0..players.len()
        invariant
            remaining@.len() == i,
            forall|k: int| 0 <= k < i ==> #[trigger] remaining@[k] == k,
    {
        remaining.push(i);
    }
    proof {
        assert(left(all, remaining@) =~= all);
        assert(claimed@ =~= seq![]);
        assert(assigned_view(assigned@) =~= seq![]);
        assert(seq![] + assignment(all, seq![]) =~= assignment(all, seq![]));
    }
    let mut going: bool = true;
    while going
        invariant
            all == players_view(players@),
            all_in_time(all),
            forall|k: int| 0 <= k < remaining@.len() ==> #[trigger] remaining@[k] < players@.len(),
            going ==> assigned_view(assigned@) + assignment(left(all, remaining@), claimed@)
                == assignment(all, seq![]),
            !going ==> assigned_view(assigned@) == assignment(all, seq![]),
        decreases
                remaining@.len() + if going {
                    1nat
                } else {
                    0nat
                },
    {
        let ghost rest = left(all, remaining@);
        proof {
            lemma_strongest_index(rest, claimed@);
        }
        match strongest_claim(players, &remaining, &claimed) {
            None => {
                going = false;
                proof {
                    assert(assigned_view(assigned@) + seq![] =~= assigned_view(assigned@));
                }
            },
            Some((k, j)) => {
                let i: usize = remaining.remove(k);
                let c: Candidate = players[i].1[j].clone();
                proof {
                    assert(all[i as int].1[j as int] == c@);
                    assert(in_time(c@));
                    assert(rest[k as int] == all[i as int]);
                    assert(left(all, remaining@) =~= rest.remove(k as int));
                }
                claimed.push((c.seek_s, c.seek_s + c.dur_s));
                let ghost done = assigned@;
                assigned.push((players[i].0.clone(), c));
                proof {
                    assert(assigned_view(assigned@) =~= assigned_view(done).push(
                        (all[i as int].0, c@),
                    ));
                    let more = assignment(left(all, remaining@), claimed@);
                    assert(assigned_view(done) + (seq![(all[i as int].0, c@)] + more)
                        =~= assigned_view(assigned@) + more);
                }
            },
        }
    }
    assigned
}

// --- everyone's picks --------------------------------------------------------

/// `s` without the items that repeat the one before them.
pub open spec fn deduped(s: Seq<Seq<char>>) -> Seq<Seq<char>>
    decreases s.len(),
{
    if s.len() == 0 {
        seq![]
    } else if s.len() > 1 && s.last() == s[s.len() - 2] {
        deduped(s.drop_last())
    } else {
        deduped(s.drop_last()).push(s.last())
    }
}

/// The tracked players in the order of their PUUIDs, each one once.
pub open spec fn ordered_names(watched: Seq<Seq<char>>) -> Seq<Seq<char>> {
    deduped(seqs::sorted_by(watched, text::text_order()))
}

struct NameOrder;

impl Order<String> for NameOrder {
    open spec fn lt(a: String, b: String) -> bool {
        text::comes_before(a@, b@)
    }

    fn before(a: &String, b: &String) -> (r: bool) {
        precedes(a.as_str(), b.as_str())
    }
}

fn order_names(watched: &Vec<String>) -> (r: Vec<String>)
    ensures
        text::texts(r@) == ordered_names(text::texts(watched@)),
{
    let mut copy: Vec<String> = Vec::new();
    for i in 0..watched.len()
        invariant
            copy@ =~= watched@.take(i as int),
    {
        copy.push(watched[i].clone());
    }
    proof {
        assert(copy@ =~= watched@);
        seqs::lemma_sorted_map(
            watched@,
            |s: String| s@,
            |a: String, b: String| NameOrder::lt(a, b),
            text::text_order(),
        );
    }
    let sorted: Vec<String> = sort::<String, NameOrder>(copy);
    let ghost all = text::texts(sorted@);
    let mut out: Vec<String> = Vec::new();
    proof {
        assert(text::texts(out@) =~= seq![]);
    }
    for i in 0..sorted.len()
        invariant
            all == text::texts(sorted@),
            text::texts(out@) == deduped(all.take(i as int)),
    {
        let ghost before = out@;
        proof {
            assert(all.take(i + 1).drop_last() =~= all.take(i as int));
            assert(all.take(i + 1).last() == sorted@[i as int]@);
            assert(i > 0 ==> all.take(i + 1)[i - 1] == sorted@[i - 1]@);
        }
        if i == 0 || !same(sorted[i].as_str(), sorted[i - 1].as_str()) {
            out.push(sorted[i].clone());
            proof {
                assert(text::texts(out@) =~= text::texts(before).push(sorted@[i as int]@));
            }
        }
    }
    proof {
        assert(all.take(all.len() as int) =~= all);
    }
    out
}

/// One side's candidates of a list of players.
pub open spec fn side_clips(
    game: GameV,
    tl: TimelineV,
    near: Seq<Seq<bool>>,
    names: Seq<Seq<char>>,
    highlight: bool,
) -> Seq<(Seq<char>, Seq<CandidateV>)> {
    names.map_values(
        |name: Seq<char>|
            (
                name,
                match clips_of(game, tl, near, name) {
                    Some((h, l)) => if highlight {
                        h
                    } else {
                        l
                    },
                    None => seq![],
                },
            ),
    )
}

/// Whether every player's candidates can be computed.
pub open spec fn all_computable(
    game: GameV,
    tl: TimelineV,
    near: Seq<Seq<bool>>,
    names: Seq<Seq<char>>,
) -> bool {
    forall|i: int|
        0 <= i < names.len() ==> clips_of(game, tl, near, #[trigger] names[i]) is Some
}

/// The pick assigned to a player.
pub open spec fn pick_named(
    assigned: Seq<(Seq<char>, CandidateV)>,
    name: Seq<char>,
) -> Option<CandidateV>
    decreases assigned.len(),
{
    if assigned.len() == 0 {
        None
    } else if assigned.last().0 == name {
        Some(assigned.last().1)
    } else {
        pick_named(assigned.drop_last(), name)
    }
}

/// Everyone's Highlight and Lowlight; nothing where a number does not fit.
pub open spec fn joint_picks(
    game: GameV,
    tl: TimelineV,
    near: Seq<Seq<bool>>,
    watched: Seq<Seq<char>>,
) -> Option<Seq<(Seq<char>, Option<CandidateV>, Option<CandidateV>)>> {
    let names = ordered_names(watched);
    let highs = assignment(side_clips(game, tl, near, names, true), seq![]);
    let lows = assignment(side_clips(game, tl, near, names, false), seq![]);
    if all_computable(game, tl, near, names) {
        Some(
            names.map_values(
                |name: Seq<char>| (name, pick_named(highs, name), pick_named(lows, name)),
            ),
        )
    } else {
        None
    }
}

/// The pick that was assigned to a player, the last one where there are several.
pub fn assigned_to(assigned: &Vec<(String, Candidate)>, name: &str) -> (r: Option<Candidate>)
    ensures
        match r {
            Some(c) => pick_named(assigned_view(assigned@), name@) == Some(c@),
            None => pick_named(assigned_view(assigned@), name@) is None,
        },
{
    let ghost all = assigned_view(assigned@);
    let mut k: usize = assigned.len();
    proof {
        assert(all.take(all.len() as int) =~= all);
    }
    while k > 0
        invariant
            all == assigned_view(assigned@),
            k <= assigned@.len(),
            pick_named(all, name@) == pick_named(all.take(k as int), name@),
        decreases k,
    {
        proof {
            assert(all.take(k as int).drop_last() =~= all.take(k - 1));
            assert(all.take(k as int).last() == (assigned@[k - 1].0@, assigned@[k - 1].1@));
        }
        if same(assigned[k - 1].0.as_str(), name) {
            return Some(assigned[k - 1].1.clone());
        }
        k = k - 1;
    }
    None
}

/// The value of an optional candidate.
pub open spec fn candidate_view(c: Option<Candidate>) -> Option<CandidateV> {
    match c {
        Some(c) => Some(c@),
        None => None,
    }
}

/// The values of everyone's picks.
pub open spec fn picks_view(
    v: Seq<(String, Option<Candidate>, Option<Candidate>)>,
) -> Seq<(Seq<char>, Option<CandidateV>, Option<CandidateV>)> {
    v.map_values(
        |p: (String, Option<Candidate>, Option<Candidate>)|
            (p.0@, candidate_view(p.1), candidate_view(p.2)),
    )
}

/// Jointly assigns every tracked player in the game their Highlight and
/// Lowlight picks, spreading picks across distinct moments: a shared
/// teamfight is often several players' best-scored candidate, and N
/// near-identical clips of it teach the channel nothing. Pure in its inputs
/// (players keyed and ordered by PUUID), so whichever player's analyze runs
/// first computes the same assignment. Nothing where a gold sum or a score
/// leaves 64 bits.
pub fn assign(
    game: &Game,
    tl: &Timeline,
    near: &Vec<Vec<bool>>,
    tracked_puuids: &Vec<String>,
) -> (r: Option<Vec<(String, Option<Candidate>, Option<Candidate>)>>)
    ensures
        match r {
            Some(v) => joint_picks(
                game@,
                tl@,
                scan::views(near@),
                text::texts(tracked_puuids@),
            ) == Some(picks_view(v@)),
            None => joint_picks(
                game@,
                tl@,
                scan::views(near@),
                text::texts(tracked_puuids@),
            ) is None,
        },
{
    let puuids: Vec<String> = order_names(tracked_puuids);
    let ghost names = text::texts(puuids@);
    let ghost rows = scan::views(near@);
    let mut highs: Vec<(String, Vec<Candidate>)> = Vec::new();
    let mut lows: Vec<(String, Vec<Candidate>)> = Vec::new();
    for i in 0..puuids.len()
        invariant
            names == text::texts(puuids@),
            names == ordered_names(text::texts(tracked_puuids@)),
            rows == scan::views(near@),
            players_view(highs@) =~= side_clips(game@, tl@, rows, names.take(i as int), true),
            players_view(lows@) =~= side_clips(game@, tl@, rows, names.take(i as int), false),
            all_computable(game@, tl@, rows, names.take(i as int)),
    {
        proof {
            assert(names[i as int] == puuids@[i as int]@);
            assert(names.take(i + 1) =~= names.take(i as int).push(names[i as int]));
        }
        match candidates_of(game, tl, near, puuids[i].as_str()) {
            Some((h, l)) => {
                let ghost hs = highs@;
                let ghost ls = lows@;
                highs.push((puuids[i].clone(), h));
                lows.push((puuids[i].clone(), l));
                proof {
                    assert(players_view(highs@) =~= players_view(hs).push(
                        (names[i as int], scan::views(h@)),
                    ));
                    assert(players_view(lows@) =~= players_view(ls).push(
                        (names[i as int], scan::views(l@)),
                    ));
                    assert(all_computable(game@, tl@, rows, names.take(i + 1))) by {
                        assert forall|j: int| 0 <= j < i + 1 implies clips_of(
                            game@,
                            tl@,
                            rows,
                            #[trigger] names.take(i + 1)[j],
                        ) is Some by {
                            if j < i {
                                assert(names.take(i as int)[j] == names.take(i + 1)[j]);
                            }
                        }
                    }
                }
            },
            None => {
                return None;
            },
        }
    }
    proof {
        assert(names.take(names.len() as int) =~= names);
        lemma_side_in_time(game@, tl@, rows, names, true);
        lemma_side_in_time(game@, tl@, rows, names, false);
    }
    let highlight_picks: Vec<(String, Candidate)> = assign_side(&highs);
    let lowlight_picks: Vec<(String, Candidate)> = assign_side(&lows);
    let ghost want = joint_picks(
        game@,
        tl@,
        scan::views(near@),
        text::texts(tracked_puuids@),
    )->Some_0;
    let mut out: Vec<(String, Option<Candidate>, Option<Candidate>)> = Vec::new();
    for i in 0..puuids.len()
        invariant
            names == text::texts(puuids@),
            assigned_view(highlight_picks@) == assignment(
                side_clips(game@, tl@, rows, names, true),
                seq![],
            ),
            assigned_view(lowlight_picks@) == assignment(
                side_clips(game@, tl@, rows, names, false),
                seq![],
            ),
            want == names.map_values(
                |name: Seq<char>|
                    (
                        name,
                        pick_named(
                            assignment(side_clips(game@, tl@, rows, names, true), seq![]),
                            name,
                        ),
                        pick_named(
                            assignment(side_clips(game@, tl@, rows, names, false), seq![]),
                            name,
                        ),
                    ),
            ),
            picks_view(out@) =~= want.take(i as int),
    {
        let ghost before = out@;
        let h: Option<Candidate> = assigned_to(&highlight_picks, puuids[i].as_str());
        let l: Option<Candidate> = assigned_to(&lowlight_picks, puuids[i].as_str());
        out.push((puuids[i].clone(), h, l));
        proof {
            assert(picks_view(out@) =~= picks_view(before).push(
                (puuids@[i as int]@, candidate_view(h), candidate_view(l)),
            ));
            assert(want.take(i + 1) =~= want.take(i as int).push(want[i as int]));
        }
    }
    proof {
        assert(want.take(want.len() as int) =~= want);
    }
    Some(out)
}

// --- the windows are sound ---------------------------------------------------

/// What every candidate's window keeps: it starts inside the game, is no longer
/// than the cap, and ends in time.
pub open spec fn sound_window(c: CandidateV) -> bool {
    &&& 0 <= c.seek_s <= 10_000_000_000_000_000
    &&& -20_000_000_000_000_000 <= c.dur_s <= candidates::CLIP_MAX_S
}

proof fn lemma_fight_clips_sound(
    tl: TimelineV,
    near: Seq<Seq<bool>>,
    fights: Seq<(int, int)>,
    pid: i32,
    pteam: i32,
    ctx: ScoreV,
)
    ensures
        match highlights::fight_clips(tl, near, fights, pid, pteam, ctx) {
            Some(v) => forall|i: int| 0 <= i < v.len() ==> sound_window(#[trigger] v[i]),
            None => true,
        },
    decreases fights.len(),
{
    if fights.len() > 0 {
        lemma_fight_clips_sound(tl, near, fights.drop_last(), pid, pteam, ctx);
    }
}

proof fn lemma_secure_clips_sound(
    objectives: Seq<crate::timeline::ObjectiveV>,
    pid: i32,
    pteam: i32,
    ctx: ScoreV,
)
    ensures
        forall|i: int|
            0 <= i < candidates::secure_clips(objectives, pid, pteam, ctx).len() ==> sound_window(
                #[trigger] candidates::secure_clips(objectives, pid, pteam, ctx)[i],
            ),
    decreases objectives.len(),
{
    if objectives.len() > 0 {
        lemma_secure_clips_sound(objectives.drop_last(), pid, pteam, ctx);
        assert(sound_window(candidates::secure_clip(objectives.last(), pid, pteam, ctx)));
        let before = candidates::secure_clips(objectives.drop_last(), pid, pteam, ctx);
        let now = candidates::secure_clips(objectives, pid, pteam, ctx);
        assert forall|i: int| 0 <= i < now.len() implies sound_window(#[trigger] now[i]) by {
            if i < before.len() {
                assert(now[i] == before[i]);
            }
        }
    }
}

proof fn lemma_death_clips_sound(
    tl: TimelineV,
    near: Seq<Seq<bool>>,
    n: int,
    pid: i32,
    pteam: i32,
    game: GameV,
    ctx: ScoreV,
)
    ensures
        forall|i: int|
            0 <= i < lowlights::death_clips(tl, near, n, pid, pteam, game, ctx).len()
                ==> sound_window(
                (#[trigger] lowlights::death_clips(tl, near, n, pid, pteam, game, ctx)[i]).1,
            ),
    decreases n,
{
    if n > 0 {
        lemma_death_clips_sound(tl, near, n - 1, pid, pteam, game, ctx);
        let d = lowlights::death_story(tl, near, n - 1, pid, pteam, game, ctx);
        assert(sound_window(lowlights::death_clip(d)));
        let before = lowlights::death_clips(tl, near, n - 1, pid, pteam, game, ctx);
        let now = lowlights::death_clips(tl, near, n, pid, pteam, game, ctx);
        assert forall|i: int| 0 <= i < now.len() implies sound_window((#[trigger] now[i]).1) by {
            if i < before.len() {
                assert(now[i] == before[i]);
            }
        }
    }
}

proof fn lemma_top_sound(list: Seq<(i64, CandidateV)>)
    requires
        forall|i: int| 0 <= i < list.len() ==> sound_window((#[trigger] list[i]).1),
    ensures
        forall|i: int|
            0 <= i < candidates::top_of(list).len() ==> sound_window(
                #[trigger] candidates::top_of(list)[i],
            ),
{
    let p = |e: (i64, CandidateV)| sound_window(e.1);
    seqs::lemma_sort_keeps_all(list, candidates::higher(), p);
    let kept = candidates::best_of(list);
    assert forall|i: int| 0 <= i < kept.len() implies p(#[trigger] kept[i]) by {
        assert(kept[i] == seqs::sorted_by(list, candidates::higher())[i]);
    }
    seqs::lemma_sort_keeps_all(kept, candidates::sooner(), p);
    let sorted = seqs::sorted_by(kept, candidates::sooner());
    assert forall|i: int| 0 <= i < candidates::top_of(list).len() implies sound_window(
        #[trigger] candidates::top_of(list)[i],
    ) by {
        assert(p(sorted[i]));
    }
}

/// No clip is longer than the cap, none starts before the game, and every
/// window ends in time.
pub proof fn lemma_clips_are_sound(
    game: GameV,
    tl: TimelineV,
    near: Seq<Seq<bool>>,
    puuid: Seq<char>,
)
    ensures
        match clips_of(game, tl, near, puuid) {
            Some((h, l)) => {
                &&& forall|i: int| 0 <= i < h.len() ==> sound_window(#[trigger] h[i])
                &&& forall|i: int| 0 <= i < l.len() ==> sound_window(#[trigger] l[i])
            },
            None => true,
        },
{
    if let Some(player) = game.player(puuid) {
        let pid = player.participant_id;
        let pteam = game::side_of(player.team_id);
        let ctx = context_of(game, player);
        let fights = candidates::clusters(tl.kills, tl.kills.len());
        lemma_fight_clips_sound(tl, near, fights, pid, pteam, ctx);
        lemma_secure_clips_sound(tl.objectives, pid, pteam, ctx);
        lemma_death_clips_sound(tl, near, tl.kills.len() as int, pid, pteam, game, ctx);
        lemma_top_sound(
            lowlights::death_clips(tl, near, tl.kills.len() as int, pid, pteam, game, ctx),
        );
        if let Some(plays) = highlights::fight_clips(tl, near, fights, pid, pteam, ctx) {
            let secures = candidates::secure_clips(tl.objectives, pid, pteam, ctx);
            let list = scored(plays + secures);
            assert forall|i: int| 0 <= i < list.len() implies sound_window((#[trigger] list[i]).1) by {
                if i < plays.len() {
                    assert(list[i].1 == plays[i]);
                } else {
                    assert(list[i].1 == secures[i - plays.len()]);
                }
            }
            lemma_top_sound(list);
        }
    }
}

proof fn lemma_side_in_time(
    game: GameV,
    tl: TimelineV,
    near: Seq<Seq<bool>>,
    names: Seq<Seq<char>>,
    highlight: bool,
)
    ensures
        all_in_time(side_clips(game, tl, near, names, highlight)),
{
    let side = side_clips(game, tl, near, names, highlight);
    assert forall|i: int, j: int| 0 <= i < side.len() && 0 <= j < side[i].1.len() implies in_time(
        #[trigger] side[i].1[j],
    ) by {
        lemma_clips_are_sound(game, tl, near, names[i]);
        assert(sound_window(side[i].1[j]));
    }
}

// --- laws of the assignment --------------------------------------------------

/// Whether two lists hold the same items.
pub open spec fn same_items(a: Seq<Seq<char>>, b: Seq<Seq<char>>) -> bool {
    forall|x: Seq<char>|
        #![trigger a.contains(x)]
        #![trigger b.contains(x)]
        a.contains(x) <==> b.contains(x)
}

/// Whether `s` is strictly increasing.
pub open spec fn increasing(s: Seq<Seq<char>>) -> bool {
    forall|i: int, j: int|
        0 <= i < j < s.len() ==> text::comes_before(#[trigger] s[i], #[trigger] s[j])
}

proof fn lemma_deduped(s: Seq<Seq<char>>)
    requires
        seqs::in_order(s, text::text_order()),
    ensures
        increasing(deduped(s)),
        same_items(deduped(s), s),
        s.len() > 0 ==> deduped(s).len() > 0 && deduped(s).last() == s.last(),
    decreases s.len(),
{
    text::lemma_text_order();
    if s.len() > 0 {
        let t = s.drop_last();
        assert(seqs::in_order(t, text::text_order())) by {
            assert forall|i: int, j: int| 0 <= i < j < t.len() implies !text::text_order()(
                #[trigger] t[j],
                #[trigger] t[i],
            ) by {
                assert(t[j] == s[j] && t[i] == s[i]);
                assert(!text::text_order()(s[j], s[i]));
            }
        }
        lemma_deduped(t);
        let d = deduped(t);
        let e = deduped(s);
        if s.len() > 1 && s.last() == s[s.len() - 2] {
            assert forall|x: Seq<char>|
                #![trigger e.contains(x)]
                #![trigger s.contains(x)]
                e.contains(x) <==> s.contains(x) by {
                if s.contains(x) {
                    let k = choose|k: int| 0 <= k < s.len() && s[k] == x;
                    if k == s.len() - 1 {
                        assert(t[s.len() - 2] == x);
                    } else {
                        assert(t[k] == x);
                    }
                    assert(t.contains(x));
                }
                if t.contains(x) {
                    let k = choose|k: int| 0 <= k < t.len() && t[k] == x;
                    assert(s[k] == x);
                }
            }
        } else {
            if t.len() > 0 {
                assert(!text::text_order()(s[s.len() - 1], s[s.len() - 2]));
                assert(t.last() == s[s.len() - 2]);
                assert(text::comes_before(t.last(), s.last()));
            }
            assert forall|i: int, j: int| 0 <= i < j < e.len() implies text::comes_before(
                #[trigger] e[i],
                #[trigger] e[j],
            ) by {
                if j < d.len() {
                    assert(e[i] == d[i] && e[j] == d[j]);
                } else {
                    assert(e[j] == s.last());
                    assert(e[i] == d[i]);
                    if i < d.len() - 1 {
                        assert(text::comes_before(d[i], d[d.len() - 1]));
                        let lt = text::text_order();
                        assert(lt(d[i], d.last()));
                        assert(lt(d[i], s.last()) || lt(s.last(), d.last()));
                    }
                }
            }
            assert forall|x: Seq<char>|
                #![trigger e.contains(x)]
                #![trigger s.contains(x)]
                e.contains(x) <==> s.contains(x) by {
                if e.contains(x) {
                    let k = choose|k: int| 0 <= k < e.len() && e[k] == x;
                    if k < d.len() {
                        assert(d[k] == x);
                        assert(d.contains(x));
                        let m = choose|m: int| 0 <= m < t.len() && t[m] == x;
                        assert(s[m] == x);
                    } else {
                        assert(s[s.len() - 1] == x);
                    }
                }
                if s.contains(x) {
                    let k = choose|k: int| 0 <= k < s.len() && s[k] == x;
                    if k < t.len() {
                        assert(t[k] == x);
                        assert(d.contains(x));
                        let m = choose|m: int| 0 <= m < d.len() && d[m] == x;
                        assert(e[m] == x);
                    } else {
                        assert(e[d.len() as int] == x);
                    }
                }
            }
        }
    }
}

proof fn lemma_increasing_is_unique(a: Seq<Seq<char>>, b: Seq<Seq<char>>)
    requires
        increasing(a),
        increasing(b),
        same_items(a, b),
    ensures
        a == b,
    decreases a.len(),
{
    text::lemma_text_order();
    let lt = text::text_order();
    if a.len() == 0 {
        if b.len() > 0 {
            assert(b.contains(b[0]));
            assert(a.contains(b[0]));
        }
        assert(a =~= b);
    } else {
        let x = a.last();
        assert(a[a.len() - 1] == x);
        assert(a.contains(x));
        assert(b.contains(x));
        let y = b.last();
        assert(b[b.len() - 1] == y);
        assert(b.contains(y));
        assert(a.contains(y));
        let i = choose|i: int| 0 <= i < a.len() && a[i] == y;
        let j = choose|j: int| 0 <= j < b.len() && b[j] == x;
        if x != y {
            assert(text::comes_before(a[i], a[a.len() - 1]));
            assert(text::comes_before(b[j], b[b.len() - 1]));
            assert(lt(y, x));
            assert(lt(x, y));
        }
        let c = a.drop_last();
        let d = b.drop_last();
        assert forall|z: Seq<char>|
            #![trigger c.contains(z)]
            #![trigger d.contains(z)]
            c.contains(z) <==> d.contains(z) by {
            if c.contains(z) {
                let k = choose|k: int| 0 <= k < c.len() && c[k] == z;
                assert(a[k] == z);
                assert(a.contains(z));
                let m = choose|m: int| 0 <= m < b.len() && b[m] == z;
                if m == b.len() - 1 {
                    assert(text::comes_before(a[k], a[a.len() - 1]));
                    assert(lt(x, x));
                }
                assert(d[m] == z);
            }
            if d.contains(z) {
                let k = choose|k: int| 0 <= k < d.len() && d[k] == z;
                assert(b[k] == z);
                assert(b.contains(z));
                let m = choose|m: int| 0 <= m < a.len() && a[m] == z;
                if m == a.len() - 1 {
                    assert(text::comes_before(b[k], b[b.len() - 1]));
                    assert(lt(y, y));
                }
                assert(c[m] == z);
            }
        }
        lemma_increasing_is_unique(c, d);
        assert(a =~= c.push(x));
        assert(b =~= d.push(y));
    }
}

pub(crate) proof fn lemma_ordered_names(watched: Seq<Seq<char>>)
    ensures
        increasing(ordered_names(watched)),
        same_items(ordered_names(watched), watched),
{
    broadcast use vstd::seq_lib::group_to_multiset_ensures;

    text::lemma_text_order();
    seqs::lemma_sort_orders(watched, text::text_order());
    seqs::lemma_sort_permutes(watched, text::text_order());
    let sorted = seqs::sorted_by(watched, text::text_order());
    lemma_deduped(sorted);
    assert forall|x: Seq<char>|
        #![trigger sorted.contains(x)]
        #![trigger watched.contains(x)]
        sorted.contains(x) <==> watched.contains(x) by {
        assert(sorted.to_multiset().count(x) > 0 <==> sorted.contains(x));
        assert(watched.to_multiset().count(x) > 0 <==> watched.contains(x));
    }
}

/// The assignment does not depend on the order in which the tracked players are
/// named, nor on whether one is named twice: whichever player's analysis runs
/// first computes the same picks.
pub proof fn lemma_picks_ignore_order(
    game: GameV,
    tl: TimelineV,
    near: Seq<Seq<bool>>,
    a: Seq<Seq<char>>,
    b: Seq<Seq<char>>,
)
    requires
        same_items(a, b),
    ensures
        joint_picks(game, tl, near, a) == joint_picks(game, tl, near, b),
{
    lemma_ordered_names(a);
    lemma_ordered_names(b);
    lemma_increasing_is_unique(ordered_names(a), ordered_names(b));
}

pub(crate) proof fn lemma_best_clip(clips: Seq<CandidateV>, claimed: Seq<(i64, i64)>, free_only: bool)
    ensures
        match best_clip(clips, claimed, free_only) {
            Some(b) => {
                &&& clips.contains(b)
                &&& free_only ==> is_free(b, claimed)
                &&& forall|i: int|
                    0 <= i < clips.len() && (free_only ==> is_free(#[trigger] clips[i], claimed))
                        ==> at_least(b, clips[i])
            },
            None => forall|i: int|
                0 <= i < clips.len() ==> free_only && !is_free(#[trigger] clips[i], claimed),
        },
    decreases clips.len(),
{
    if clips.len() > 0 {
        let t = clips.drop_last();
        lemma_best_clip(t, claimed, free_only);
        assert(clips[clips.len() - 1] == clips.last());
        if let Some(b) = best_clip(t, claimed, free_only) {
            let k = choose|k: int| 0 <= k < t.len() && t[k] == b;
            assert(clips[k] == b);
        }
        match best_clip(clips, claimed, free_only) {
            Some(b) => {
                assert forall|i: int|
                    0 <= i < clips.len() && (free_only ==> is_free(
                        #[trigger] clips[i],
                        claimed,
                    )) implies at_least(b, clips[i]) by {
                    if i < t.len() {
                        assert(t[i] == clips[i]);
                    }
                }
            },
            None => {
                assert forall|i: int| 0 <= i < clips.len() implies free_only && !is_free(
                    #[trigger] clips[i],
                    claimed,
                ) by {
                    if i < t.len() {
                        assert(t[i] == clips[i]);
                    }
                }
            },
        }
    }
}

/// Whether `c` is a fair claim on `clips` when `claimed` is taken: one of the
/// candidates; either none of them scores higher, or its window is free and it
/// is worth at least half of every one of them; and where its window is taken,
/// every candidate with a free window is worth less than half the best.
pub open spec fn fair_claim(
    clips: Seq<CandidateV>,
    claimed: Seq<(i64, i64)>,
    c: CandidateV,
) -> bool {
    &&& clips.contains(c)
    &&& {
        ||| forall|i: int| 0 <= i < clips.len() ==> (#[trigger] clips[i]).score <= c.score
        ||| is_free(c, claimed) && forall|i: int|
            0 <= i < clips.len() ==> (#[trigger] clips[i]).score <= c.score * 2
    }
    &&& !is_free(c, claimed) ==> forall|i: int|
        0 <= i < clips.len() && is_free(#[trigger] clips[i], claimed) ==> clips[i].score * 2
            < c.score
}

/// A player diverts off a claimed window exactly when a free alternative is
/// worth at least half their best, and claims something whenever they have a
/// candidate at all.
pub proof fn lemma_choice_is_fair(clips: Seq<CandidateV>, claimed: Seq<(i64, i64)>)
    ensures
        match choice_of(clips, claimed) {
            Some(c) => fair_claim(clips, claimed, c),
            None => clips.len() == 0,
        },
{
    lemma_best_clip(clips, claimed, false);
    lemma_best_clip(clips, claimed, true);
    if best_clip(clips, claimed, false) is None && clips.len() > 0 {
        assert(clips[0] == clips[0]);
    }
    if let Some(c) = choice_of(clips, claimed) {
        let any = best_clip(clips, claimed, false)->Some_0;
        if c != any {
            assert forall|i: int| 0 <= i < clips.len() implies (#[trigger] clips[i]).score
                <= c.score * 2 by {
                assert(clips[i].score <= any.score);
            }
        } else {
            assert forall|i: int| 0 <= i < clips.len() implies (#[trigger] clips[i]).score
                <= c.score by {
                assert(clips[i].score <= any.score);
            }
        }
        if !is_free(c, claimed) {
            assert forall|i: int|
                0 <= i < clips.len() && is_free(#[trigger] clips[i], claimed) implies clips[i].score
                * 2 < c.score by {
                let free = best_clip(clips, claimed, true)->Some_0;
                assert(clips[i].score <= free.score);
            }
        }
    }
}

/// The windows that some picks claim.
pub open spec fn windows(picks: Seq<(Seq<char>, CandidateV)>) -> Seq<(i64, i64)> {
    picks.map_values(|p: (Seq<char>, CandidateV)| window_of(p.1))
}

/// Whether pick `k` is somebody's fair claim after the earlier picks.
pub open spec fn fair_pick(
    players: Seq<(Seq<char>, Seq<CandidateV>)>,
    claimed: Seq<(i64, i64)>,
    picks: Seq<(Seq<char>, CandidateV)>,
    k: int,
) -> bool {
    exists|i: int|
        0 <= i < players.len() && (#[trigger] players[i]).0 == picks[k].0 && fair_claim(
            players[i].1,
            claimed + windows(picks.take(k)),
            picks[k].1,
        )
}

proof fn lemma_fair_from(players: Seq<(Seq<char>, Seq<CandidateV>)>, claimed: Seq<(i64, i64)>)
    ensures
        forall|k: int|
            0 <= k < assignment(players, claimed).len() ==> #[trigger] fair_pick(
                players,
                claimed,
                assignment(players, claimed),
                k,
            ),
    decreases players.len(),
{
    lemma_strongest_index(players, claimed);
    if let Some((i, c)) = strongest(players, claimed) {
        lemma_choice_is_fair(players[i].1, claimed);
        let rest = players.remove(i);
        let taken = claimed.push(window_of(c));
        lemma_fair_from(rest, taken);
        let later = assignment(rest, taken);
        let picks = assignment(players, claimed);
        assert(picks == seq![(players[i].0, c)] + later);
        assert forall|k: int| 0 <= k < picks.len() implies #[trigger] fair_pick(
            players,
            claimed,
            picks,
            k,
        ) by {
            if k == 0 {
                assert(claimed + windows(picks.take(0)) =~= claimed);
                assert(players[i].0 == picks[0].0);
            } else {
                assert(fair_pick(rest, taken, later, k - 1));
                let j = choose|j: int|
                    0 <= j < rest.len() && (#[trigger] rest[j]).0 == later[k - 1].0 && fair_claim(
                        rest[j].1,
                        taken + windows(later.take(k - 1)),
                        later[k - 1].1,
                    );
                let m = if j < i {
                    j
                } else {
                    j + 1
                };
                assert(players[m] == rest[j]);
                assert(picks.take(k) =~= seq![(players[i].0, c)] + later.take(k - 1));
                assert(claimed + windows(picks.take(k)) =~= taken + windows(later.take(k - 1)));
                assert(picks[k] == later[k - 1]);
            }
        }
    }
}

/// Picks spread across distinct moments: each pick is its player's fair claim
/// on what the earlier picks left.
pub proof fn lemma_picks_are_fair(players: Seq<(Seq<char>, Seq<CandidateV>)>)
    ensures
        forall|k: int|
            0 <= k < assignment(players, seq![]).len() ==> #[trigger] fair_pick(
                players,
                seq![],
                assignment(players, seq![]),
                k,
            ),
{
    lemma_fair_from(players, seq![]);
}

/// Whether no two players share a name.
pub open spec fn distinct(players: Seq<(Seq<char>, Seq<CandidateV>)>) -> bool {
    forall|i: int, j: int|
        0 <= i < j < players.len() ==> (#[trigger] players[i]).0 != (#[trigger] players[j]).0
}

proof fn lemma_pick_named_prepend(
    head: (Seq<char>, CandidateV),
    rest: Seq<(Seq<char>, CandidateV)>,
    name: Seq<char>,
)
    ensures
        pick_named(seq![head] + rest, name) == (match pick_named(rest, name) {
            Some(c) => Some(c),
            None => if head.0 == name {
                Some(head.1)
            } else {
                None
            },
        }),
    decreases rest.len(),
{
    let all = seq![head] + rest;
    if rest.len() == 0 {
        assert(all.last() == head);
        assert(all.drop_last() =~= seq![]);
        reveal_with_fuel(pick_named, 2);
    } else {
        assert(all.last() == rest.last());
        assert(all.drop_last() =~= seq![head] + rest.drop_last());
        lemma_pick_named_prepend(head, rest.drop_last(), name);
    }
}

proof fn lemma_strongest_exists(
    players: Seq<(Seq<char>, Seq<CandidateV>)>,
    claimed: Seq<(i64, i64)>,
)
    ensures
        strongest(players, claimed) is None ==> forall|i: int|
            0 <= i < players.len() ==> (#[trigger] players[i]).1.len() == 0,
    decreases players.len(),
{
    if players.len() > 0 {
        let t = players.drop_last();
        lemma_strongest_exists(t, claimed);
        lemma_choice_is_fair(players.last().1, claimed);
        if strongest(players, claimed) is None {
            assert forall|i: int| 0 <= i < players.len() implies (#[trigger] players[i]).1.len()
                == 0 by {
                if i < t.len() {
                    assert(t[i] == players[i]);
                }
            }
        }
    }
}

proof fn lemma_named_from(
    players: Seq<(Seq<char>, Seq<CandidateV>)>,
    claimed: Seq<(i64, i64)>,
    name: Seq<char>,
)
    ensures
        (forall|j: int| 0 <= j < players.len() ==> (#[trigger] players[j]).0 != name)
            ==> pick_named(assignment(players, claimed), name) is None,
    decreases players.len(),
{
    lemma_strongest_index(players, claimed);
    if let Some((i, c)) = strongest(players, claimed) {
        let rest = players.remove(i);
        let taken = claimed.push(window_of(c));
        lemma_named_from(rest, taken, name);
        lemma_pick_named_prepend((players[i].0, c), assignment(rest, taken), name);
        if forall|j: int| 0 <= j < players.len() ==> (#[trigger] players[j]).0 != name {
            assert forall|j: int| 0 <= j < rest.len() implies (#[trigger] rest[j]).0 != name by {
                assert(rest[j] == players[if j < i {
                    j
                } else {
                    j + 1
                }]);
            }
        }
    }
}

proof fn lemma_everyone_from(
    players: Seq<(Seq<char>, Seq<CandidateV>)>,
    claimed: Seq<(i64, i64)>,
)
    requires
        distinct(players),
    ensures
        forall|i: int|
            0 <= i < players.len() ==> match pick_named(
                assignment(players, claimed),
                (#[trigger] players[i]).0,
            ) {
                Some(c) => players[i].1.contains(c),
                None => players[i].1.len() == 0,
            },
    decreases players.len(),
{
    lemma_strongest_index(players, claimed);
    match strongest(players, claimed) {
        None => {
            lemma_strongest_exists(players, claimed);
        },
        Some((i, c)) => {
            let rest = players.remove(i);
            let taken = claimed.push(window_of(c));
            assert(distinct(rest)) by {
                assert forall|a: int, b: int| 0 <= a < b < rest.len() implies (
                #[trigger] rest[a]).0 != (#[trigger] rest[b]).0 by {
                    assert(rest[a] == players[if a < i {
                        a
                    } else {
                        a + 1
                    }]);
                    assert(rest[b] == players[if b < i {
                        b
                    } else {
                        b + 1
                    }]);
                }
            }
            lemma_everyone_from(rest, taken);
            lemma_choice_is_fair(players[i].1, claimed);
            let later = assignment(rest, taken);
            assert forall|j: int| 0 <= j < players.len() implies match pick_named(
                assignment(players, claimed),
                (#[trigger] players[j]).0,
            ) {
                Some(c) => players[j].1.contains(c),
                None => players[j].1.len() == 0,
            } by {
                let name = players[j].0;
                lemma_pick_named_prepend((players[i].0, c), later, name);
                if j == i {
                    assert forall|k: int| 0 <= k < rest.len() implies (#[trigger] rest[k]).0
                        != name by {
                        assert(rest[k] == players[if k < i {
                            k
                        } else {
                            k + 1
                        }]);
                    }
                    lemma_named_from(rest, taken, name);
                } else {
                    let k = if j < i {
                        j
                    } else {
                        j - 1
                    };
                    assert(rest[k] == players[j]);
                    assert(players[i].0 != name);
                }
            }
        },
    }
}

/// Everyone with a candidate gets a pick of their own, and nobody else gets one.
pub proof fn lemma_everyone_picks(players: Seq<(Seq<char>, Seq<CandidateV>)>)
    requires
        distinct(players),
    ensures
        forall|i: int|
            0 <= i < players.len() ==> match pick_named(
                assignment(players, seq![]),
                (#[trigger] players[i]).0,
            ) {
                Some(c) => players[i].1.contains(c),
                None => players[i].1.len() == 0,
            },
{
    lemma_everyone_from(players, seq![]);
}

} // verus!
