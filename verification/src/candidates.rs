//! Clip candidates: the player's best and worst moments of a game, each an
//! exact-timestamp anchor with a grounded score and a one-line summary.

use std::collections::HashSet;
use std::ops::Range;
use vstd::prelude::*;
use vstd::string::*;

use crate::seqs::{sort, Order};
use crate::text::same;
use crate::timeline::{
    other_team, team_of_participant, KillEv, KillV, Monster, Objective, ObjectiveV, Timeline, TimelineV,
};
use crate::{scan, seqs, text, timeline};

verus! {

broadcast use vstd::std_specs::hash::group_hash_axioms;

/// A new kill more than this long after the previous one starts a new fight.
pub const FIGHT_GAP_MS: i64 = 20_000;

/// An objective within this long after a fight's last kill counts as converted.
pub const CONVERSION_WINDOW_MS: i64 = 90_000;

/// A death is "traded" if an allied kill lands from this long before it to
/// `TRADE_AFTER_MS` after it, close to the death.
pub const TRADE_BEFORE_MS: i64 = 3_000;

pub const TRADE_AFTER_MS: i64 = 10_000;

/// A shutdown at or above this much gold vouches for a carry the running
/// scoreline understates (gold leads show up in bounties before kills do).
pub const PRIORITY_SHUTDOWN_GOLD: i64 = 300;

/// A victim must threaten at least this much (role + form) to read as a
/// priority target; routine kills stay unscored however well they convert.
pub const PRIORITY_THREAT_BAR: i64 = 5;

/// Seconds of lead-in before the play and tail after it, and the hard cap on a
/// clip's length (keeps the transcode under Discord's 10MB attachment limit).
pub const CLIP_LEAD_S: i64 = 7;

pub const CLIP_TAIL_S: i64 = 6;

pub const CLIP_MAX_S: i64 = 32;

/// A fight or death this close to the game's end decided it.
pub const CLOSING_WINDOW_MS: i64 = 90_000;

/// A candidate clip moment: an exact game-time anchor plus a grounded
/// one-liner. `seek_s`/`dur_s` describe the video window to record so the
/// whole play fits.
#[derive(Debug)]
pub struct Candidate {
    pub t_ms: i64,
    /// Game-second the clip should start at (lead-in already included).
    pub seek_s: i64,
    /// Clip length in seconds — sized to the fight span, capped.
    pub dur_s: i64,
    pub summary: String,
    /// The grounded score the pick maximizes.
    pub score: i64,
}

/// The mathematical value of a [`Candidate`].
pub struct CandidateV {
    pub t_ms: i64,
    pub seek_s: i64,
    pub dur_s: i64,
    pub summary: Seq<char>,
    pub score: i64,
}

impl View for Candidate {
    type V = CandidateV;

    open spec fn view(&self) -> CandidateV {
        CandidateV {
            t_ms: self.t_ms,
            seek_s: self.seek_s,
            dur_s: self.dur_s,
            summary: self.summary@,
            score: self.score,
        }
    }
}

impl Clone for Candidate {
    fn clone(&self) -> (r: Candidate)
        ensures
            r == *self,
    {
        Candidate {
            t_ms: self.t_ms,
            seek_s: self.seek_s,
            dur_s: self.dur_s,
            summary: self.summary.clone(),
            score: self.score,
        }
    }
}

/// Whether a number is a 64-bit integer.
pub open spec fn fits(n: int) -> bool {
    i64::MIN <= n <= i64::MAX
}

// --- the board ---------------------------------------------------------------

/// Per-player scoring context beyond the timeline itself.
pub struct ScoreContext {
    /// Seconds the player's CC held enemies.
    pub cc_seconds: i64,
    /// Game end in timeline milliseconds (the closing-fight bonus window).
    pub end_ms: i128,
    /// Enemy participants as `(participant_id, role_weight, role_label)` —
    /// the board the priority-pick scorer reads victims off.
    pub enemy_roles: Vec<(i32, i64, &'static str)>,
    /// Every participant's number and team — who stands on which side.
    pub roster: Vec<(i32, i32)>,
}

/// The mathematical value of a [`ScoreContext`].
pub struct ScoreV {
    pub cc_seconds: i64,
    pub end_ms: int,
    pub enemy_roles: Seq<(i32, i64, Seq<char>)>,
    pub roster: Seq<(i32, i32)>,
}

impl View for ScoreContext {
    type V = ScoreV;

    open spec fn view(&self) -> ScoreV {
        ScoreV {
            cc_seconds: self.cc_seconds,
            end_ms: self.end_ms as int,
            enemy_roles: scan::views(self.enemy_roles@),
            roster: self.roster@,
        }
    }
}

/// The weight and label of a role.
pub open spec fn role_of(team_position: Seq<char>) -> (i64, Seq<char>) {
    if team_position == "BOTTOM"@ {
        (4, "ADC"@)
    } else if team_position == "MIDDLE"@ {
        (3, "mid laner"@)
    } else if team_position == "JUNGLE"@ {
        (3, "jungler"@)
    } else if team_position == "TOP"@ {
        (2, "top laner"@)
    } else if team_position == "UTILITY"@ {
        (1, "support"@)
    } else {
        (2, "carry"@)
    }
}

/// How much of the enemy's game plan dies with each role — the chess-piece
/// weights. The ADC is the queen, mid the rook, jungler the knight (who also
/// holds the smite), top the bishop, support the pawn screening them.
pub fn role_weight(team_position: &str) -> (r: (i64, &'static str))
    ensures
        (r.0, r.1@) == role_of(team_position@),
{
    if same(team_position, "BOTTOM") {
        (4, "ADC")
    } else if same(team_position, "MIDDLE") {
        (3, "mid laner")
    } else if same(team_position, "JUNGLE") {
        (3, "jungler")
    } else if same(team_position, "TOP") {
        (2, "top laner")
    } else if same(team_position, "UTILITY") {
        (1, "support")
    } else {
        (2, "carry")
    }
}

// --- kills, one at a time ----------------------------------------------------

pub open spec fn killed_by(id: i32) -> spec_fn(KillV) -> bool {
    |k: KillV| k.killer == id
}

pub open spec fn assisted_by(id: i32) -> spec_fn(KillV) -> bool {
    |k: KillV| k.assists.contains(id)
}

pub open spec fn death_of(id: i32) -> spec_fn(KillV) -> bool {
    |k: KillV| k.victim == id
}

pub open spec fn kill_by_team(team: i32) -> spec_fn(KillV) -> bool {
    |k: KillV| k.killer_team == team
}

/// Whether `id` is among a list of participants.
pub fn holds_id(v: &Vec<i32>, id: i32) -> (r: bool)
    ensures
        r == v@.contains(id),
{
    for i in 0..v.len()
        invariant
            forall|j: int| 0 <= j < i ==> v@[j] != id,
    {
        if v[i] == id {
            return true;
        }
    }
    false
}

/// Whether kill number `a` lies within the trade radius of the place that
/// `near` describes. A kill it does not cover is far away.
pub open spec fn close(near: Seq<bool>, a: int) -> bool {
    0 <= a < near.len() && near[a]
}

/// Whether `team` answered a death at time `t`: a kill of theirs close to it in
/// time and space.
pub open spec fn answered(kills: Seq<KillV>, team: i32, t: int, near: Seq<bool>) -> bool {
    exists|a: int|
        #![trigger kills[a]]
        0 <= a < kills.len() && kills[a].killer_team == team && t - TRADE_BEFORE_MS <= kills[a].t
            <= t + TRADE_AFTER_MS && close(near, a)
}

/// Whether `team` answered a death at time `t`.
pub fn was_answered(kills: &Vec<KillEv>, team: i32, t: i64, near: &Vec<bool>) -> (r: bool)
    ensures
        r == answered(scan::views(kills@), team, t as int, near@),
{
    let ghost all = scan::views(kills@);
    for a in 0..kills.len()
        invariant
            all == scan::views(kills@),
            forall|b: int|
                #![trigger all[b]]
                0 <= b < a ==> !(all[b].killer_team == team && t - TRADE_BEFORE_MS <= all[b].t <= t
                    + TRADE_AFTER_MS && close(near@, b)),
    {
        let at: i128 = kills[a].t as i128;
        proof {
            assert(all[a as int] == kills@[a as int]@);
        }
        if kills[a].killer_team == team && at >= t as i128 - TRADE_BEFORE_MS as i128 && at <= t
            as i128 + TRADE_AFTER_MS as i128 && a < near.len() && near[a] {
            return true;
        }
    }
    false
}

// --- priority picks ----------------------------------------------------------

/// A qualifying priority pick: what the victim was worth, whether their team
/// answered, and the objective the pick was cashed into.
#[derive(Debug)]
pub struct PriorityPick {
    /// Role weight + form, already at or above [`PRIORITY_THREAT_BAR`].
    pub threat: i128,
    /// Their team never answered the death — a clean catch, not a brawl.
    pub caught_out: bool,
    /// Caption noun for the victim, e.g. "fed ADC".
    pub who: String,
    /// The objective the team cashed the pick into.
    pub label: String,
}

/// The mathematical value of a [`PriorityPick`].
pub struct PickV {
    pub threat: int,
    pub caught_out: bool,
    pub who: Seq<char>,
    pub label: Seq<char>,
}

impl View for PriorityPick {
    type V = PickV;

    open spec fn view(&self) -> PickV {
        PickV {
            threat: self.threat as int,
            caught_out: self.caught_out,
            who: self.who@,
            label: self.label@,
        }
    }
}

/// The value of an optional pick.
pub open spec fn pick_view(p: Option<PriorityPick>) -> Option<PickV> {
    match p {
        Some(p) => Some(p@),
        None => None,
    }
}

pub open spec fn role_entry(id: i32) -> spec_fn((i32, i64, Seq<char>)) -> bool {
    |e: (i32, i64, Seq<char>)| e.0 == id
}

/// Whether a kill came before `t` and satisfies `p`.
pub open spec fn earlier(t: i64, p: spec_fn(KillV) -> bool) -> spec_fn(KillV) -> bool {
    |k: KillV| k.t < t && p(k)
}

/// A player's running net scoreline before time `t`: kills and half the
/// assists, less the deaths.
pub open spec fn net_score(kills: Seq<KillV>, id: i32, t: i64) -> int {
    seqs::count_where(kills, earlier(t, killed_by(id))) + seqs::count_where(
        kills,
        earlier(t, assisted_by(id)),
    ) as int / 2 - seqs::count_where(kills, earlier(t, death_of(id)))
}

/// A victim's form: their net scoreline, with a live shutdown bounty vouching
/// for a gold lead it understates.
pub open spec fn form_of(net: int, shutdown: i64) -> int {
    let form: int = if net >= 6 {
        4
    } else if net >= 4 {
        3
    } else if net >= 2 {
        2
    } else if net == 1 {
        1
    } else {
        0
    };
    if shutdown >= PRIORITY_SHUTDOWN_GOLD && form < 2 {
        2
    } else {
        form
    }
}

/// Whether an objective cashes in a kill at time `t`: a major one, by the same
/// team, within the conversion window.
pub open spec fn cashes(team: i32, t: i64) -> spec_fn(ObjectiveV) -> bool {
    |o: ObjectiveV| o.team == team && o.monster.major() && t <= o.t <= t + CONVERSION_WINDOW_MS
}

/// The priority pick that a kill was, if it was one.
pub open spec fn pick_of(
    k: KillV,
    near: Seq<bool>,
    tl: TimelineV,
    pteam: i32,
    ctx: ScoreV,
) -> Option<PickV> {
    match seqs::first_where(ctx.enemy_roles, role_entry(k.victim)) {
        None => None,
        Some(i) => {
            let label = ctx.enemy_roles[i].2;
            let net = net_score(tl.kills, k.victim, k.t);
            let threat = ctx.enemy_roles[i].1 + form_of(net, k.shutdown);
            if threat < PRIORITY_THREAT_BAR {
                None
            } else {
                match seqs::first_where(tl.objectives, cashes(pteam, k.t)) {
                    None => None,
                    Some(j) => Some(
                        PickV {
                            threat,
                            caught_out: !answered(
                                tl.kills,
                                timeline::opponent(pteam as int),
                                k.t as int,
                                near,
                            ),
                            who: if net >= 4 || k.shutdown >= PRIORITY_SHUTDOWN_GOLD {
                                "fed "@ + label
                            } else {
                                label
                            },
                            label: tl.objectives[j].label,
                        },
                    ),
                }
            }
        },
    }
}

/// The best of two picks; the later one of equals.
pub open spec fn better_pick(a: Option<PickV>, b: Option<PickV>) -> Option<PickV> {
    match (a, b) {
        (a, None) => a,
        (None, b) => b,
        (Some(x), Some(y)) => if y.threat >= x.threat {
            b
        } else {
            a
        },
    }
}

/// The best priority pick among some kills, the last one of equals. `near[i]`
/// describes the place of `pkills[i]`.
pub open spec fn best_pick(
    pkills: Seq<KillV>,
    near: Seq<Seq<bool>>,
    tl: TimelineV,
    pteam: i32,
    ctx: ScoreV,
) -> Option<PickV>
    decreases pkills.len(),
{
    if pkills.len() == 0 {
        None
    } else {
        let row = if near.len() >= pkills.len() {
            near[pkills.len() - 1]
        } else {
            seq![]
        };
        better_pick(
            best_pick(pkills.drop_last(), near, tl, pteam, ctx),
            pick_of(pkills.last(), row, tl, pteam, ctx),
        )
    }
}

/// A pick threatens no more than its role weight and four for its form.
pub proof fn lemma_threat_bound(
    pkills: Seq<KillV>,
    near: Seq<Seq<bool>>,
    tl: TimelineV,
    pteam: i32,
    ctx: ScoreV,
)
    ensures
        match best_pick(pkills, near, tl, pteam, ctx) {
            Some(p) => PRIORITY_THREAT_BAR <= p.threat <= i64::MAX + 4,
            None => true,
        },
    decreases pkills.len(),
{
    if pkills.len() > 0 {
        lemma_threat_bound(pkills.drop_last(), near, tl, pteam, ctx);
    }
}

fn count_before(kills: &Vec<KillEv>, t: i64, what: Part, id: i32) -> (r: usize)
    ensures
        r == seqs::count_where(scan::views(kills@), earlier(t, what.of(id))),
{
    let f = |k: &KillEv| -> (b: bool)
        ensures
            b == earlier(t, what.of(id))(k@),
        { k.t < t && what.taken(k, id) };
    proof {
        assert(scan::views(kills@).subrange(0, kills@.len() as int) =~= scan::views(kills@));
    }
    scan::count(kills, 0, kills.len(), f, Ghost(earlier(t, what.of(id))))
}

/// The part a participant can have in a kill.
#[derive(Clone, Copy)]
pub enum Part {
    Killer,
    Assistant,
    Victim,
}

impl Part {
    pub open spec fn of(self, id: i32) -> spec_fn(KillV) -> bool {
        match self {
            Part::Killer => killed_by(id),
            Part::Assistant => assisted_by(id),
            Part::Victim => death_of(id),
        }
    }

    fn taken(&self, k: &KillEv, id: i32) -> (r: bool)
        ensures
            r == self.of(id)(k@),
    {
        match self {
            Part::Killer => k.killer == id,
            Part::Assistant => holds_id(&k.assists, id),
            Part::Victim => k.victim == id,
        }
    }
}

fn pick_for(
    k: &KillEv,
    near: &Vec<bool>,
    tl: &Timeline,
    pteam: i32,
    ctx: &ScoreContext,
) -> (r: Option<PriorityPick>)
    ensures
        pick_view(r) == pick_of(k@, near@, tl@, pteam, ctx@),
{
    let victim: i32 = k.victim;
    let find_role = |e: &(i32, i64, &'static str)| -> (b: bool)
        ensures
            b == role_entry(victim)(e@),
        { e.0 == victim };
    let i: usize = match scan::find(&ctx.enemy_roles, find_role, Ghost(role_entry(victim))) {
        Some(i) => i,
        None => {
            return None;
        },
    };
    let role: i64 = ctx.enemy_roles[i].1;
    let label: &'static str = ctx.enemy_roles[i].2;
    proof {
        assert(ctx@.enemy_roles[i as int] == (ctx.enemy_roles@[i as int])@);
    }
    let net: i128 = count_before(&tl.kills, k.t, Part::Killer, victim) as i128 + (count_before(
        &tl.kills,
        k.t,
        Part::Assistant,
        victim,
    ) / 2) as i128 - count_before(&tl.kills, k.t, Part::Victim, victim) as i128;
    let form: i128 = if net >= 6 {
        4
    } else if net >= 4 {
        3
    } else if net >= 2 {
        2
    } else if net == 1 {
        1
    } else {
        0
    };
    let form: i128 = if k.shutdown >= PRIORITY_SHUTDOWN_GOLD && form < 2 {
        2
    } else {
        form
    };
    let threat: i128 = role as i128 + form;
    if threat < PRIORITY_THREAT_BAR as i128 {
        return None;
    }
    let t: i64 = k.t;
    let find_take = |o: &Objective| -> (b: bool)
        ensures
            b == cashes(pteam, t)(o@),
        {
            o.team == pteam && o.monster.is_major() && o.t >= t && o.t as i128 <= t as i128
                + CONVERSION_WINDOW_MS as i128
        };
    match scan::find(&tl.objectives, find_take, Ghost(cashes(pteam, t))) {
        None => None,
        Some(j) => {
            let who: String = if net >= 4 || k.shutdown >= PRIORITY_SHUTDOWN_GOLD {
                "fed ".to_string().concat(label)
            } else {
                label.to_string()
            };
            proof {
                assert(tl@.objectives[j as int] == tl.objectives@[j as int]@);
            }
            Some(
                PriorityPick {
                    threat,
                    caught_out: !was_answered(&tl.kills, other_team(pteam as i64), t, near),
                    who,
                    label: tl.objectives[j].label.clone(),
                },
            )
        },
    }
}

/// The player's best priority pick among `pkills`, if any: a kill whose victim
/// mattered — by role (the chess-piece weight) and by form (their running
/// net scoreline at that moment, with a live shutdown bounty vouching for a
/// gold lead the scoreline understates) — that the team cashed into a major
/// objective within the conversion window. Team-level on purpose: the pick
/// opened the take whether or not the player walked to the pit (presence
/// there is the separate participation bonus). `near[i]` says which kills of
/// the timeline lie within the trade radius of `pkills[i]`.
pub fn priority_pick(
    pkills: &Vec<&KillEv>,
    near: &Vec<&Vec<bool>>,
    tl: &Timeline,
    pteam: i32,
    ctx: &ScoreContext,
) -> (r: Option<PriorityPick>)
    ensures
        pick_view(r) == best_pick(
            scan::views(pkills@),
            scan::views(near@),
            tl@,
            pteam,
            ctx@,
        ),
{
    let nowhere: Vec<bool> = Vec::new();
    let ghost all = scan::views(pkills@);
    let ghost rows = scan::views(near@);
    let mut best: Option<PriorityPick> = None;
    for i in 0..pkills.len()
        invariant
            nowhere@ == Seq::<bool>::empty(),
            all == scan::views(pkills@),
            rows == scan::views(near@),
            pick_view(best) == best_pick(all.take(i as int), rows, tl@, pteam, ctx@),
    {
        proof {
            assert(all.take(i + 1).drop_last() =~= all.take(i as int));
            assert(all.take(i + 1).last() == pkills@[i as int]@);
        }
        let row: &Vec<bool> = if i < near.len() {
            near[i]
        } else {
            &nowhere
        };
        if let Some(p) = pick_for(pkills[i], row, tl, pteam, ctx) {
            let wins: bool = match &best {
                Some(b) => p.threat >= b.threat,
                None => true,
            };
            if wins {
                best = Some(p);
            }
        }
    }
    proof {
        assert(all.take(all.len() as int) =~= all);
    }
    best
}

// --- fights ------------------------------------------------------------------

/// The fights among the first `n` kills, as ranges of indices: a gap of more
/// than [`FIGHT_GAP_MS`] between two kills separates them.
pub open spec fn clusters(kills: Seq<KillV>, n: nat) -> Seq<(int, int)>
    decreases n,
{
    if n == 0 {
        seq![]
    } else if n == 1 {
        seq![(0int, 1int)]
    } else {
        let before = clusters(kills, (n - 1) as nat);
        if kills[n - 1].t - kills[n - 2].t > FIGHT_GAP_MS {
            before.push((n - 1, n as int))
        } else {
            before.drop_last().push((before.last().0, n as int))
        }
    }
}

/// Whether a list of ranges cuts `0..n` into adjacent, nonempty pieces.
pub open spec fn partitions(pieces: Seq<(int, int)>, n: int) -> bool {
    &&& n > 0 ==> pieces.len() > 0 && pieces[0].0 == 0 && pieces.last().1 == n
    &&& n == 0 ==> pieces.len() == 0
    &&& forall|i: int|
        #![trigger pieces[i]]
        0 <= i < pieces.len() ==> 0 <= pieces[i].0 < pieces[i].1 <= n
    &&& forall|i: int, j: int|
        #![trigger pieces[i], pieces[j]]
        0 <= i && j == i + 1 && j < pieces.len() ==> pieces[i].1 == pieces[j].0
}

/// Every kill belongs to exactly one fight: the fights cut the kill list into
/// adjacent, nonempty pieces.
pub proof fn lemma_fights_partition(kills: Seq<KillV>, n: nat)
    ensures
        partitions(clusters(kills, n), n as int),
    decreases n,
{
    if n > 1 {
        lemma_fights_partition(kills, (n - 1) as nat);
        let before = clusters(kills, (n - 1) as nat);
        assert(before.len() > 0);
        assert(before.last() == before[before.len() - 1]);
    }
}

/// The time between a kill and the one before it.
pub open spec fn gap(kills: Seq<KillV>, k: int) -> int {
    kills[k].t - kills[k - 1].t
}

/// Inside a fight no kill comes more than the gap after the one before it, and
/// the first kill of a later fight does.
pub proof fn lemma_fights_gaps(kills: Seq<KillV>, n: nat)
    ensures
        forall|i: int, k: int|
            #![trigger clusters(kills, n)[i], gap(kills, k)]
            0 <= i < clusters(kills, n).len() && clusters(kills, n)[i].0 < k < clusters(
                kills,
                n,
            )[i].1 ==> gap(kills, k) <= FIGHT_GAP_MS,
        forall|i: int|
            #![trigger clusters(kills, n)[i]]
            0 < i < clusters(kills, n).len() ==> gap(kills, clusters(kills, n)[i].0) > FIGHT_GAP_MS,
    decreases n,
{
    if n > 1 {
        lemma_fights_gaps(kills, (n - 1) as nat);
        lemma_fights_partition(kills, (n - 1) as nat);
        let before = clusters(kills, (n - 1) as nat);
        let now = clusters(kills, n);
        assert(before.len() > 0);
        assert(before.last() == before[before.len() - 1]);
        assert forall|i: int, k: int|
            #![trigger now[i], gap(kills, k)]
            0 <= i < now.len() && now[i].0 < k < now[i].1 implies gap(kills, k)
            <= FIGHT_GAP_MS by {
            if i < before.len() {
                assert(before[i].0 == now[i].0);
            }
        }
        assert forall|i: int| #![trigger now[i]] 0 < i < now.len() implies gap(kills, now[i].0)
            > FIGHT_GAP_MS by {
            if i < before.len() {
                assert(before[i].0 == now[i].0);
            }
        }
    }
}

/// The bounds of a list of ranges.
pub open spec fn bounds(v: Seq<Range<usize>>) -> Seq<(int, int)> {
    v.map_values(|r: Range<usize>| (r.start as int, r.end as int))
}

/// Groups kills the way fights cluster (by the shared time gap), returning
/// index ranges into the kill list.
pub fn cluster_kill_indices(kills: &Vec<KillEv>) -> (r: Vec<Range<usize>>)
    ensures
        bounds(r@) == clusters(scan::views(kills@), kills@.len()),
{
    let mut out: Vec<Range<usize>> = Vec::new();
    let n: usize = kills.len();
    proof {
        assert(bounds(out@) =~= seq![]);
    }
    if n == 0 {
        return out;
    }
    let ghost all = scan::views(kills@);
    let mut start: usize = 0;
    let mut i: usize = 1;
    while i < n
        invariant
            n == kills@.len(),
            all == scan::views(kills@),
            0 <= start < i <= n,
            bounds(out@).push((start as int, i as int)) =~= clusters(all, i as nat),
        decreases n - i,
    {
        proof {
            assert(all[i as int] == kills@[i as int]@);
            assert(all[i - 1] == kills@[i - 1]@);
        }
        let ghost before = out@;
        let ghost was = start;
        if kills[i].t as i128 - kills[i - 1].t as i128 > FIGHT_GAP_MS as i128 {
            out.push(start..i);
            start = i;
            proof {
                assert(bounds(out@) =~= bounds(before).push((was as int, i as int)));
            }
        } else {
            proof {
                assert(bounds(out@).push((start as int, i as int)).drop_last() =~= bounds(out@));
            }
        }
        i = i + 1;
    }
    let ghost before = out@;
    out.push(start..n);
    proof {
        assert(bounds(out@) =~= bounds(before).push((start as int, n as int)));
    }
    out
}

/// Everyone who appears in a fight's kill events: killer, victim, or assist.
pub open spec fn everyone(fight: Seq<KillV>) -> Set<i32>
    decreases fight.len(),
{
    if fight.len() == 0 {
        Set::empty()
    } else {
        let before = everyone(fight.drop_last());
        let k = fight.last();
        let killers = if k.killer > 0 {
            before.insert(k.killer)
        } else {
            before
        };
        let assisted = killers.union(k.assists.to_set());
        if k.victim > 0 {
            assisted.insert(k.victim)
        } else {
            assisted
        }
    }
}

/// Whether a participant stands on the player's side, by the team they play
/// for, or on the other one.
pub open spec fn on_side(roster: Seq<(i32, i32)>, pteam: i32, allied: bool) -> spec_fn(i32) -> bool {
    |id: i32| (timeline::roster_team(roster, id as i64) == pteam) == allied
}

/// The distinct participants of one side appearing in a fight's kill events:
/// the player's side, or the other one. Each stands with the team they play
/// for, whoever killed them.
pub open spec fn crowd(
    fight: Seq<KillV>,
    roster: Seq<(i32, i32)>,
    pteam: i32,
    allied: bool,
) -> Set<i32> {
    everyone(fight).filter(on_side(roster, pteam, allied))
}

/// Nobody stands on both sides of a fight, and everyone in it stands on one.
pub proof fn lemma_sides_are_apart(fight: Seq<KillV>, roster: Seq<(i32, i32)>, pteam: i32)
    ensures
        crowd(fight, roster, pteam, true).disjoint(crowd(fight, roster, pteam, false)),
        crowd(fight, roster, pteam, true).union(crowd(fight, roster, pteam, false)) == everyone(
            fight,
        ),
{
    assert(crowd(fight, roster, pteam, true).union(crowd(fight, roster, pteam, false))
        =~= everyone(fight));
}

/// Puts a participant among those of their own side.
fn add_one(
    allies: &mut HashSet<i32>,
    enemies: &mut HashSet<i32>,
    id: i32,
    roster: &Vec<(i32, i32)>,
    pteam: i32,
    Ghost(crowd): Ghost<Set<i32>>,
)
    requires
        old(allies)@ == crowd.filter(on_side(roster@, pteam, true)),
        old(enemies)@ == crowd.filter(on_side(roster@, pteam, false)),
    ensures
        final(allies)@ == crowd.insert(id).filter(on_side(roster@, pteam, true)),
        final(enemies)@ == crowd.insert(id).filter(on_side(roster@, pteam, false)),
{
    if team_of_participant(roster, id as i64) == pteam {
        allies.insert(id);
    } else {
        enemies.insert(id);
    }
    proof {
        assert(allies@ =~= crowd.insert(id).filter(on_side(roster@, pteam, true)));
        assert(enemies@ =~= crowd.insert(id).filter(on_side(roster@, pteam, false)));
    }
}

proof fn lemma_set_of_push(s: Seq<i32>, x: i32)
    ensures
        s.push(x).to_set() == s.to_set().insert(x),
{
    let longer = s.push(x);
    assert forall|y: i32| s.to_set().insert(x).contains(y) implies longer.contains(y) by {
        if y == x {
            assert(longer[s.len() as int] == y);
        } else {
            let j = choose|j: int| 0 <= j < s.len() && s[j] == y;
            assert(longer[j] == y);
        }
    }
    assert(longer.to_set() =~= s.to_set().insert(x));
}

/// Distinct participants of each side appearing in a fight's kill events
/// (killer, victim, or assist) — the grounded proxy for the fight's odds; the
/// timeline carries no positions for champions who dealt no kill-relevant
/// action, so uninvolved bystanders don't count. The fight is
/// `kills[from..to]`.
pub fn fight_headcount(
    kills: &Vec<KillEv>,
    from: usize,
    to: usize,
    roster: &Vec<(i32, i32)>,
    pteam: i32,
) -> (r: (usize, usize))
    requires
        from <= to <= kills@.len(),
    ensures
        r.0 == crowd(
            scan::views(kills@).subrange(from as int, to as int),
            roster@,
            pteam,
            true,
        ).len(),
        r.1 == crowd(
            scan::views(kills@).subrange(from as int, to as int),
            roster@,
            pteam,
            false,
        ).len(),
{
    let ghost fight = scan::views(kills@).subrange(from as int, to as int);
    let mut allies: HashSet<i32> = HashSet::new();
    let mut enemies: HashSet<i32> = HashSet::new();
    proof {
        assert(allies@ =~= crowd(fight.take(0), roster@, pteam, true));
        assert(enemies@ =~= crowd(fight.take(0), roster@, pteam, false));
    }
    for i in from..to
        invariant
            from <= to <= kills@.len(),
            fight == scan::views(kills@).subrange(from as int, to as int),
            allies@ == crowd(fight.take(i - from), roster@, pteam, true),
            enemies@ == crowd(fight.take(i - from), roster@, pteam, false),
    {
        let k: &KillEv = &kills[i];
        let ghost mut seen = everyone(fight.take(i - from));
        proof {
            assert(fight.take(i - from + 1).drop_last() =~= fight.take(i - from));
            assert(fight.take(i - from + 1).last() == k@);
        }
        if k.killer > 0 {
            add_one(&mut allies, &mut enemies, k.killer, roster, pteam, Ghost(seen));
            proof {
                seen = seen.insert(k.killer);
            }
        }
        let ghost killers = seen;
        proof {
            assert(killers.union(k.assists@.take(0).to_set()) =~= killers);
        }
        for j in 0..k.assists.len()
            invariant
                seen == killers.union(k.assists@.take(j as int).to_set()),
                allies@ == seen.filter(on_side(roster@, pteam, true)),
                enemies@ == seen.filter(on_side(roster@, pteam, false)),
        {
            add_one(&mut allies, &mut enemies, k.assists[j], roster, pteam, Ghost(seen));
            proof {
                let id = k.assists@[j as int];
                assert(k.assists@.take(j + 1) =~= k.assists@.take(j as int).push(id));
                lemma_set_of_push(k.assists@.take(j as int), id);
                assert(seen.insert(id) =~= killers.union(k.assists@.take(j + 1).to_set()));
                seen = seen.insert(id);
            }
        }
        proof {
            assert(k.assists@.take(k.assists@.len() as int) =~= k.assists@);
        }
        if k.victim > 0 {
            add_one(&mut allies, &mut enemies, k.victim, roster, pteam, Ghost(seen));
            proof {
                seen = seen.insert(k.victim);
            }
        }
        proof {
            assert(seen == everyone(fight.take(i - from + 1)));
        }
    }
    proof {
        assert(fight.take(to - from) =~= fight);
    }
    (allies.len(), enemies.len())
}

// --- objectives --------------------------------------------------------------

/// The tail of an objective's clip, in seconds.
pub const SECURE_TAIL_S: i64 = 13;

/// The base score of a monster.
pub open spec fn monster_score(o: ObjectiveV) -> int {
    match o.monster {
        Monster::Baron => 8,
        Monster::Dragon => if o.elder {
            9
        } else {
            4
        },
        _ => 4,
    }
}

/// Whether few allies were credited with the take besides the player: it reads
/// as a steal or a solo secure.
pub open spec fn barely_contested(o: ObjectiveV, pid: i32, pteam: i32) -> bool {
    seqs::count_where(o.participants, fellow(pid, o.team == pteam)) <= 1
}

/// Whether a participant of a take is another player of the player's team,
/// `ours` saying that the take was the team's.
pub open spec fn fellow(pid: i32, ours: bool) -> spec_fn(i32) -> bool {
    |p: i32| p != pid && ours
}

/// The candidate that a secured objective makes.
pub open spec fn secure_clip(o: ObjectiveV, pid: i32, pteam: i32, ctx: ScoreV) -> CandidateV {
    let contested = barely_contested(o, pid, pteam);
    let closing = o.t >= ctx.end_ms - CLOSING_WINDOW_MS;
    let seek = text::tdiv(o.t as int, 1000) - CLIP_LEAD_S;
    let score = monster_score(o) + (if contested {
        6int
    } else {
        0
    }) + text::tdiv(o.t as int, 600_000) + (if closing {
        6int
    } else {
        0
    });
    CandidateV {
        t_ms: o.t,
        seek_s: (if seek > 0 {
            seek
        } else {
            0
        }) as i64,
        dur_s: (CLIP_LEAD_S + SECURE_TAIL_S) as i64,
        summary: "you secured "@ + o.label + " ("@ + (if contested {
            "your smite, barely contested — a steal or solo secure"@
        } else {
            "your killing blow"@
        }) + ")"@ + (if closing {
            "; the closing take"@
        } else {
            ""@
        }),
        score: score as i64,
    }
}

/// The candidates of the objectives that the player secured themself.
pub open spec fn secure_clips(
    objectives: Seq<ObjectiveV>,
    pid: i32,
    pteam: i32,
    ctx: ScoreV,
) -> Seq<CandidateV>
    decreases objectives.len(),
{
    if objectives.len() == 0 {
        seq![]
    } else {
        let before = secure_clips(objectives.drop_last(), pid, pteam, ctx);
        let o = objectives.last();
        if o.killer == pid && o.monster.major() {
            before.push(secure_clip(o, pid, pteam, ctx))
        } else {
            before
        }
    }
}

fn secure_candidate(o: &Objective, pid: i32, pteam: i32, ctx: &ScoreContext) -> (r: Candidate)
    ensures
        r@ == secure_clip(o@, pid, pteam, ctx@),
{
    let ours: bool = o.team == pteam;
    let helper = |q: &i32| -> (b: bool)
        ensures
            b == fellow(pid, ours)(q@),
        { *q != pid && ours };
    proof {
        assert(scan::views(o.participants@).subrange(0, o.participants@.len() as int)
            =~= o.participants@);
    }
    let contested: bool = scan::count(
        &o.participants,
        0,
        o.participants.len(),
        helper,
        Ghost(fellow(pid, ours)),
    ) <= 1;
    let closing: bool = o.t as i128 + CLOSING_WINDOW_MS as i128 >= ctx.end_ms;
    let base: i64 = match o.monster {
        Monster::Baron => 8,
        Monster::Dragon => if o.elder {
            9
        } else {
            4
        },
        _ => 4,
    };
    let secure: i64 = if contested {
        6
    } else {
        0
    };
    let close: i64 = if closing {
        6
    } else {
        0
    };
    let how: &str = if contested {
        "your smite, barely contested — a steal or solo secure"
    } else {
        "your killing blow"
    };
    let end: &str = if closing {
        "; the closing take"
    } else {
        ""
    };
    let seek: i64 = o.t / 1000 - CLIP_LEAD_S;
    Candidate {
        t_ms: o.t,
        seek_s: if seek > 0 {
            seek
        } else {
            0
        },
        dur_s: CLIP_LEAD_S + SECURE_TAIL_S,
        summary: "you secured ".to_string().concat(o.label.as_str()).concat(" (").concat(
            how,
        ).concat(")").concat(end),
        score: base + secure + o.t / 600_000 + close,
    }
}

/// Objective secures by the player's own killing blow (the smite): Baron,
/// Elder, drakes, Herald — the plays a kill-cluster scorer can never see.
/// Few allied assists on a major monster reads as a steal-or-solo-secure.
pub fn objective_candidates(tl: &Timeline, pid: i32, pteam: i32, ctx: &ScoreContext) -> (r: Vec<
    Candidate,
>)
    ensures
        scan::views(r@) == secure_clips(tl@.objectives, pid, pteam, ctx@),
{
    let ghost all = tl@.objectives;
    let mut out: Vec<Candidate> = Vec::new();
    proof {
        assert(scan::views(out@) =~= seq![]);
    }
    for i in 0..tl.objectives.len()
        invariant
            all == tl@.objectives,
            scan::views(out@) == secure_clips(all.take(i as int), pid, pteam, ctx@),
    {
        let o: &Objective = &tl.objectives[i];
        proof {
            assert(all.take(i + 1).drop_last() =~= all.take(i as int));
            assert(all.take(i + 1).last() == o@);
        }
        if o.killer == pid && o.monster.is_major() {
            let c: Candidate = secure_candidate(o, pid, pteam, ctx);
            let ghost before = out@;
            out.push(c);
            proof {
                assert(scan::views(out@) =~= scan::views(before).push(c@));
            }
        }
    }
    proof {
        assert(all.take(all.len() as int) =~= all);
    }
    out
}

// --- ranking -----------------------------------------------------------------

/// How many candidates of each kind to surface.
pub const MAX_CANDIDATES: usize = 3;

pub open spec fn higher() -> spec_fn((i64, CandidateV), (i64, CandidateV)) -> bool {
    |a: (i64, CandidateV), b: (i64, CandidateV)| a.0 > b.0
}

pub open spec fn sooner() -> spec_fn((i64, CandidateV), (i64, CandidateV)) -> bool {
    |a: (i64, CandidateV), b: (i64, CandidateV)| a.1.t_ms < b.1.t_ms
}

/// The best few of a scored list, earlier entries first among equals.
pub open spec fn best_of(scored: Seq<(i64, CandidateV)>) -> Seq<(i64, CandidateV)> {
    let ranked = seqs::sorted_by(scored, higher());
    if ranked.len() > MAX_CANDIDATES {
        ranked.take(MAX_CANDIDATES as int)
    } else {
        ranked
    }
}

/// The best few of a scored list, in chronological order.
pub open spec fn top_of(scored: Seq<(i64, CandidateV)>) -> Seq<CandidateV> {
    seqs::sorted_by(best_of(scored), sooner()).map_values(|e: (i64, CandidateV)| e.1)
}

/// A player gets at most [`MAX_CANDIDATES`] candidates of each kind, in
/// chronological order, and none that was left out scored higher than one that
/// was kept.
pub proof fn lemma_top_candidates(scored: Seq<(i64, CandidateV)>)
    ensures
        top_of(scored).len() <= MAX_CANDIDATES,
        forall|i: int, j: int|
            0 <= i < j < top_of(scored).len() ==> (#[trigger] top_of(scored)[i]).t_ms <= (
            #[trigger] top_of(scored)[j]).t_ms,
        forall|i: int, j: int|
            0 <= i < best_of(scored).len() <= j < scored.len() ==> (#[trigger] best_of(scored)[i]).0
                >= (#[trigger] seqs::sorted_by(scored, higher())[j]).0,
{
    seqs::lemma_sorted_len(scored, higher());
    seqs::lemma_sort_orders(scored, higher());
    let kept = best_of(scored);
    seqs::lemma_sorted_len(kept, sooner());
    seqs::lemma_sort_orders(kept, sooner());
    let ranked = seqs::sorted_by(scored, higher());
    let sorted = seqs::sorted_by(kept, sooner());
    assert forall|i: int, j: int| 0 <= i < j < top_of(scored).len() implies (#[trigger] top_of(
        scored,
    )[i]).t_ms <= (#[trigger] top_of(scored)[j]).t_ms by {
        assert(!sooner()(sorted[j], sorted[i]));
    }
    assert forall|i: int, j: int| 0 <= i < kept.len() <= j < scored.len() implies (
    #[trigger] kept[i]).0 >= (#[trigger] ranked[j]).0 by {
        assert(kept[i] == ranked[i]);
        assert(!higher()(ranked[j], ranked[i]));
    }
}

struct ByScore;

struct ByTime;

impl Order<(i64, Candidate)> for ByScore {
    open spec fn lt(a: (i64, Candidate), b: (i64, Candidate)) -> bool {
        a.0 > b.0
    }

    fn before(a: &(i64, Candidate), b: &(i64, Candidate)) -> (r: bool) {
        a.0 > b.0
    }
}

impl Order<(i64, Candidate)> for ByTime {
    open spec fn lt(a: (i64, Candidate), b: (i64, Candidate)) -> bool {
        a.1.t_ms < b.1.t_ms
    }

    fn before(a: &(i64, Candidate), b: &(i64, Candidate)) -> (r: bool) {
        a.1.t_ms < b.1.t_ms
    }
}

/// Sorts `(score, candidate)` pairs descending and keeps the top few, in
/// chronological order so the list reads naturally.
pub fn top_candidates(scored: Vec<(i64, Candidate)>) -> (r: Vec<Candidate>)
    ensures
        scan::views(r@) == top_of(scan::views(scored@)),
{
    proof {
        seqs::lemma_sorted_map(
            scored@,
            |x: (i64, Candidate)| x@,
            |a: (i64, Candidate), b: (i64, Candidate)| ByScore::lt(a, b),
            higher(),
        );
    }
    let ghost all = scan::views(scored@);
    let mut ranked: Vec<(i64, Candidate)> = sort::<(i64, Candidate), ByScore>(scored);
    let ghost sorted = ranked@;
    if ranked.len() > MAX_CANDIDATES {
        ranked.truncate(MAX_CANDIDATES);
        proof {
            assert(scan::views(ranked@) =~= scan::views(sorted).take(MAX_CANDIDATES as int));
        }
    }
    proof {
        assert(scan::views(ranked@) == best_of(all));
        seqs::lemma_sorted_map(
            ranked@,
            |x: (i64, Candidate)| x@,
            |a: (i64, Candidate), b: (i64, Candidate)| ByTime::lt(a, b),
            sooner(),
        );
    }
    let mut rest: Vec<(i64, Candidate)> = sort::<(i64, Candidate), ByTime>(ranked);
    let ghost ordered = rest@;
    let mut out: Vec<Candidate> = Vec::new();
    while rest.len() > 0
        invariant
            rest@.len() + out@.len() == ordered.len(),
            rest@ == ordered.skip(out@.len() as int),
            scan::views(out@) =~= ordered.take(out@.len() as int).map_values(
                |x: (i64, Candidate)| x.1@,
            ),
        decreases rest@.len(),
    {
        let ghost k = out@.len() as int;
        let ghost before = out@;
        let (_, c) = rest.remove(0);
        out.push(c);
        proof {
            assert(c == ordered[k].1);
            assert(out@ =~= before.push(c));
            assert(scan::views(out@) =~= scan::views(before).push(c@));
            assert(ordered.take(k + 1) =~= ordered.take(k).push(ordered[k]));
        }
    }
    proof {
        assert(ordered.take(ordered.len() as int) =~= ordered);
        assert(scan::views(out@) =~= top_of(all));
    }
    out
}

} // verus!
