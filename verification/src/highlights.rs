//! The player's best plays: fights they were central to, scored on
//! kills/assists, kill gold, multikills, survival, and whether an objective
//! followed.

use std::ops::Range;
use vstd::prelude::*;
use vstd::string::*;

use crate::candidates::{
    cluster_kill_indices, fight_headcount, holds_id, priority_pick, Candidate, CandidateV, PickV,
    PriorityPick, ScoreContext, ScoreV, CLIP_LEAD_S, CLIP_MAX_S, CLIP_TAIL_S, CLOSING_WINDOW_MS,
    CONVERSION_WINDOW_MS,
};
use crate::text::{decimal, natural};
use crate::timeline::{
    expected_hp, KillEv, KillV, Objective, ObjectiveV, Special, Timeline, TimelineV,
};
use crate::{candidates, scan, seqs, text, timeline};

verus! {

/// After a fight ends, the player must survive this long for it to read as a
/// clean "walked away" highlight.
pub const SURVIVE_AFTER_MS: i64 = 8_000;

/// How far outside a fight's kills a multikill or first-blood event may be
/// stamped and still belong to it.
pub const STAMP_SLACK_MS: i64 = 1_000;

/// The name of a multikill.
pub open spec fn multi_text(len: int) -> Seq<char> {
    if len == 2 {
        "double kill"@
    } else if len == 3 {
        "triple kill"@
    } else if len == 4 {
        "quadra kill"@
    } else if len >= 5 {
        "pentakill"@
    } else {
        "multikill"@
    }
}

pub fn multi_name(len: i64) -> (r: &'static str)
    ensures
        r@ == multi_text(len as int),
{
    if len == 2 {
        "double kill"
    } else if len == 3 {
        "triple kill"
    } else if len == 4 {
        "quadra kill"
    } else if len >= 5 {
        "pentakill"
    } else {
        "multikill"
    }
}

/// What a fight was for one player: everything its score and its summary are
/// made of.
pub struct FightStory {
    pub start: i64,
    pub kills: usize,
    pub deaths: usize,
    pub assists: usize,
    pub gold: i64,
    /// The longest multikill of the player's in the fight, 0 without one.
    pub multi: i64,
    pub survived: bool,
    /// The objective the player helped take out of the fight.
    pub objective: Option<String>,
    pub solo: usize,
    /// How close the hardest duel was, in percent of the HP yardstick.
    pub closeness: i128,
    /// Kills with assists where the player did nearly all the damage anyway.
    pub carried: usize,
    pub pick: Option<PriorityPick>,
    pub allies: usize,
    pub enemies: usize,
    pub team_kills: usize,
    pub cc_seconds: i64,
    pub first_blood: bool,
    pub closing: bool,
}

/// The mathematical value of a [`FightStory`].
pub struct StoryV {
    pub start: int,
    pub kills: int,
    pub deaths: int,
    pub assists: int,
    pub gold: int,
    pub multi: int,
    pub survived: bool,
    pub objective: Option<Seq<char>>,
    pub solo: int,
    pub closeness: int,
    pub carried: int,
    pub pick: Option<PickV>,
    pub allies: int,
    pub enemies: int,
    pub team_kills: int,
    pub cc_seconds: int,
    pub first_blood: bool,
    pub closing: bool,
}

impl View for FightStory {
    type V = StoryV;

    open spec fn view(&self) -> StoryV {
        StoryV {
            start: self.start as int,
            kills: self.kills as int,
            deaths: self.deaths as int,
            assists: self.assists as int,
            gold: self.gold as int,
            multi: self.multi as int,
            survived: self.survived,
            objective: match self.objective {
                Some(s) => Some(s@),
                None => None,
            },
            solo: self.solo as int,
            closeness: self.closeness as int,
            carried: self.carried as int,
            pick: candidates::pick_view(self.pick),
            allies: self.allies as int,
            enemies: self.enemies as int,
            team_kills: self.team_kills as int,
            cc_seconds: self.cc_seconds as int,
            first_blood: self.first_blood,
            closing: self.closing,
        }
    }
}

// --- reading a fight ---------------------------------------------------------

/// The kill gold of some kills, added up front to back; nothing where an
/// addition does not fit.
pub open spec fn gold_of(pkills: Seq<KillV>) -> Option<i64>
    decreases pkills.len(),
{
    if pkills.len() == 0 {
        Some(0)
    } else {
        timeline::plus(
            gold_of(pkills.drop_last()),
            timeline::plus(Some(pkills.last().bounty), Some(pkills.last().shutdown)),
        )
    }
}

pub open spec fn unassisted() -> spec_fn(KillV) -> bool {
    |k: KillV| k.assists.len() == 0
}

/// Whether a shared kill was carried: at least 85% of the victim's damage came
/// from the killer.
pub open spec fn carried_kill() -> spec_fn(KillV) -> bool {
    |k: KillV|
        k.assists.len() != 0 && k.received_all > 0 && k.received_killer * 20 >= k.received_all * 17
}

/// How much damage the victim pumped back into the killer before dying, in
/// percent of the HP yardstick.
pub open spec fn duel_pct() -> spec_fn(KillV) -> int {
    |k: KillV|
        text::tdiv(
            k.fought_back * 100,
            if timeline::hp_curve(k.t as int) > 1 {
                timeline::hp_curve(k.t as int)
            } else {
                1
            },
        )
}

pub open spec fn multi_in(pid: i32, start: i64, end: i64) -> spec_fn(Special) -> bool {
    |s: Special| s.killer == pid && start - STAMP_SLACK_MS <= s.t <= end + STAMP_SLACK_MS
}

pub open spec fn multi_len() -> spec_fn(Special) -> int {
    |s: Special| s.len as int
}

/// Whether a kill is the player's death shortly after a fight ended.
pub open spec fn died_after(pid: i32, end: i64) -> spec_fn(KillV) -> bool {
    |k: KillV| k.victim == pid && end < k.t <= end + SURVIVE_AFTER_MS
}

/// Whether an objective is one that the player helped their team take out of a
/// fight.
pub open spec fn took_part(pid: i32, pteam: i32, start: i64, end: i64) -> spec_fn(
    ObjectiveV,
) -> bool {
    |o: ObjectiveV|
        o.team == pteam && o.participants.contains(pid) && start <= o.t <= end
            + CONVERSION_WINDOW_MS
}

pub open spec fn involved(pid: i32) -> spec_fn(KillV) -> bool {
    |k: KillV| k.killer == pid || k.assists.contains(pid)
}

/// Row `i` of a table, empty outside it.
pub open spec fn row(near: Seq<Seq<bool>>, i: int) -> Seq<bool> {
    if 0 <= i < near.len() {
        near[i]
    } else {
        seq![]
    }
}

/// The rows of `near` that belong to the kills of `pid` in `kills[from..to]`.
pub open spec fn rows_of(
    kills: Seq<KillV>,
    near: Seq<Seq<bool>>,
    from: int,
    to: int,
    pid: i32,
) -> Seq<Seq<bool>>
    decreases to - from,
{
    if to <= from {
        seq![]
    } else if kills[to - 1].killer == pid {
        rows_of(kills, near, from, to - 1, pid).push(row(near, to - 1))
    } else {
        rows_of(kills, near, from, to - 1, pid)
    }
}

/// What the fight `tl.kills[from..to]` was for the player.
pub open spec fn story(
    tl: TimelineV,
    near: Seq<Seq<bool>>,
    from: int,
    to: int,
    pid: i32,
    pteam: i32,
    ctx: ScoreV,
) -> StoryV {
    let fight = tl.kills.subrange(from, to);
    let start = fight[0].t;
    let end = fight[fight.len() - 1].t;
    let pkills = seqs::keep(fight, candidates::killed_by(pid));
    StoryV {
        start: start as int,
        kills: pkills.len() as int,
        deaths: seqs::count_where(fight, candidates::death_of(pid)) as int,
        assists: seqs::count_where(fight, candidates::assisted_by(pid)) as int,
        gold: match gold_of(pkills) {
            Some(g) => g as int,
            None => 0,
        },
        multi: match seqs::max_of(
            seqs::keep(tl.specials, multi_in(pid, start, end)),
            multi_len(),
        ) {
            Some(n) => n,
            None => 0,
        },
        survived: !seqs::any(fight, candidates::death_of(pid)) && !seqs::any(
            tl.kills,
            died_after(pid, end),
        ),
        objective: match seqs::first_where(tl.objectives, took_part(pid, pteam, start, end)) {
            Some(i) => Some(tl.objectives[i].label),
            None => None,
        },
        solo: seqs::count_where(pkills, unassisted()) as int,
        closeness: match seqs::max_of(pkills, duel_pct()) {
            Some(n) => n,
            None => 0,
        },
        carried: seqs::count_where(pkills, carried_kill()) as int,
        pick: candidates::best_pick(pkills, rows_of(tl.kills, near, from, to, pid), tl, pteam, ctx),
        allies: candidates::crowd(fight, ctx.roster, pteam, true).len() as int,
        enemies: candidates::crowd(fight, ctx.roster, pteam, false).len() as int,
        team_kills: seqs::count_where(fight, candidates::kill_by_team(pteam)) as int,
        cc_seconds: ctx.cc_seconds as int,
        first_blood: match tl.first_blood {
            Some((t, killer)) => killer == pid && start - STAMP_SLACK_MS <= t <= end
                + STAMP_SLACK_MS,
            None => false,
        },
        closing: end >= ctx.end_ms - CLOSING_WINDOW_MS,
    }
}

/// The player's kills of a fight, with their rows of `near`.
fn own_kills<'a>(
    tl: &'a Timeline,
    near: &'a Vec<Vec<bool>>,
    nowhere: &'a Vec<bool>,
    from: usize,
    to: usize,
    pid: i32,
) -> (r: (Vec<&'a KillEv>, Vec<&'a Vec<bool>>))
    requires
        from <= to <= tl.kills@.len(),
        nowhere@ == Seq::<bool>::empty(),
    ensures
        scan::views(r.0@) == seqs::keep(
            tl@.kills.subrange(from as int, to as int),
            candidates::killed_by(pid),
        ),
        scan::views(r.1@) == rows_of(tl@.kills, scan::views(near@), from as int, to as int, pid),
{
    let ghost fight = tl@.kills.subrange(from as int, to as int);
    let ghost p = candidates::killed_by(pid);
    let mut own: Vec<&'a KillEv> = Vec::new();
    let mut rows: Vec<&'a Vec<bool>> = Vec::new();
    proof {
        assert(scan::views(own@) =~= seq![]);
        assert(scan::views(rows@) =~= seq![]);
    }
    for i in from..to
        invariant
            from <= to <= tl.kills@.len(),
            nowhere@ == Seq::<bool>::empty(),
            fight == tl@.kills.subrange(from as int, to as int),
            p == candidates::killed_by(pid),
            scan::views(own@) == seqs::keep(fight.take(i - from), p),
            scan::views(rows@) == rows_of(
                tl@.kills,
                scan::views(near@),
                from as int,
                i as int,
                pid,
            ),
    {
        let k: &'a KillEv = &tl.kills[i];
        proof {
            assert(fight.take(i - from + 1).drop_last() =~= fight.take(i - from));
            assert(fight.take(i - from + 1).last() == k@);
        }
        if k.killer == pid {
            let ghost before = own@;
            let ghost rows_before = rows@;
            own.push(k);
            let here: &'a Vec<bool> = if i < near.len() {
                &near[i]
            } else {
                nowhere
            };
            rows.push(here);
            proof {
                assert(scan::views(own@) =~= scan::views(before).push(k@));
                assert(here@ == row(scan::views(near@), i as int));
                assert(scan::views(rows@) =~= scan::views(rows_before).push(here@));
            }
        }
    }
    proof {
        assert(fight.take(to - from) =~= fight);
    }
    (own, rows)
}

fn sum_gold(pkills: &Vec<&KillEv>) -> (r: Option<i64>)
    ensures
        r == gold_of(scan::views(pkills@)),
{
    let ghost all = scan::views(pkills@);
    let mut sum: i64 = 0;
    for i in 0..pkills.len()
        invariant
            all == scan::views(pkills@),
            gold_of(all.take(i as int)) == Some(sum),
    {
        proof {
            assert(all.take(i + 1).drop_last() =~= all.take(i as int));
            assert(all.take(i + 1).last() == pkills@[i as int]@);
        }
        let next: Option<i64> = match pkills[i].bounty.checked_add(pkills[i].shutdown) {
            Some(n) => sum.checked_add(n),
            None => None,
        };
        match next {
            Some(n) => {
                sum = n;
            },
            None => {
                proof {
                    lemma_gold_stops(all, i + 1);
                }
                return None;
            },
        }
    }
    proof {
        assert(all.take(all.len() as int) =~= all);
    }
    Some(sum)
}

proof fn lemma_gold_stops(pkills: Seq<KillV>, k: int)
    requires
        0 <= k <= pkills.len(),
        gold_of(pkills.take(k)) is None,
    ensures
        gold_of(pkills) is None,
    decreases pkills.len() - k,
{
    if k == pkills.len() {
        assert(pkills.take(k) =~= pkills);
    } else {
        assert(pkills.take(k + 1).drop_last() =~= pkills.take(k));
        lemma_gold_stops(pkills, k + 1);
    }
}

fn hardest_duel(pkills: &Vec<&KillEv>) -> (r: i128)
    ensures
        r == (match seqs::max_of(scan::views(pkills@), duel_pct()) {
            Some(n) => n,
            None => 0,
        }),
{
    let ghost all = scan::views(pkills@);
    let mut best: Option<i128> = None;
    for i in 0..pkills.len()
        invariant
            all == scan::views(pkills@),
            match best {
                Some(m) => seqs::max_of(all.take(i as int), duel_pct()) == Some(m as int),
                None => seqs::max_of(all.take(i as int), duel_pct()) is None,
            },
    {
        proof {
            assert(all.take(i + 1).drop_last() =~= all.take(i as int));
            assert(all.take(i + 1).last() == pkills@[i as int]@);
        }
        let hp: i64 = expected_hp(pkills[i].t);
        let bar: i128 = if hp > 1 {
            hp as i128
        } else {
            1
        };
        let back: i128 = pkills[i].fought_back as i128 * 100;
        let pct: i128 = back / bar;
        best = match best {
            Some(m) => if pct > m {
                Some(pct)
            } else {
                Some(m)
            },
            None => Some(pct),
        };
    }
    proof {
        assert(all.take(all.len() as int) =~= all);
    }
    match best {
        Some(m) => m,
        None => 0,
    }
}

/// Reads a fight from the player's side, `pkills` being their kills and `rows`
/// the rows of `near` that belong to them.
fn read_fight(
    tl: &Timeline,
    near: &Vec<Vec<bool>>,
    from: usize,
    to: usize,
    pid: i32,
    pteam: i32,
    ctx: &ScoreContext,
    pkills: &Vec<&KillEv>,
    rows: &Vec<&Vec<bool>>,
    gold: i64,
) -> (r: FightStory)
    requires
        from < to <= tl.kills@.len(),
        scan::views(pkills@) == seqs::keep(
            tl@.kills.subrange(from as int, to as int),
            candidates::killed_by(pid),
        ),
        scan::views(rows@) == rows_of(
            tl@.kills,
            scan::views(near@),
            from as int,
            to as int,
            pid,
        ),
        gold_of(scan::views(pkills@)) == Some(gold),
    ensures
        r@ == story(tl@, scan::views(near@), from as int, to as int, pid, pteam, ctx@),
        match r.pick {
            Some(p) => 0 <= p.threat <= 0x1_0000_0000_0000_0000,
            None => true,
        },
{
    let ghost fight = tl@.kills.subrange(from as int, to as int);
    let start: i64 = tl.kills[from].t;
    let end: i64 = tl.kills[to - 1].t;
    let n: usize = tl.kills.len();
    proof {
        assert(fight[0] == tl.kills@[from as int]@);
        assert(fight[fight.len() - 1] == tl.kills@[to - 1]@);
        assert(tl@.kills.subrange(0, n as int) =~= tl@.kills);
        assert(scan::views(tl.specials@).subrange(0, tl.specials@.len() as int) =~= tl@.specials);
        assert(scan::views(pkills@).subrange(0, pkills@.len() as int) =~= scan::views(pkills@));
    }

    let dies = |k: &KillEv| -> (b: bool)
        ensures
            b == candidates::death_of(pid)(k@),
        { k.victim == pid };
    let deaths: usize = scan::count(
        &tl.kills,
        from,
        to,
        dies,
        Ghost(candidates::death_of(pid)),
    );
    let helps = |k: &KillEv| -> (b: bool)
        ensures
            b == candidates::assisted_by(pid)(k@),
        { holds_id(&k.assists, pid) };
    let assists: usize = scan::count(
        &tl.kills,
        from,
        to,
        helps,
        Ghost(candidates::assisted_by(pid)),
    );
    let stamped = |s: &Special| -> (b: bool)
        ensures
            b == multi_in(pid, start, end)(s@),
        {
            s.killer == pid && s.t as i128 >= start as i128 - STAMP_SLACK_MS as i128 && s.t as i128
                <= end as i128 + STAMP_SLACK_MS as i128
        };
    let length = |s: &Special| -> (m: i64)
        ensures
            m == multi_len()(s@),
        { s.len };
    let multi: i64 = match scan::max(
        &tl.specials,
        0,
        tl.specials.len(),
        stamped,
        length,
        Ghost(multi_in(pid, start, end)),
        Ghost(multi_len()),
    ) {
        Some(m) => m,
        None => 0,
    };
    // Survived if not a victim during the fight, nor shortly after it.
    let dies_soon = |k: &KillEv| -> (b: bool)
        ensures
            b == died_after(pid, end)(k@),
        { k.victim == pid && k.t > end && k.t as i128 <= end as i128 + SURVIVE_AFTER_MS as i128 };
    let survived: bool = !scan::any(&tl.kills, from, to, dies, Ghost(candidates::death_of(pid)))
        && !scan::any(&tl.kills, 0, n, dies_soon, Ghost(died_after(pid, end)));
    let takes = |o: &Objective| -> (b: bool)
        ensures
            b == took_part(pid, pteam, start, end)(o@),
        {
            o.team == pteam && holds_id(&o.participants, pid) && o.t >= start && o.t as i128
                <= end as i128 + CONVERSION_WINDOW_MS as i128
        };
    let objective: Option<String> = match scan::find(
        &tl.objectives,
        takes,
        Ghost(took_part(pid, pteam, start, end)),
    ) {
        Some(i) => Some(tl.objectives[i].label.clone()),
        None => None,
    };
    let alone = |k: &&KillEv| -> (b: bool)
        ensures
            b == unassisted()(k@),
        { k.assists.len() == 0 };
    let solo: usize = scan::count(pkills, 0, pkills.len(), alone, Ghost(unassisted()));
    let carries = |k: &&KillEv| -> (b: bool)
        ensures
            b == carried_kill()(k@),
        {
            k.assists.len() != 0 && k.received_all > 0 && k.received_killer as i128 * 20
                >= k.received_all as i128 * 17
        };
    let carried: usize = scan::count(pkills, 0, pkills.len(), carries, Ghost(carried_kill()));
    let allied = |k: &KillEv| -> (b: bool)
        ensures
            b == candidates::kill_by_team(pteam)(k@),
        { k.killer_team == pteam };
    let team_kills: usize = scan::count(
        &tl.kills,
        from,
        to,
        allied,
        Ghost(candidates::kill_by_team(pteam)),
    );
    let (allies, enemies) = fight_headcount(&tl.kills, from, to, &ctx.roster, pteam);
    let first_blood: bool = match tl.first_blood {
        Some((t, killer)) => killer == pid && t as i128 >= start as i128 - STAMP_SLACK_MS as i128
            && t as i128 <= end as i128 + STAMP_SLACK_MS as i128,
        None => false,
    };
    let pick: Option<PriorityPick> = priority_pick(pkills, rows, tl, pteam, ctx);
    proof {
        candidates::lemma_threat_bound(
            scan::views(pkills@),
            scan::views(rows@),
            tl@,
            pteam,
            ctx@,
        );
    }
    FightStory {
        start,
        kills: pkills.len(),
        deaths,
        assists,
        gold,
        multi,
        survived,
        objective,
        solo,
        closeness: hardest_duel(pkills),
        carried,
        pick,
        allies,
        enemies,
        team_kills,
        cc_seconds: ctx.cc_seconds,
        first_blood,
        closing: end as i128 + CLOSING_WINDOW_MS as i128 >= ctx.end_ms,
    }
}

// --- scoring and telling -----------------------------------------------------

/// What a priority pick adds to a fight's score: a pick on a priority target
/// that the team turned into a major objective is the play that decided the
/// map — worth more the more the victim was worth, and more again when they
/// were caught out clean rather than felled in a brawl.
pub open spec fn pick_score(pick: Option<PickV>) -> int {
    match pick {
        Some(p) => {
            let worth = p.threat + if p.caught_out {
                2int
            } else {
                0int
            };
            if worth < 9 {
                worth
            } else {
                9
            }
        },
        None => 0,
    }
}

fn pick_worth(pick: &Option<PriorityPick>) -> (r: i128)
    requires
        match pick {
            Some(p) => 0 <= p.threat <= 0x1_0000_0000_0000_0000,
            None => true,
        },
    ensures
        r == pick_score(candidates::pick_view(*pick)),
        0 <= r <= 9,
{
    match pick {
        Some(p) => {
            let worth: i128 = if p.caught_out {
                p.threat + 2
            } else {
                p.threat
            };
            if worth < 9 {
                worth
            } else {
                9
            }
        },
        None => 0,
    }
}

/// The part of a score that the scoreline makes: kills, assists, gold,
/// multikills, survival, and the objective that followed.
pub open spec fn scoreline_score(s: StoryV) -> int {
    s.kills * 3 + s.assists + text::tdiv(s.gold, 100) + (if s.multi >= 2 {
        s.multi * 4
    } else {
        0
    }) + (if s.survived {
        2int
    } else {
        0
    }) - s.deaths * 2 + (if s.objective is Some {
        3int
    } else {
        0
    })
}

fn score_scoreline(s: &FightStory) -> (r: i128)
    ensures
        r == scoreline_score(s@),
        -0x10_0000_0000_0000_0000 <= r <= 0x10_0000_0000_0000_0000,
{
    let multi: i128 = if s.multi >= 2 {
        s.multi as i128 * 4
    } else {
        0
    };
    let survived: i128 = if s.survived {
        2
    } else {
        0
    };
    let objective: i128 = if s.objective.is_some() {
        3
    } else {
        0
    };
    s.kills as i128 * 3 + s.assists as i128 + (s.gold / 100) as i128 + multi + survived - s.deaths
        as i128 * 2 + objective
}

/// The part of a score that the feats in a fight make. Solo kills read better
/// on video than shared cleanup; a kill where the victim nearly killed the
/// player back is a clutch duel; outnumbered fights are the outplays worth
/// watching.
pub open spec fn feat_score(s: StoryV) -> int {
    s.solo * 3 + (if s.closeness >= 90 {
        6int
    } else if s.closeness >= 60 {
        4
    } else {
        0
    }) + (if s.carried * 2 < 4 {
        s.carried * 2
    } else {
        4
    }) + pick_score(s.pick) + (if s.enemies > s.allies {
        if (s.enemies - s.allies) * 4 < 8 {
            (s.enemies - s.allies) * 4
        } else {
            8
        }
    } else {
        0
    })
}

fn score_feats(s: &FightStory) -> (r: i128)
    requires
        match s.pick {
            Some(p) => 0 <= p.threat <= 0x1_0000_0000_0000_0000,
            None => true,
        },
    ensures
        r == feat_score(s@),
        0 <= r <= 0x10_0000_0000_0000_0000,
{
    let duel: i128 = if s.closeness >= 90 {
        6
    } else if s.closeness >= 60 {
        4
    } else {
        0
    };
    let carried: i128 = if s.carried < 2 {
        s.carried as i128 * 2
    } else {
        4
    };
    let odds: i128 = if s.enemies > s.allies {
        if s.enemies - s.allies < 2 {
            4
        } else {
            8
        }
    } else {
        0
    };
    s.solo as i128 * 3 + duel + carried + pick_worth(&s.pick) + odds
}

/// The part of a score that the stage of the fight makes. A fight at 30
/// minutes decides more than the same fight at 8, and the closing fight decided
/// the game. Assists count double when the player ran the fight — most of the
/// team's kills bear their mark — or when their CC held enemies long enough to
/// read as the engage/peel archetype.
pub open spec fn stage_score(s: StoryV) -> int {
    text::tdiv(s.start, 600_000) + (if (s.assists >= 2 && s.assists * 2 >= s.team_kills)
        || s.cc_seconds >= 30 {
        s.assists
    } else {
        0
    }) + (if s.first_blood {
        3int
    } else {
        0
    }) + (if s.closing {
        6int
    } else {
        0
    })
}

fn score_stage(s: &FightStory) -> (r: i128)
    ensures
        r == stage_score(s@),
        -0x10_0000_0000_0000_0000 <= r <= 0x10_0000_0000_0000_0000,
{
    let assists: i128 = s.assists as i128;
    let playmaker: i128 = if (s.assists >= 2 && assists * 2 >= s.team_kills as i128)
        || s.cc_seconds >= 30 {
        assists
    } else {
        0
    };
    let first_blood: i128 = if s.first_blood {
        3
    } else {
        0
    };
    let closing: i128 = if s.closing {
        6
    } else {
        0
    };
    (s.start / 600_000) as i128 + playmaker + first_blood + closing
}

/// The score of a fight.
pub open spec fn story_score(s: StoryV) -> int {
    scoreline_score(s) + feat_score(s) + stage_score(s)
}

fn score_of(s: &FightStory) -> (r: i128)
    requires
        match s.pick {
            Some(p) => 0 <= p.threat <= 0x1_0000_0000_0000_0000,
            None => true,
        },
    ensures
        r == story_score(s@),
{
    score_scoreline(s) + score_feats(s) + score_stage(s)
}

/// The summary of a fight.
pub open spec fn story_text(s: StoryV) -> Seq<char> {
    "you went "@ + text::dec(s.kills) + "/"@ + text::dec(s.deaths) + "/"@ + text::dec(s.assists)
        + " in a fight"@ + multi_part(s) + solo_part(s) + duel_part(s) + carry_part(s) + pick_part(
        s,
    ) + odds_part(s) + first_blood_part(s) + survival_part(s) + objective_part(s) + closing_part(s)
        + " (+"@ + text::dec(s.gold) + "g)"@
}

pub open spec fn multi_part(s: StoryV) -> Seq<char> {
    if s.multi >= 2 {
        ", a "@ + multi_text(s.multi)
    } else {
        ""@
    }
}

pub open spec fn solo_part(s: StoryV) -> Seq<char> {
    if s.solo == 0 {
        ""@
    } else if s.solo == 1 {
        ", incl. a solo kill"@
    } else {
        ", incl. "@ + text::dec(s.solo) + " solo kills"@
    }
}

pub open spec fn duel_part(s: StoryV) -> Seq<char> {
    if s.closeness >= 90 {
        ", won a near-lethal duel"@
    } else if s.closeness >= 60 {
        ", won a hard-fought duel"@
    } else {
        ""@
    }
}

pub open spec fn carry_part(s: StoryV) -> Seq<char> {
    if s.carried > 0 {
        ", did nearly all the damage"@
    } else {
        ""@
    }
}

/// When the player was also at the take, the objective is already named —
/// don't say it twice.
pub open spec fn pick_part(s: StoryV) -> Seq<char> {
    match s.pick {
        Some(p) => {
            let opener = if p.caught_out {
                ", caught their "@ + p.who + " out"@
            } else {
                ", picked off their "@ + p.who
            };
            if s.objective is Some {
                opener
            } else {
                opener + " — the team cashed it into "@ + p.label
            }
        },
        None => ""@,
    }
}

pub open spec fn odds_part(s: StoryV) -> Seq<char> {
    if s.enemies > s.allies {
        ", outnumbered "@ + text::dec(s.allies) + "v"@ + text::dec(s.enemies)
    } else {
        ""@
    }
}

pub open spec fn first_blood_part(s: StoryV) -> Seq<char> {
    if s.first_blood {
        ", first blood"@
    } else {
        ""@
    }
}

pub open spec fn survival_part(s: StoryV) -> Seq<char> {
    if s.survived {
        ", walked away"@
    } else if s.deaths > 0 {
        ", but died in it"@
    } else {
        ""@
    }
}

pub open spec fn objective_part(s: StoryV) -> Seq<char> {
    match s.objective {
        Some(label) => "; "@ + label + " followed"@,
        None => ""@,
    }
}

pub open spec fn closing_part(s: StoryV) -> Seq<char> {
    if s.closing {
        "; the closing fight"@
    } else {
        ""@
    }
}

fn tell_multi(s: &FightStory) -> (r: String)
    ensures
        r@ == multi_part(s@),
{
    if s.multi >= 2 {
        ", a ".to_string().concat(multi_name(s.multi))
    } else {
        "".to_string()
    }
}

fn tell_solo(s: &FightStory) -> (r: String)
    ensures
        r@ == solo_part(s@),
{
    if s.solo == 0 {
        "".to_string()
    } else if s.solo == 1 {
        ", incl. a solo kill".to_string()
    } else {
        ", incl. ".to_string().concat(natural(s.solo as u128).as_str()).concat(" solo kills")
    }
}

fn tell_pick(s: &FightStory) -> (r: String)
    ensures
        r@ == pick_part(s@),
{
    match &s.pick {
        Some(p) => {
            let opener: String = if p.caught_out {
                ", caught their ".to_string().concat(p.who.as_str()).concat(" out")
            } else {
                ", picked off their ".to_string().concat(p.who.as_str())
            };
            if s.objective.is_some() {
                opener
            } else {
                opener.concat(" — the team cashed it into ").concat(p.label.as_str())
            }
        },
        None => "".to_string(),
    }
}

fn tell_odds(s: &FightStory) -> (r: String)
    ensures
        r@ == odds_part(s@),
{
    if s.enemies > s.allies {
        ", outnumbered ".to_string().concat(natural(s.allies as u128).as_str()).concat("v").concat(
            natural(s.enemies as u128).as_str(),
        )
    } else {
        "".to_string()
    }
}

fn tell_objective(s: &FightStory) -> (r: String)
    ensures
        r@ == objective_part(s@),
{
    match &s.objective {
        Some(label) => "; ".to_string().concat(label.as_str()).concat(" followed"),
        None => "".to_string(),
    }
}

fn tell(s: &FightStory) -> (r: String)
    ensures
        r@ == story_text(s@),
{
    let duel: &str = if s.closeness >= 90 {
        ", won a near-lethal duel"
    } else if s.closeness >= 60 {
        ", won a hard-fought duel"
    } else {
        ""
    };
    let carry: &str = if s.carried > 0 {
        ", did nearly all the damage"
    } else {
        ""
    };
    let first_blood: &str = if s.first_blood {
        ", first blood"
    } else {
        ""
    };
    let survival: &str = if s.survived {
        ", walked away"
    } else if s.deaths > 0 {
        ", but died in it"
    } else {
        ""
    };
    let closing: &str = if s.closing {
        "; the closing fight"
    } else {
        ""
    };
    "you went ".to_string().concat(natural(s.kills as u128).as_str()).concat("/").concat(
        natural(s.deaths as u128).as_str(),
    ).concat("/").concat(natural(s.assists as u128).as_str()).concat(" in a fight").concat(
        tell_multi(s).as_str(),
    ).concat(tell_solo(s).as_str()).concat(duel).concat(carry).concat(tell_pick(s).as_str()).concat(
        tell_odds(s).as_str(),
    ).concat(first_blood).concat(survival).concat(tell_objective(s).as_str()).concat(
        closing,
    ).concat(" (+").concat(decimal(s.gold as i128).as_str()).concat("g)")
}

// --- the clip window ---------------------------------------------------------

/// The window of a clip over kills that span `anchor` to `last`: where it
/// starts, and how long it is. When the span outgrows the cap, the window is
/// anchored to the end: the payoff must survive the cut, not the opening
/// trade.
pub open spec fn clip_window(anchor: int, last: int) -> (int, int) {
    let span = text::tdiv(last - anchor, 1000);
    let full = span + CLIP_LEAD_S + CLIP_TAIL_S;
    let seek = if full > CLIP_MAX_S {
        text::tdiv(last, 1000) + CLIP_TAIL_S - CLIP_MAX_S
    } else {
        text::tdiv(anchor, 1000) - CLIP_LEAD_S
    };
    (
        if seek > 0 {
            seek
        } else {
            0
        },
        if full < CLIP_MAX_S {
            full
        } else {
            CLIP_MAX_S as int
        },
    )
}

fn window_over(anchor: i64, last: i64) -> (r: (i64, i64))
    ensures
        (r.0 as int, r.1 as int) == clip_window(anchor as int, last as int),
{
    let span: i128 = (last as i128 - anchor as i128) / 1000;
    let full: i128 = span + CLIP_LEAD_S as i128 + CLIP_TAIL_S as i128;
    let seek: i64 = if full > CLIP_MAX_S as i128 {
        last / 1000 + CLIP_TAIL_S - CLIP_MAX_S
    } else {
        anchor / 1000 - CLIP_LEAD_S
    };
    (
        if seek > 0 {
            seek
        } else {
            0
        },
        if full < CLIP_MAX_S as i128 {
            full as i64
        } else {
            CLIP_MAX_S
        },
    )
}

/// The candidate that a fight makes for the player: `Some(None)` when there is
/// nothing of theirs to show, nothing at all when a number does not fit.
pub open spec fn fight_clip(
    tl: TimelineV,
    near: Seq<Seq<bool>>,
    from: int,
    to: int,
    pid: i32,
    pteam: i32,
    ctx: ScoreV,
) -> Option<Option<CandidateV>> {
    let s = story(tl, near, from, to, pid, pteam, ctx);
    let fight = tl.kills.subrange(from, to);
    let own = seqs::keep(fight, involved(pid));
    let anchor = if own.len() > 0 {
        own[0].t
    } else {
        fight[0].t
    };
    let last = if own.len() > 0 {
        own.last().t
    } else {
        anchor
    };
    let (seek_s, dur_s) = clip_window(anchor as int, last as int);
    let score = story_score(s);
    if s.kills == 0 && s.assists == 0 {
        Some(None)
    } else if gold_of(seqs::keep(fight, candidates::killed_by(pid))) is None {
        None
    } else if score <= 0 {
        Some(None)
    } else if !candidates::fits(score) {
        None
    } else {
        Some(
            Some(
                CandidateV {
                    t_ms: anchor,
                    seek_s: seek_s as i64,
                    dur_s: dur_s as i64,
                    summary: story_text(s),
                    score: score as i64,
                },
            ),
        )
    }
}

/// The first and last involved kill of a fight.
fn own_span(tl: &Timeline, from: usize, to: usize, pid: i32) -> (r: (i64, i64))
    requires
        from < to <= tl.kills@.len(),
    ensures
        ({
            let fight = tl@.kills.subrange(from as int, to as int);
            let own = seqs::keep(fight, involved(pid));
            &&& own.len() > 0 ==> r.0 == own[0].t && r.1 == own.last().t
            &&& own.len() == 0 ==> r.0 == fight[0].t && r.1 == fight[0].t
        }),
{
    let ghost fight = tl@.kills.subrange(from as int, to as int);
    let ghost p = involved(pid);
    let mut first: Option<i64> = None;
    let mut last: i64 = tl.kills[from].t;
    proof {
        assert(fight[0] == tl.kills@[from as int]@);
    }
    for i in from..to
        invariant
            from < to <= tl.kills@.len(),
            fight == tl@.kills.subrange(from as int, to as int),
            fight[0] == tl.kills@[from as int]@,
            p == involved(pid),
            match first {
                Some(t) => seqs::keep(fight.take(i - from), p).len() > 0 && t == seqs::keep(
                    fight.take(i - from),
                    p,
                )[0].t && last == seqs::keep(fight.take(i - from), p).last().t,
                None => seqs::keep(fight.take(i - from), p).len() == 0 && last == fight[0].t,
            },
    {
        let k: &KillEv = &tl.kills[i];
        proof {
            assert(fight.take(i - from + 1).drop_last() =~= fight.take(i - from));
            assert(fight.take(i - from + 1).last() == k@);
        }
        if k.killer == pid || holds_id(&k.assists, pid) {
            if first.is_none() {
                first = Some(k.t);
            }
            last = k.t;
        }
    }
    proof {
        assert(fight.take(to - from) =~= fight);
    }
    match first {
        Some(t) => (t, last),
        None => (last, last),
    }
}

/// The value of a fight's candidate.
pub open spec fn clip_view(c: Option<Option<Candidate>>) -> Option<Option<CandidateV>> {
    match c {
        None => None,
        Some(None) => Some(None),
        Some(Some(c)) => Some(Some(c@)),
    }
}

/// The candidate that one fight, `tl.kills[from..to]`, makes for the player.
pub fn fight_candidate(
    tl: &Timeline,
    near: &Vec<Vec<bool>>,
    from: usize,
    to: usize,
    pid: i32,
    pteam: i32,
    ctx: &ScoreContext,
) -> (r: Option<Option<Candidate>>)
    requires
        from < to <= tl.kills@.len(),
    ensures
        clip_view(r) == fight_clip(
            tl@,
            scan::views(near@),
            from as int,
            to as int,
            pid,
            pteam,
            ctx@,
        ),
{
    let nowhere: Vec<bool> = Vec::new();
    let (pkills, rows) = own_kills(tl, near, &nowhere, from, to, pid);
    let helps = |k: &KillEv| -> (b: bool)
        ensures
            b == candidates::assisted_by(pid)(k@),
        { holds_id(&k.assists, pid) };
    proof {
        assert(scan::views(pkills@).len() == pkills@.len());
    }
    if pkills.len() == 0 && scan::count(
        &tl.kills,
        from,
        to,
        helps,
        Ghost(candidates::assisted_by(pid)),
    ) == 0 {
        return Some(None);
    }
    let gold: i64 = match sum_gold(&pkills) {
        Some(gold) => gold,
        None => {
            return None;
        },
    };
    let s: FightStory = read_fight(tl, near, from, to, pid, pteam, ctx, &pkills, &rows, gold);
    let score: i128 = score_of(&s);
    if score <= 0 {
        return Some(None);
    }
    if score > i64::MAX as i128 {
        return None;
    }
    let (anchor, last) = own_span(tl, from, to, pid);
    let (seek_s, dur_s) = window_over(anchor, last);
    Some(
        Some(
            Candidate { t_ms: anchor, seek_s, dur_s, summary: tell(&s), score: score as i64 },
        ),
    )
}

/// The candidates of a list of fights; nothing where a number does not fit.
pub open spec fn fight_clips(
    tl: TimelineV,
    near: Seq<Seq<bool>>,
    fights: Seq<(int, int)>,
    pid: i32,
    pteam: i32,
    ctx: ScoreV,
) -> Option<Seq<CandidateV>>
    decreases fights.len(),
{
    if fights.len() == 0 {
        Some(seq![])
    } else {
        match (
            fight_clips(tl, near, fights.drop_last(), pid, pteam, ctx),
            fight_clip(tl, near, fights.last().0, fights.last().1, pid, pteam, ctx),
        ) {
            (Some(before), Some(Some(c))) => Some(before.push(c)),
            (Some(before), Some(None)) => Some(before),
            _ => None,
        }
    }
}

proof fn lemma_clips_stop(
    tl: TimelineV,
    near: Seq<Seq<bool>>,
    fights: Seq<(int, int)>,
    pid: i32,
    pteam: i32,
    ctx: ScoreV,
    k: int,
)
    requires
        0 <= k <= fights.len(),
        fight_clips(tl, near, fights.take(k), pid, pteam, ctx) is None,
    ensures
        fight_clips(tl, near, fights, pid, pteam, ctx) is None,
    decreases fights.len() - k,
{
    if k == fights.len() {
        assert(fights.take(k) =~= fights);
    } else {
        assert(fights.take(k + 1).drop_last() =~= fights.take(k));
        lemma_clips_stop(tl, near, fights, pid, pteam, ctx, k + 1);
    }
}

/// The player's best plays, one candidate per fight they were central to.
/// `near[i][j]` says whether kill `j` lies within the trade radius of kill `i`.
/// Nothing where the gold or the score of a fight leaves 64 bits.
pub fn highlight_candidates(
    tl: &Timeline,
    near: &Vec<Vec<bool>>,
    pid: i32,
    pteam: i32,
    ctx: &ScoreContext,
) -> (r: Option<Vec<Candidate>>)
    ensures
        match r {
            Some(v) => fight_clips(
                tl@,
                scan::views(near@),
                candidates::clusters(tl@.kills, tl@.kills.len()),
                pid,
                pteam,
                ctx@,
            ) == Some(scan::views(v@)),
            None => fight_clips(
                tl@,
                scan::views(near@),
                candidates::clusters(tl@.kills, tl@.kills.len()),
                pid,
                pteam,
                ctx@,
            ) is None,
        },
{
    let ranges: Vec<Range<usize>> = cluster_kill_indices(&tl.kills);
    let ghost fights = candidates::bounds(ranges@);
    let mut out: Vec<Candidate> = Vec::new();
    proof {
        candidates::lemma_fights_partition(tl@.kills, tl@.kills.len());
        assert(scan::views(out@) =~= seq![]);
    }
    for i in 0..ranges.len()
        invariant
            fights == candidates::bounds(ranges@),
            fights == candidates::clusters(tl@.kills, tl@.kills.len()),
            candidates::partitions(fights, tl@.kills.len() as int),
            tl@.kills.len() == tl.kills@.len(),
            fight_clips(tl@, scan::views(near@), fights.take(i as int), pid, pteam, ctx@) == Some(
                scan::views(out@),
            ),
    {
        let from: usize = ranges[i].start;
        let to: usize = ranges[i].end;
        proof {
            assert(fights[i as int] == (from as int, to as int));
            assert(fights.take(i + 1).drop_last() =~= fights.take(i as int));
            assert(fights.take(i + 1).last() == (from as int, to as int));
        }
        let ghost before = out@;
        match fight_candidate(tl, near, from, to, pid, pteam, ctx) {
            Some(Some(c)) => {
                out.push(c);
                proof {
                    assert(scan::views(out@) =~= scan::views(before).push(c@));
                }
            },
            Some(None) => {},
            None => {
                proof {
                    lemma_clips_stop(
                        tl@,
                        scan::views(near@),
                        fights,
                        pid,
                        pteam,
                        ctx@,
                        i + 1,
                    );
                }
                return None;
            },
        }
    }
    proof {
        assert(fights.take(fights.len() as int) =~= fights);
    }
    Some(out)
}

} // verus!
