//! Causal analysis of a single match: the timeline turned into classified
//! moments — event-joins that explain what happened and why.
//!
//! - fight → objective conversion — the spine of "what decided the game".
//! - death quality — each of the centered player's deaths: free or traded.
//! - nemesis — one enemy accounting for the majority of the player's deaths.
//! - objective absence — the player present for none of the major objectives.
//! - dragon monopoly — one team taking every dragon.

use vstd::prelude::*;
use vstd::string::*;

use crate::candidates::{holds_id, was_answered, CONVERSION_WINDOW_MS, FIGHT_GAP_MS};
use crate::game::{champ_of, find_player, team_i32, Game, GameV};
use crate::seqs::{sort, Order};
use crate::text::{mmss, natural};
use crate::timeline::{KillEv, KillV, Monster, Objective, ObjectiveV, Timeline, TimelineV};
use crate::{candidates, game, highlights, scan, seqs, text};

verus! {

/// A won fight must have at least this kill lead.
pub const WON_FIGHT_MIN_KILLS: usize = 2;

/// The loser of a won fight has at most this many kills.
pub const WON_FIGHT_MAX_LOSER_KILLS: usize = 1;

#[derive(Debug, Clone, Copy, PartialEq, Eq, Structural)]
pub enum MomentKind {
    /// A won skirmish and whether it was cashed into an objective.
    FightConversion { team: i32, converted: bool },
    /// One of the centered player's deaths.
    Death { free: bool },
    /// One enemy killed the player a majority of the time.
    Nemesis,
    /// The player took part in none of the game's major objectives.
    ObjectiveAbsence,
    /// One team took every dragon.
    DragonMonopoly { team: i32 },
}

/// A classified, already-grounded moment.
#[derive(Debug)]
pub struct Moment {
    /// Game time of the moment, ms from start.
    pub t_ms: i64,
    pub kind: MomentKind,
    /// One-line, League-literate description.
    pub summary: String,
    /// Supporting event citations (timestamps + what happened).
    pub evidence: Vec<String>,
}

/// The mathematical value of a [`Moment`].
pub struct MomentV {
    pub t_ms: i64,
    pub kind: MomentKind,
    pub summary: Seq<char>,
    pub evidence: Seq<Seq<char>>,
}

impl View for Moment {
    type V = MomentV;

    open spec fn view(&self) -> MomentV {
        MomentV {
            t_ms: self.t_ms,
            kind: self.kind,
            summary: self.summary@,
            evidence: text::texts(self.evidence@),
        }
    }
}

impl Clone for Moment {
    fn clone(&self) -> (r: Moment)
        ensures
            r@ == self@,
    {
        let mut evidence: Vec<String> = Vec::new();
        for i in 0..self.evidence.len()
            invariant
                evidence@ =~= self.evidence@.take(i as int),
        {
            evidence.push(self.evidence[i].clone());
        }
        proof {
            assert(evidence@ =~= self.evidence@);
        }
        Moment { t_ms: self.t_ms, kind: self.kind, summary: self.summary.clone(), evidence }
    }
}

/// The display name of a side.
pub open spec fn side_text(team: i32) -> Seq<char> {
    if team == 100 {
        "Blue side"@
    } else if team == 200 {
        "Red side"@
    } else {
        "A team"@
    }
}

pub fn side_name(team: i32) -> (r: &'static str)
    ensures
        r@ == side_text(team),
{
    if team == 100 {
        "Blue side"
    } else if team == 200 {
        "Red side"
    } else {
        "A team"
    }
}

// --- fights ------------------------------------------------------------------

/// A kill by one of the two teams.
#[derive(Debug, Clone, Copy)]
pub struct Kill {
    pub t: i64,
    pub team: i32,
}

impl View for Kill {
    type V = Kill;

    open spec fn view(&self) -> Kill {
        *self
    }
}

/// A time-clustered skirmish.
#[derive(Debug)]
pub struct Fight {
    pub start: i64,
    pub end: i64,
    /// The team of each kill.
    pub kills: Vec<i32>,
}

/// The mathematical value of a [`Fight`].
pub struct FightV {
    pub start: i64,
    pub end: i64,
    pub kills: Seq<i32>,
}

impl View for Fight {
    type V = FightV;

    open spec fn view(&self) -> FightV {
        FightV { start: self.start, end: self.end, kills: self.kills@ }
    }
}

pub open spec fn is_team(team: i32) -> spec_fn(i32) -> bool {
    |t: i32| t == team
}

impl FightV {
    /// How many kills a team got.
    pub open spec fn count_for(self, team: i32) -> nat {
        seqs::count_where(self.kills, is_team(team))
    }

    /// The team that won the fight, if it meets the lead threshold.
    pub open spec fn won_by(self) -> Option<i32> {
        let blue = self.count_for(100);
        let red = self.count_for(200);
        if blue - red >= WON_FIGHT_MIN_KILLS && red <= WON_FIGHT_MAX_LOSER_KILLS {
            Some(100)
        } else if red - blue >= WON_FIGHT_MIN_KILLS && blue <= WON_FIGHT_MAX_LOSER_KILLS {
            Some(200)
        } else {
            None
        }
    }
}

impl Fight {
    /// How many kills a team got.
    pub fn kills_for(&self, team: i32) -> (r: usize)
        ensures
            r == self@.count_for(team),
    {
        let f = |t: &i32| -> (b: bool)
            ensures
                b == is_team(team)(t@),
            { *t == team };
        proof {
            assert(scan::views(self.kills@).subrange(0, self.kills@.len() as int) =~= self.kills@);
        }
        scan::count(&self.kills, 0, self.kills.len(), f, Ghost(is_team(team)))
    }

    /// The team that won the fight, if it meets the lead threshold.
    pub fn winner(&self) -> (r: Option<i32>)
        ensures
            r == self@.won_by(),
    {
        let (blue, red) = (self.kills_for(100), self.kills_for(200));
        if red <= WON_FIGHT_MAX_LOSER_KILLS && blue >= red + WON_FIGHT_MIN_KILLS {
            Some(100)
        } else if blue <= WON_FIGHT_MAX_LOSER_KILLS && red >= blue + WON_FIGHT_MIN_KILLS {
            Some(200)
        } else {
            None
        }
    }
}

/// The fights that a list of kills makes.
pub open spec fn fights_of(kills: Seq<Kill>) -> Seq<FightV>
    decreases kills.len(),
{
    if kills.len() == 0 {
        seq![]
    } else {
        let before = fights_of(kills.drop_last());
        let k = kills.last();
        if before.len() > 0 && k.t - before.last().end <= FIGHT_GAP_MS {
            before.drop_last().push(
                FightV {
                    start: before.last().start,
                    end: k.t,
                    kills: before.last().kills.push(k.team),
                },
            )
        } else {
            before.push(FightV { start: k.t, end: k.t, kills: seq![k.team] })
        }
    }
}

/// Groups kills into fights, splitting whenever the gap exceeds `FIGHT_GAP_MS`.
pub fn cluster_fights(kills: &Vec<Kill>) -> (r: Vec<Fight>)
    ensures
        scan::views(r@) == fights_of(kills@),
{
    let mut done: Vec<Fight> = Vec::new();
    let mut open: Option<Fight> = None;
    proof {
        assert(scan::views(done@) =~= seq![]);
    }
    for i in 0..kills.len()
        invariant
            match open {
                Some(f) => fights_of(kills@.take(i as int)) == scan::views(done@).push(f@),
                None => done@.len() == 0 && fights_of(kills@.take(i as int)) == Seq::<
                    FightV,
                >::empty(),
            },
    {
        let k: Kill = kills[i];
        proof {
            assert(kills@.take(i + 1).drop_last() =~= kills@.take(i as int));
            assert(kills@.take(i + 1).last() == k);
        }
        let ghost was = scan::views(done@);
        let mut fresh: Vec<i32> = Vec::new();
        fresh.push(k.team);
        proof {
            assert(fresh@ =~= seq![k.team]);
        }
        match open {
            Some(f) => {
                let ghost old_f = f@;
                proof {
                    assert(was.push(old_f).drop_last() =~= was);
                }
                if k.t as i128 - f.end as i128 <= FIGHT_GAP_MS as i128 {
                    let mut grown: Vec<i32> = f.kills;
                    grown.push(k.team);
                    open = Some(Fight { start: f.start, end: k.t, kills: grown });
                } else {
                    let ghost before = done@;
                    done.push(f);
                    proof {
                        assert(scan::views(done@) =~= scan::views(before).push(old_f));
                    }
                    open = Some(Fight { start: k.t, end: k.t, kills: fresh });
                }
            },
            None => {
                proof {
                    assert(was =~= Seq::<FightV>::empty());
                }
                open = Some(Fight { start: k.t, end: k.t, kills: fresh });
            },
        }
    }
    proof {
        assert(kills@.take(kills@.len() as int) =~= kills@);
    }
    if let Some(f) = open {
        let ghost before = done@;
        done.push(f);
        proof {
            assert(scan::views(done@) =~= scan::views(before).push(f@));
        }
    } else {
        proof {
            assert(scan::views(done@) =~= Seq::<FightV>::empty());
        }
    }
    done
}

/// A won fight, with the objective (if any) attributed to it.
#[derive(Debug)]
pub struct WonFight {
    pub team: i32,
    pub start: i64,
    pub end: i64,
    pub won: usize,
    pub lost: usize,
    pub converting: Option<(String, i64)>,
}

/// The mathematical value of a [`WonFight`].
pub struct WonV {
    pub team: i32,
    pub start: i64,
    pub end: i64,
    pub won: nat,
    pub lost: nat,
    pub converting: Option<(Seq<char>, i64)>,
}

impl View for WonFight {
    type V = WonV;

    open spec fn view(&self) -> WonV {
        WonV {
            team: self.team,
            start: self.start,
            end: self.end,
            won: self.won as nat,
            lost: self.lost as nat,
            converting: match self.converting {
                Some((label, t)) => Some((label@, t)),
                None => None,
            },
        }
    }
}

/// A fight as its winner sees it, if it was won.
pub open spec fn won_fight(f: FightV) -> Option<WonV> {
    match f.won_by() {
        Some(team) => Some(
            WonV {
                team,
                start: f.start,
                end: f.end,
                won: if team == 100 {
                    f.count_for(100)
                } else {
                    f.count_for(200)
                },
                lost: if team == 100 {
                    f.count_for(200)
                } else {
                    f.count_for(100)
                },
                converting: None,
            },
        ),
        None => None,
    }
}

/// What a won fight was: its score and its times, as evidence.
pub open spec fn fight_text(f: WonV) -> Seq<char> {
    "fight "@ + text::digits(f.won) + "-"@ + text::digits(f.lost) + " ("@ + text::clock(
        f.start as int,
    ) + "–"@ + text::clock(f.end as int) + ")"@
}

/// The moment that a won fight makes.
pub open spec fn fight_moment(f: WonV) -> MomentV {
    let opener = side_text(f.team) + " won a "@ + text::digits(f.won) + "-"@ + text::digits(f.lost)
        + " fight at "@ + text::clock(f.end as int);
    MomentV {
        t_ms: f.end,
        kind: MomentKind::FightConversion { team: f.team, converted: f.converting is Some },
        summary: match f.converting {
            Some((label, t)) => opener + " and converted it into "@ + label + " at "@
                + text::clock(t as int),
            None => opener + " but took no objective from it"@,
        },
        evidence: match f.converting {
            Some((label, t)) => seq![
                fight_text(f),
                label + " at "@ + text::clock(t as int),
            ],
            None => seq![fight_text(f)],
        },
    }
}

impl WonFight {
    /// A fight as its winner sees it, if it was won.
    pub fn from_fight(f: Fight) -> (r: Option<WonFight>)
        ensures
            match r {
                Some(w) => won_fight(f@) == Some(w@),
                None => won_fight(f@) is None,
            },
    {
        match f.winner() {
            None => None,
            Some(team) => {
                let (blue, red) = (f.kills_for(100), f.kills_for(200));
                let (won, lost) = if team == 100 {
                    (blue, red)
                } else {
                    (red, blue)
                };
                Some(
                    WonFight { team, start: f.start, end: f.end, won, lost, converting: None },
                )
            },
        }
    }

    /// The moment that a won fight makes.
    pub fn into_moment(self) -> (r: Moment)
        ensures
            r@ == fight_moment(self@),
    {
        let won: String = natural(self.won as u128);
        let lost: String = natural(self.lost as u128);
        let end: String = mmss(self.end);
        let opener: String = side_name(self.team).to_string().concat(" won a ").concat(
            won.as_str(),
        ).concat("-").concat(lost.as_str()).concat(" fight at ").concat(end.as_str());
        let fight: String = "fight ".to_string().concat(won.as_str()).concat("-").concat(
            lost.as_str(),
        ).concat(" (").concat(mmss(self.start).as_str()).concat("–").concat(end.as_str()).concat(
            ")",
        );
        let mut evidence: Vec<String> = Vec::new();
        evidence.push(fight);
        let (summary, converted): (String, bool) = match &self.converting {
            Some((label, t)) => {
                let at: String = mmss(*t);
                evidence.push(label.clone().concat(" at ").concat(at.as_str()));
                (
                    opener.concat(" and converted it into ").concat(label.as_str()).concat(
                        " at ",
                    ).concat(at.as_str()),
                    true,
                )
            },
            None => (opener.concat(" but took no objective from it"), false),
        };
        proof {
            assert(text::texts(evidence@) =~= fight_moment(self@).evidence);
        }
        Moment {
            t_ms: self.end,
            kind: MomentKind::FightConversion { team: self.team, converted },
            summary,
            evidence,
        }
    }
}

// --- fight -> objective conversion -------------------------------------------

/// The kills that a team is credited with, as far as fights count them.
pub open spec fn team_kills(kills: Seq<KillV>) -> Seq<Kill>
    decreases kills.len(),
{
    if kills.len() == 0 {
        seq![]
    } else {
        let before = team_kills(kills.drop_last());
        let k = kills.last();
        if k.killer_team == 100 || k.killer_team == 200 {
            before.push(Kill { t: k.t, team: k.killer_team })
        } else {
            before
        }
    }
}

/// The won fights among some fights.
pub open spec fn won_fights(fights: Seq<FightV>) -> Seq<WonV>
    decreases fights.len(),
{
    if fights.len() == 0 {
        seq![]
    } else {
        match won_fight(fights.last()) {
            Some(w) => won_fights(fights.drop_last()).push(w),
            None => won_fights(fights.drop_last()),
        }
    }
}

/// Whether an objective can have come from a fight that has none yet.
pub open spec fn can_claim(team: i32, t: i64) -> spec_fn(WonV) -> bool {
    |f: WonV|
        f.team == team && f.converting is None && f.start <= t <= f.end + CONVERSION_WINDOW_MS
}

pub open spec fn fight_end() -> spec_fn(WonV) -> int {
    |f: WonV| f.end as int
}

/// The fight that an objective is attributed to: the nearest won fight, by the
/// same team, that it could have come from.
pub open spec fn claimant(won: Seq<WonV>, o: ObjectiveV) -> Option<int> {
    seqs::last_max_where(won, can_claim(o.team, o.t), fight_end())
}

/// The fights after an objective was attributed.
pub open spec fn attribute(won: Seq<WonV>, o: ObjectiveV) -> Seq<WonV> {
    match claimant(won, o) {
        Some(i) => won.update(i, WonV { converting: Some((o.label, o.t)), ..won[i] }),
        None => won,
    }
}

/// The fights after all the objectives were attributed, in order.
pub open spec fn attributed(won: Seq<WonV>, objectives: Seq<ObjectiveV>) -> Seq<WonV>
    decreases objectives.len(),
{
    if objectives.len() == 0 {
        won
    } else {
        attribute(attributed(won, objectives.drop_last()), objectives.last())
    }
}

/// The moments that the won fights make.
pub open spec fn conversions(kills: Seq<KillV>, objectives: Seq<ObjectiveV>) -> Seq<MomentV> {
    attributed(won_fights(fights_of(team_kills(kills))), objectives).map_values(
        |f: WonV| fight_moment(f),
    )
}

fn sided_kills(kills: &Vec<KillEv>) -> (r: Vec<Kill>)
    ensures
        r@ == team_kills(scan::views(kills@)),
{
    let ghost all = scan::views(kills@);
    let mut out: Vec<Kill> = Vec::new();
    for i in 0..kills.len()
        invariant
            all == scan::views(kills@),
            out@ =~= team_kills(all.take(i as int)),
    {
        let k: &KillEv = &kills[i];
        proof {
            assert(all.take(i + 1).drop_last() =~= all.take(i as int));
            assert(all.take(i + 1).last() == k@);
        }
        if k.killer_team == 100 || k.killer_team == 200 {
            out.push(Kill { t: k.t, team: k.killer_team });
        }
    }
    proof {
        assert(all.take(all.len() as int) =~= all);
    }
    out
}

fn keep_won(fights: Vec<Fight>) -> (r: Vec<WonFight>)
    ensures
        scan::views(r@) == won_fights(scan::views(fights@)),
{
    let ghost all = scan::views(fights@);
    let ghost given = fights@;
    let mut rest: Vec<Fight> = fights;
    let mut out: Vec<WonFight> = Vec::new();
    let n: usize = rest.len();
    let mut i: usize = 0;
    proof {
        assert(scan::views(out@) =~= seq![]);
    }
    while i < n
        invariant
            all == scan::views(given),
            n == given.len(),
            i <= n,
            rest@.len() + i == given.len(),
            rest@ == given.skip(i as int),
            scan::views(out@) == won_fights(all.take(i as int)),
        decreases rest@.len(),
    {
        let f: Fight = rest.remove(0);
        proof {
            assert(all.take(i + 1).drop_last() =~= all.take(i as int));
            assert(all.take(i + 1).last() == f@);
            assert(rest@ =~= given.skip(i + 1));
        }
        let ghost before = out@;
        if let Some(w) = WonFight::from_fight(f) {
            out.push(w);
            proof {
                assert(scan::views(out@) =~= scan::views(before).push(w@));
            }
        }
        i = i + 1;
    }
    proof {
        assert(all.take(all.len() as int) =~= all);
    }
    out
}

fn find_claimant(won: &Vec<WonFight>, o: &Objective) -> (r: Option<usize>)
    ensures
        match r {
            Some(i) => i < won@.len() && claimant(scan::views(won@), o@) == Some(i as int),
            None => claimant(scan::views(won@), o@) is None,
        },
{
    let ghost all = scan::views(won@);
    let ghost p = can_claim(o.team, o.t);
    let mut best: Option<usize> = None;
    for i in 0..won.len()
        invariant
            all == scan::views(won@),
            p == can_claim(o.team, o.t),
            match best {
                Some(k) => k < i && seqs::last_max_where(all.take(i as int), p, fight_end())
                    == Some(k as int),
                None => seqs::last_max_where(all.take(i as int), p, fight_end()) is None,
            },
    {
        let f: &WonFight = &won[i];
        proof {
            assert(all.take(i + 1).drop_last() =~= all.take(i as int));
            assert(all.take(i + 1).last() == f@);
        }
        if f.team == o.team && f.converting.is_none() && o.t >= f.start && o.t as i128 <= f.end
            as i128 + CONVERSION_WINDOW_MS as i128 {
            let wins: bool = match best {
                Some(k) => f.end >= won[k].end,
                None => true,
            };
            if wins {
                best = Some(i);
            }
        }
    }
    proof {
        assert(all.take(all.len() as int) =~= all);
    }
    best
}

/// The won fights, each with the objective it was cashed into. Each objective
/// is attributed to a single fight — the nearest won fight (by the same team)
/// it could have come from — so a shared tower isn't credited to several fights
/// at once.
pub fn fight_conversions(kills: &Vec<KillEv>, objectives: &Vec<Objective>) -> (r: Vec<Moment>)
    ensures
        scan::views(r@) == conversions(scan::views(kills@), scan::views(objectives@)),
{
    let mut won: Vec<WonFight> = keep_won(cluster_fights(&sided_kills(kills)));
    let ghost start = scan::views(won@);
    let ghost all = scan::views(objectives@);
    for i in 0..objectives.len()
        invariant
            all == scan::views(objectives@),
            scan::views(won@) == attributed(start, all.take(i as int)),
    {
        let o: &Objective = &objectives[i];
        proof {
            assert(all.take(i + 1).drop_last() =~= all.take(i as int));
            assert(all.take(i + 1).last() == o@);
        }
        if let Some(k) = find_claimant(&won, o) {
            let ghost before = won@;
            let f: WonFight = WonFight {
                team: won[k].team,
                start: won[k].start,
                end: won[k].end,
                won: won[k].won,
                lost: won[k].lost,
                converting: Some((o.label.clone(), o.t)),
            };
            won.set(k, f);
            proof {
                assert(scan::views(won@) =~= scan::views(before).update(k as int, f@));
            }
        }
    }
    proof {
        assert(all.take(all.len() as int) =~= all);
    }
    let ghost given = won@;
    let mut rest: Vec<WonFight> = won;
    let mut out: Vec<Moment> = Vec::new();
    while rest.len() > 0
        invariant
            rest@.len() + out@.len() == given.len(),
            rest@ == given.skip(out@.len() as int),
            scan::views(out@) =~= scan::views(given).take(out@.len() as int).map_values(
                |f: WonV| fight_moment(f),
            ),
        decreases rest@.len(),
    {
        let ghost k = out@.len() as int;
        let ghost before = out@;
        let f: WonFight = rest.remove(0);
        let m: Moment = f.into_moment();
        out.push(m);
        proof {
            assert(scan::views(out@) =~= scan::views(before).push(m@));
            assert(scan::views(given).take(k + 1) =~= scan::views(given).take(k).push(
                scan::views(given)[k],
            ));
        }
    }
    proof {
        assert(scan::views(given).take(given.len() as int) =~= scan::views(given));
    }
    out
}

pub(crate) proof fn lemma_last_max<A>(s: Seq<A>, p: spec_fn(A) -> bool, f: spec_fn(A) -> int)
    ensures
        match seqs::last_max_where(s, p, f) {
            Some(i) => 0 <= i < s.len() && p(s[i]) && forall|j: int|
                0 <= j < s.len() && p(#[trigger] s[j]) ==> f(s[j]) <= f(s[i]) && (i < j ==> f(s[j])
                    < f(s[i])),
            None => forall|j: int| 0 <= j < s.len() ==> !p(#[trigger] s[j]),
        },
    decreases s.len(),
{
    if s.len() > 0 {
        let t = s.drop_last();
        lemma_last_max(t, p, f);
        match seqs::last_max_where(s, p, f) {
            Some(i) => {
                assert forall|j: int| 0 <= j < s.len() && p(#[trigger] s[j]) implies f(s[j]) <= f(
                    s[i],
                ) && (i < j ==> f(s[j]) < f(s[i])) by {
                    if j < t.len() {
                        assert(t[j] == s[j]);
                    }
                }
            },
            None => {
                assert forall|j: int| 0 <= j < s.len() implies !p(#[trigger] s[j]) by {
                    if j < t.len() {
                        assert(t[j] == s[j]);
                    }
                }
            },
        }
    }
}

/// An objective is credited to at most one fight, and never to one that
/// already has its own.
pub proof fn lemma_one_fight_per_objective(won: Seq<WonV>, o: ObjectiveV)
    ensures
        attribute(won, o).len() == won.len(),
        forall|i: int, j: int|
            #![trigger attribute(won, o)[i], attribute(won, o)[j]]
            0 <= i < won.len() && 0 <= j < won.len() && attribute(won, o)[i] != won[i]
                && attribute(won, o)[j] != won[j] ==> i == j,
        forall|i: int|
            #![trigger attribute(won, o)[i]]
            0 <= i < won.len() && attribute(won, o)[i] != won[i] ==> won[i].converting is None,
{
    lemma_last_max(won, can_claim(o.team, o.t), fight_end());
}

/// Whether a fight's conversion, if it has one, is an objective that its own
/// team took between its first kill and the end of the conversion window.
pub open spec fn sound_conversion(f: WonV, objectives: Seq<ObjectiveV>) -> bool {
    match f.converting {
        Some((label, t)) => exists|i: int|
            0 <= i < objectives.len() && (#[trigger] objectives[i]).label == label
                && objectives[i].t == t && objectives[i].team == f.team && f.start <= t <= f.end
                + CONVERSION_WINDOW_MS,
        None => true,
    }
}

/// A fight is only ever converted into an objective that its own team took, no
/// earlier than the fight began and no later than the conversion window.
pub proof fn lemma_conversions_are_sound(won: Seq<WonV>, objectives: Seq<ObjectiveV>)
    requires
        forall|i: int| 0 <= i < won.len() ==> (#[trigger] won[i]).converting is None,
    ensures
        attributed(won, objectives).len() == won.len(),
        forall|i: int|
            0 <= i < won.len() ==> sound_conversion(
                #[trigger] attributed(won, objectives)[i],
                objectives,
            ),
    decreases objectives.len(),
{
    if objectives.len() > 0 {
        let fewer = objectives.drop_last();
        lemma_conversions_are_sound(won, fewer);
        let before = attributed(won, fewer);
        let o = objectives.last();
        lemma_last_max(before, can_claim(o.team, o.t), fight_end());
        let now = attributed(won, objectives);
        assert forall|i: int| 0 <= i < won.len() implies sound_conversion(
            #[trigger] now[i],
            objectives,
        ) by {
            if claimant(before, o) == Some(i) {
                assert(objectives[objectives.len() - 1] == o);
            } else {
                assert(now[i] == before[i]);
                assert(sound_conversion(before[i], fewer));
                if let Some((label, t)) = before[i].converting {
                    let k = choose|k: int|
                        0 <= k < fewer.len() && (#[trigger] fewer[k]).label == label && fewer[k].t
                            == t && fewer[k].team == before[i].team && before[i].start <= t
                            <= before[i].end + CONVERSION_WINDOW_MS;
                    assert(objectives[k] == fewer[k]);
                }
            }
        }
    }
}

// --- death quality -----------------------------------------------------------

/// The text that locates a kill, empty for one that has none.
pub open spec fn spot(spots: Seq<Seq<char>>, i: int) -> Seq<char> {
    if 0 <= i < spots.len() {
        spots[i]
    } else {
        ""@
    }
}

/// The moment that the death `kills[i]` makes.
pub open spec fn death_moment(
    kills: Seq<KillV>,
    near: Seq<Seq<bool>>,
    spots: Seq<Seq<char>>,
    i: int,
    pteam: i32,
    game: GameV,
) -> MomentV {
    let death = kills[i];
    let traded = candidates::answered(kills, pteam, death.t as int, highlights::row(near, i));
    let opener = "You died to "@ + game.champion(death.killer) + " at "@ + text::clock(
        death.t as int,
    );
    MomentV {
        t_ms: death.t,
        kind: MomentKind::Death { free: !traded },
        summary: if traded {
            opener + " — a trade"@
        } else {
            opener + " with no trade (a free death)"@
        },
        evidence: seq!["death at "@ + spot(spots, i)],
    }
}

/// The moments of the player's deaths among the first `n` kills.
pub open spec fn deaths_upto(
    kills: Seq<KillV>,
    near: Seq<Seq<bool>>,
    spots: Seq<Seq<char>>,
    n: int,
    pid: i32,
    pteam: i32,
    game: GameV,
) -> Seq<MomentV>
    decreases n,
{
    if n <= 0 {
        seq![]
    } else {
        let before = deaths_upto(kills, near, spots, n - 1, pid, pteam, game);
        if kills[n - 1].victim == pid {
            before.push(death_moment(kills, near, spots, n - 1, pteam, game))
        } else {
            before
        }
    }
}

/// Each of the player's deaths: traded if an allied kill lands close in time
/// and space, free otherwise. `near[i][j]` says whether kill `j` lies within
/// the trade radius of kill `i`, and `spots[i]` is where kill `i` happened.
pub fn death_moments(
    kills: &Vec<KillEv>,
    near: &Vec<Vec<bool>>,
    spots: &Vec<String>,
    pid: i32,
    pteam: i32,
    game: &Game,
) -> (r: Vec<Moment>)
    ensures
        scan::views(r@) == deaths_upto(
            scan::views(kills@),
            scan::views(near@),
            text::texts(spots@),
            kills@.len() as int,
            pid,
            pteam,
            game@,
        ),
{
    let ghost all = scan::views(kills@);
    let nowhere: Vec<bool> = Vec::new();
    let mut out: Vec<Moment> = Vec::new();
    proof {
        assert(scan::views(out@) =~= seq![]);
    }
    for i in 0..kills.len()
        invariant
            all == scan::views(kills@),
            nowhere@ == Seq::<bool>::empty(),
            scan::views(out@) == deaths_upto(
                all,
                scan::views(near@),
                text::texts(spots@),
                i as int,
                pid,
                pteam,
                game@,
            ),
    {
        let death: &KillEv = &kills[i];
        proof {
            assert(all[i as int] == death@);
        }
        if death.victim == pid {
            let here: &Vec<bool> = if i < near.len() {
                &near[i]
            } else {
                &nowhere
            };
            proof {
                assert(here@ =~= highlights::row(scan::views(near@), i as int));
            }
            let traded: bool = was_answered(kills, pteam, death.t, here);
            let opener: String = "You died to ".to_string().concat(
                champ_of(game, death.killer).as_str(),
            ).concat(" at ").concat(mmss(death.t).as_str());
            let summary: String = if traded {
                opener.concat(" — a trade")
            } else {
                opener.concat(" with no trade (a free death)")
            };
            let place: &str = if i < spots.len() {
                spots[i].as_str()
            } else {
                ""
            };
            let mut evidence: Vec<String> = Vec::new();
            evidence.push("death at ".to_string().concat(place));
            let m: Moment = Moment {
                t_ms: death.t,
                kind: MomentKind::Death { free: !traded },
                summary,
                evidence,
            };
            let ghost before = out@;
            out.push(m);
            proof {
                assert(m@.evidence =~= seq!["death at "@ + spot(text::texts(spots@), i as int)]);
                assert(scan::views(out@) =~= scan::views(before).push(m@));
            }
        }
    }
    out
}

// --- nemesis -----------------------------------------------------------------

pub open spec fn kill_time() -> spec_fn(KillV) -> int {
    |k: KillV| k.t as int
}

/// The most frequent killer among the first `n` deaths, with their count over
/// all of them; the first one of equals.
pub open spec fn top_killer(deaths: Seq<KillV>, n: nat) -> (i32, nat)
    decreases n,
{
    if n == 0 {
        (0, 0)
    } else {
        let (killer, count) = top_killer(deaths, (n - 1) as nat);
        let here = seqs::count_where(deaths, candidates::killed_by(deaths[n - 1].killer));
        if here > count {
            (deaths[n - 1].killer, here)
        } else {
            (killer, count)
        }
    }
}

/// The nemesis moment of a player, if one enemy accounts for the majority of at
/// least three deaths.
pub open spec fn nemesis(kills: Seq<KillV>, pid: i32, game: GameV) -> Option<MomentV> {
    let deaths = seqs::keep(kills, candidates::death_of(pid));
    let (killer, count) = top_killer(deaths, deaths.len());
    if deaths.len() < 3 || count * 2 <= deaths.len() {
        None
    } else {
        Some(
            MomentV {
                t_ms: match seqs::max_of(deaths, kill_time()) {
                    Some(t) => t as i64,
                    None => 0,
                },
                kind: MomentKind::Nemesis,
                summary: game.champion(killer) + " was your nemesis — "@ + text::digits(count)
                    + " of your "@ + text::digits(deaths.len()) + " deaths"@,
                evidence: seq![
                    text::digits(count) + "/"@ + text::digits(deaths.len())
                        + " deaths to one enemy"@,
                ],
            },
        )
    }
}

/// The value of an optional moment.
pub open spec fn moment_view(m: Option<Moment>) -> Option<MomentV> {
    match m {
        Some(m) => Some(m@),
        None => None,
    }
}

fn own_deaths(kills: &Vec<KillEv>, pid: i32) -> (r: Vec<&KillEv>)
    ensures
        scan::views(r@) == seqs::keep(scan::views(kills@), candidates::death_of(pid)),
{
    let ghost all = scan::views(kills@);
    let ghost p = candidates::death_of(pid);
    let mut out: Vec<&KillEv> = Vec::new();
    proof {
        assert(scan::views(out@) =~= seq![]);
    }
    for i in 0..kills.len()
        invariant
            all == scan::views(kills@),
            p == candidates::death_of(pid),
            scan::views(out@) == seqs::keep(all.take(i as int), p),
    {
        let k: &KillEv = &kills[i];
        proof {
            assert(all.take(i + 1).drop_last() =~= all.take(i as int));
            assert(all.take(i + 1).last() == k@);
        }
        if k.victim == pid {
            let ghost before = out@;
            out.push(k);
            proof {
                assert(scan::views(out@) =~= scan::views(before).push(k@));
            }
        }
    }
    proof {
        assert(all.take(all.len() as int) =~= all);
    }
    out
}

proof fn lemma_keep_everything<A>(s: Seq<A>)
    ensures
        seqs::keep(s, |x: A| true) == s,
    decreases s.len(),
{
    if s.len() > 0 {
        lemma_keep_everything(s.drop_last());
        assert(s =~= s.drop_last().push(s.last()));
    } else {
        assert(s =~= seq![]);
    }
}

fn last_time(kills: &Vec<&KillEv>) -> (r: i64)
    ensures
        r == (match seqs::max_of(scan::views(kills@), kill_time()) {
            Some(t) => t as i64,
            None => 0,
        }),
{
    let any = |k: &&KillEv| -> (b: bool)
        ensures
            b,
        { true };
    let time = |k: &&KillEv| -> (t: i64)
        ensures
            t == kill_time()(k@),
        { k.t };
    proof {
        assert(scan::views(kills@).subrange(0, kills@.len() as int) =~= scan::views(kills@));
        lemma_keep_everything(scan::views(kills@));
    }
    match scan::max(
        kills,
        0,
        kills.len(),
        any,
        time,
        Ghost(|k: KillV| true),
        Ghost(kill_time()),
    ) {
        Some(t) => t,
        None => 0,
    }
}

pub fn nemesis_moment(kills: &Vec<KillEv>, pid: i32, game: &Game) -> (r: Option<Moment>)
    ensures
        moment_view(r) == nemesis(scan::views(kills@), pid, game@),
{
    let deaths: Vec<&KillEv> = own_deaths(kills, pid);
    let ghost all = scan::views(deaths@);
    let n: usize = deaths.len();
    if n < 3 {
        return None;
    }
    // Most frequent killer.

    let mut best_killer: i32 = 0;
    let mut best_count: usize = 0;
    proof {
        assert(all.subrange(0, n as int) =~= all);
    }
    for i in 0..n
        invariant
            n == deaths@.len(),
            all == scan::views(deaths@),
            all.subrange(0, n as int) == all,
            top_killer(all, i as nat) == (best_killer, best_count as nat),
            best_count <= n,
    {
        let killer: i32 = deaths[i].killer;
        let same_killer = |d: &&KillEv| -> (b: bool)
            ensures
                b == candidates::killed_by(killer)(d@),
            { d.killer == killer };
        let count: usize = scan::count(
            &deaths,
            0,
            n,
            same_killer,
            Ghost(candidates::killed_by(killer)),
        );
        proof {
            assert(all[i as int] == deaths@[i as int]@);
        }
        if count > best_count {
            best_count = count;
            best_killer = killer;
        }
    }
    if (best_count as u128) * 2 <= n as u128 {
        return None;
    }
    let count: String = natural(best_count as u128);
    let total: String = natural(n as u128);
    let mut evidence: Vec<String> = Vec::new();
    evidence.push(
        count.clone().concat("/").concat(total.as_str()).concat(" deaths to one enemy"),
    );
    let m: Moment = Moment {
        t_ms: last_time(&deaths),
        kind: MomentKind::Nemesis,
        summary: champ_of(game, best_killer).concat(" was your nemesis — ").concat(
            count.as_str(),
        ).concat(" of your ").concat(total.as_str()).concat(" deaths"),
        evidence,
    };
    proof {
        assert(m@.evidence =~= seq![
            text::digits(best_count as nat) + "/"@ + text::digits(n as nat)
                + " deaths to one enemy"@,
        ]);
    }
    Some(m)
}

// --- objective absence -------------------------------------------------------

pub open spec fn is_major() -> spec_fn(ObjectiveV) -> bool {
    |o: ObjectiveV| o.monster.major()
}

pub open spec fn is_dragon() -> spec_fn(ObjectiveV) -> bool {
    |o: ObjectiveV| o.monster == Monster::Dragon
}

pub open spec fn take_time() -> spec_fn(ObjectiveV) -> int {
    |o: ObjectiveV| o.t as int
}

/// The time of the last of some objectives, 0 of none.
pub open spec fn last_take(objectives: Seq<ObjectiveV>) -> i64 {
    match seqs::max_of(objectives, take_time()) {
        Some(t) => t as i64,
        None => 0,
    }
}

/// The absence moment of a player, if they took part in none of at least three
/// major objectives.
pub open spec fn absence(objectives: Seq<ObjectiveV>, pid: i32) -> Option<MomentV> {
    let majors = seqs::keep(objectives, is_major());
    if majors.len() < 3 || seqs::any(majors, |o: ObjectiveV| o.participants.contains(pid)) {
        None
    } else {
        Some(
            MomentV {
                t_ms: last_take(majors),
                kind: MomentKind::ObjectiveAbsence,
                summary: "You took part in none of the "@ + text::digits(majors.len())
                    + " major objectives (dragons/Baron/Herald)"@,
                evidence: seq!["0/"@ + text::digits(majors.len()) + " major objectives"@],
            },
        )
    }
}

/// The dragon monopoly moment, if one team took all of at least three dragons.
pub open spec fn monopoly(objectives: Seq<ObjectiveV>) -> Option<MomentV> {
    let dragons = seqs::keep(objectives, is_dragon());
    if dragons.len() < 3 || exists|i: int|
        0 <= i < dragons.len() && (#[trigger] dragons[i]).team != dragons[0].team {
        None
    } else {
        Some(
            MomentV {
                t_ms: last_take(dragons),
                kind: MomentKind::DragonMonopoly { team: dragons[0].team },
                summary: side_text(dragons[0].team) + " monopolized the dragons — all "@
                    + text::digits(dragons.len()) + " of them"@,
                evidence: seq![text::digits(dragons.len()) + "-0 on dragons"@],
            },
        )
    }
}

/// The major objectives of a list, or its dragons.
fn select<'a>(objectives: &'a Vec<Objective>, dragons: bool) -> (r: Vec<&'a Objective>)
    ensures
        scan::views(r@) == seqs::keep(
            scan::views(objectives@),
            if dragons {
                is_dragon()
            } else {
                is_major()
            },
        ),
{
    let ghost all = scan::views(objectives@);
    let ghost p = if dragons {
        is_dragon()
    } else {
        is_major()
    };
    let mut out: Vec<&'a Objective> = Vec::new();
    proof {
        assert(scan::views(out@) =~= seq![]);
    }
    for i in 0..objectives.len()
        invariant
            all == scan::views(objectives@),
            p == (if dragons {
                is_dragon()
            } else {
                is_major()
            }),
            scan::views(out@) == seqs::keep(all.take(i as int), p),
    {
        let o: &'a Objective = &objectives[i];
        proof {
            assert(all.take(i + 1).drop_last() =~= all.take(i as int));
            assert(all.take(i + 1).last() == o@);
        }
        let wanted: bool = if dragons {
            o.monster == Monster::Dragon
        } else {
            o.monster.is_major()
        };
        if wanted {
            let ghost before = out@;
            out.push(o);
            proof {
                assert(scan::views(out@) =~= scan::views(before).push(o@));
            }
        }
    }
    proof {
        assert(all.take(all.len() as int) =~= all);
    }
    out
}

fn last_objective(objectives: &Vec<&Objective>) -> (r: i64)
    ensures
        r == last_take(scan::views(objectives@)),
{
    let any = |o: &&Objective| -> (b: bool)
        ensures
            b,
        { true };
    let time = |o: &&Objective| -> (t: i64)
        ensures
            t == take_time()(o@),
        { o.t };
    proof {
        assert(scan::views(objectives@).subrange(0, objectives@.len() as int) =~= scan::views(
            objectives@,
        ));
        lemma_keep_everything(scan::views(objectives@));
    }
    match scan::max(
        objectives,
        0,
        objectives.len(),
        any,
        time,
        Ghost(|o: ObjectiveV| true),
        Ghost(take_time()),
    ) {
        Some(t) => t,
        None => 0,
    }
}

pub fn objective_absence_moment(objectives: &Vec<Objective>, pid: i32) -> (r: Option<Moment>)
    ensures
        moment_view(r) == absence(scan::views(objectives@), pid),
{
    let majors: Vec<&Objective> = select(objectives, false);
    let ghost all = scan::views(majors@);
    if majors.len() < 3 {
        return None;
    }
    for i in 0..majors.len()
        invariant
            all == scan::views(majors@),
            all == seqs::keep(scan::views(objectives@), is_major()),
            forall|j: int| 0 <= j < i ==> !(#[trigger] all[j]).participants.contains(pid),
    {
        proof {
            assert(all[i as int] == majors@[i as int]@);
        }
        if holds_id(&majors[i].participants, pid) {
            return None;
        }
    }
    let total: String = natural(majors.len() as u128);
    let mut evidence: Vec<String> = Vec::new();
    evidence.push("0/".to_string().concat(total.as_str()).concat(" major objectives"));
    let m: Moment = Moment {
        t_ms: last_objective(&majors),
        kind: MomentKind::ObjectiveAbsence,
        summary: "You took part in none of the ".to_string().concat(total.as_str()).concat(
            " major objectives (dragons/Baron/Herald)",
        ),
        evidence,
    };
    proof {
        assert(m@.evidence =~= seq!["0/"@ + text::digits(all.len()) + " major objectives"@]);
    }
    Some(m)
}

// --- dragon monopoly ---------------------------------------------------------

pub fn dragon_monopoly_moment(objectives: &Vec<Objective>) -> (r: Option<Moment>)
    ensures
        moment_view(r) == monopoly(scan::views(objectives@)),
{
    let dragons: Vec<&Objective> = select(objectives, true);
    let ghost all = scan::views(dragons@);
    if dragons.len() < 3 {
        return None;
    }
    let team: i32 = dragons[0].team;
    proof {
        assert(all[0] == dragons@[0]@);
    }
    for i in 0..dragons.len()
        invariant
            all == scan::views(dragons@),
            all == seqs::keep(scan::views(objectives@), is_dragon()),
            all[0].team == team,
            forall|j: int| 0 <= j < i ==> (#[trigger] all[j]).team == team,
    {
        proof {
            assert(all[i as int] == dragons@[i as int]@);
        }
        if dragons[i].team != team {
            return None;
        }
    }
    let total: String = natural(dragons.len() as u128);
    let mut evidence: Vec<String> = Vec::new();
    evidence.push(total.clone().concat("-0 on dragons"));
    let m: Moment = Moment {
        t_ms: last_objective(&dragons),
        kind: MomentKind::DragonMonopoly { team },
        summary: side_name(team).to_string().concat(" monopolized the dragons — all ").concat(
            total.as_str(),
        ).concat(" of them"),
        evidence,
    };
    proof {
        assert(m@.evidence =~= seq![text::digits(all.len()) + "-0 on dragons"@]);
    }
    Some(m)
}

// --- everything together -----------------------------------------------------

/// A list with an optional moment at its end.
pub open spec fn with_moment(list: Seq<MomentV>, m: Option<MomentV>) -> Seq<MomentV> {
    match m {
        Some(m) => list.push(m),
        None => list,
    }
}

pub open spec fn moment_earlier() -> spec_fn(MomentV, MomentV) -> bool {
    |a: MomentV, b: MomentV| a.t_ms < b.t_ms
}

/// The moments of a match in the order in which they are found.
pub open spec fn found(
    game: GameV,
    tl: TimelineV,
    near: Seq<Seq<bool>>,
    spots: Seq<Seq<char>>,
    puuid: Seq<char>,
) -> Seq<MomentV> {
    let fights = conversions(tl.kills, tl.objectives);
    let own = match game.player(puuid) {
        Some(player) => {
            let pid = player.participant_id;
            let deaths = deaths_upto(
                tl.kills,
                near,
                spots,
                tl.kills.len() as int,
                pid,
                game::side_of(player.team_id),
                game,
            );
            with_moment(
                with_moment(fights + deaths, nemesis(tl.kills, pid, game)),
                absence(tl.objectives, pid),
            )
        },
        None => fights,
    };
    with_moment(own, monopoly(tl.objectives))
}

/// The moments of a match, centered on a player, in chronological order.
pub open spec fn analysis(
    game: GameV,
    tl: TimelineV,
    near: Seq<Seq<bool>>,
    spots: Seq<Seq<char>>,
    puuid: Seq<char>,
) -> Seq<MomentV> {
    seqs::sorted_by(found(game, tl, near, spots, puuid), moment_earlier())
}

/// The moments come in chronological order.
pub proof fn lemma_moments_are_chronological(
    game: GameV,
    tl: TimelineV,
    near: Seq<Seq<bool>>,
    spots: Seq<Seq<char>>,
    puuid: Seq<char>,
)
    ensures
        forall|i: int, j: int|
            0 <= i < j < analysis(game, tl, near, spots, puuid).len() ==> (
            #[trigger] analysis(game, tl, near, spots, puuid)[i]).t_ms <= (
            #[trigger] analysis(game, tl, near, spots, puuid)[j]).t_ms,
{
    let moments = analysis(game, tl, near, spots, puuid);
    seqs::lemma_sort_orders(found(game, tl, near, spots, puuid), moment_earlier());
    assert forall|i: int, j: int| 0 <= i < j < moments.len() implies (#[trigger] moments[i]).t_ms
        <= (#[trigger] moments[j]).t_ms by {
        assert(!moment_earlier()(moments[j], moments[i]));
    }
}

struct MomentTime;

impl Order<Moment> for MomentTime {
    open spec fn lt(a: Moment, b: Moment) -> bool {
        a.t_ms < b.t_ms
    }

    fn before(a: &Moment, b: &Moment) -> (r: bool) {
        a.t_ms < b.t_ms
    }
}

fn add_moment(list: Vec<Moment>, m: Option<Moment>) -> (r: Vec<Moment>)
    ensures
        scan::views(r@) == with_moment(scan::views(list@), moment_view(m)),
{
    let mut out: Vec<Moment> = list;
    if let Some(m) = m {
        out.push(m);
        proof {
            assert(scan::views(out@) =~= scan::views(list@).push(m@));
        }
    }
    out
}

/// Analyzes a timeline against the match, centered on the player with `puuid`,
/// returning moments in chronological order. `near[i][j]` says whether kill `j`
/// lies within the trade radius of kill `i`, and `spots[i]` is where kill `i`
/// happened, as `(x,y)`.
pub fn moments_of(
    game: &Game,
    tl: &Timeline,
    near: &Vec<Vec<bool>>,
    spots: &Vec<String>,
    puuid: &str,
) -> (r: Vec<Moment>)
    ensures
        scan::views(r@) == analysis(
            game@,
            tl@,
            scan::views(near@),
            text::texts(spots@),
            puuid@,
        ),
{
    let mut moments: Vec<Moment> = fight_conversions(&tl.kills, &tl.objectives);
    if let Some(i) = find_player(game, puuid) {
        let pid: i32 = game.participants[i].participant_id;
        let pteam: i32 = team_i32(game.participants[i].team_id);
        let ghost fights = moments@;
        let mut deaths: Vec<Moment> = death_moments(&tl.kills, near, spots, pid, pteam, game);
        let ghost own = deaths@;
        moments.append(&mut deaths);
        proof {
            assert(scan::views(moments@) =~= scan::views(fights) + scan::views(own));
        }
        moments = add_moment(moments, nemesis_moment(&tl.kills, pid, game));
        moments = add_moment(moments, objective_absence_moment(&tl.objectives, pid));
    }
    moments = add_moment(moments, dragon_monopoly_moment(&tl.objectives));
    proof {
        seqs::lemma_sorted_map(
            moments@,
            |x: Moment| x@,
            |a: Moment, b: Moment| MomentTime::lt(a, b),
            moment_earlier(),
        );
    }
    sort::<Moment, MomentTime>(moments)
}

} // verus!
