//! What the moments of a match say of its events: who won a fight and what came
//! of it, which deaths were free, and what the whole game had in common.

use vstd::prelude::*;

use crate::candidates;
use crate::game::GameV;
use crate::moments::{self, FightV, Kill, MomentKind, MomentV, WonV};
use crate::timeline::{KillV, Monster, ObjectiveV, TimelineV};
use crate::{game, highlights, seqs, text};

verus! {

// --- fights ------------------------------------------------------------------

/// How many kills the fights before fight `i` hold.
pub open spec fn kills_before(fights: Seq<FightV>, i: int) -> int
    decreases i,
{
    if i <= 0 {
        0
    } else {
        kills_before(fights, i - 1) + fights[i - 1].kills.len()
    }
}

/// The time that went by before a kill.
pub open spec fn pause(kills: Seq<Kill>, m: int) -> int {
    kills[m].t - kills[m - 1].t
}

/// Whether a fight is the kills from number `from` on, as many as it holds: it
/// starts with the first and ends with the last of them, none of them comes
/// more than 20 seconds after the one before it, and the first one does.
pub open spec fn is_stretch(f: FightV, kills: Seq<Kill>, from: int) -> bool {
    &&& 0 <= from < from + f.kills.len() <= kills.len()
    &&& f.start == kills[from].t
    &&& f.end == kills[from + f.kills.len() - 1].t
    &&& forall|m: int| 0 <= m < f.kills.len() ==> #[trigger] f.kills[m] == kills[from + m].team
    &&& forall|m: int|
        from < m < from + f.kills.len() ==> #[trigger] pause(kills, m) <= 20_000
    &&& from > 0 ==> pause(kills, from) > 20_000
}

proof fn lemma_kills_before(a: Seq<FightV>, b: Seq<FightV>, i: int)
    requires
        0 <= i <= a.len(),
        i <= b.len(),
        forall|j: int| 0 <= j < i ==> #[trigger] a[j] == b[j],
    ensures
        kills_before(a, i) == kills_before(b, i),
    decreases i,
{
    if i > 0 {
        lemma_kills_before(a, b, i - 1);
        assert(a[i - 1] == b[i - 1]);
    }
}

/// The fights cut the kills into stretches: every kill is in exactly one of
/// them, and a new one begins exactly where more than 20 seconds went by.
#[verifier::spinoff_prover]
#[verifier::rlimit(40)]
pub proof fn lemma_fights_are_stretches(kills: Seq<Kill>)
    ensures
        ({
            let fights = moments::fights_of(kills);
            &&& kills_before(fights, fights.len() as int) == kills.len()
            &&& forall|i: int|
                0 <= i < fights.len() ==> is_stretch(
                    #[trigger] fights[i],
                    kills,
                    kills_before(fights, i),
                )
        }),
    decreases kills.len(),
{
    if kills.len() > 0 {
        let fewer = kills.drop_last();
        lemma_fights_are_stretches(fewer);
        let before = moments::fights_of(fewer);
        let now = moments::fights_of(kills);
        let k = kills.last();
        let n = before.len() as int;
        if n > 0 {
            assert(before[n - 1] == before.last());
            assert(is_stretch(before[n - 1], fewer, kills_before(before, n - 1)));
        }
        let last = now.len() - 1;
        let joins = n > 0 && k.t - before.last().end <= 20_000;
        assert(joins ==> now[last].kills.len() == before[n - 1].kills.len() + 1 && last == n - 1);
        assert(!joins ==> now[last].kills.len() == 1 && last == n);
        assert forall|j: int| 0 <= j < last implies #[trigger] now[j] == before[j] by {}
        lemma_kills_before(now, before, last);
        assert forall|i: int| 0 <= i < now.len() implies is_stretch(
            #[trigger] now[i],
            kills,
            kills_before(now, i),
        ) by {
            let from = kills_before(now, i);
            if i < last {
                lemma_kills_before(now, before, i);
                lemma_stretch_stays(before[i], fewer, kills, from);
            } else if joins {
                lemma_stretch_grows(before[n - 1], fewer, kills, from);
            } else {
                assert(from == fewer.len());
                assert(kills[kills.len() - 1] == k);
            }
        }
    }
}

proof fn lemma_stretch_stays(f: FightV, fewer: Seq<Kill>, kills: Seq<Kill>, from: int)
    requires
        kills.len() > 0,
        fewer == kills.drop_last(),
        is_stretch(f, fewer, from),
    ensures
        is_stretch(f, kills, from),
{
    assert forall|m: int| 0 < m < fewer.len() implies #[trigger] pause(kills, m) == pause(
        fewer,
        m,
    ) by {}
}

proof fn lemma_stretch_grows(f: FightV, fewer: Seq<Kill>, kills: Seq<Kill>, from: int)
    requires
        kills.len() > 0,
        fewer == kills.drop_last(),
        is_stretch(f, fewer, from),
        from + f.kills.len() == fewer.len(),
        kills.last().t - f.end <= 20_000,
    ensures
        is_stretch(
            FightV { start: f.start, end: kills.last().t, kills: f.kills.push(kills.last().team) },
            kills,
            from,
        ),
{
    lemma_stretch_stays(f, fewer, kills, from);
    let g = FightV {
        start: f.start,
        end: kills.last().t,
        kills: f.kills.push(kills.last().team),
    };
    assert forall|m: int| from < m < from + g.kills.len() implies #[trigger] pause(kills, m)
        <= 20_000 by {
        if m == kills.len() - 1 {
            assert(kills[m - 1] == fewer[m - 1]);
        }
    }
}

/// How many kills of a fight a team got.
pub open spec fn score(f: FightV, team: i32) -> nat {
    seqs::count_where(f.kills, |t: i32| t == team)
}

/// A fight is won by the team that got at least two kills more than the other,
/// which got at most one; and by no one else.
pub proof fn lemma_winner(f: FightV)
    ensures
        f.won_by() == Some(100i32) <==> score(f, 100) >= score(f, 200) + 2 && score(f, 200) <= 1,
        f.won_by() == Some(200i32) <==> score(f, 200) >= score(f, 100) + 2 && score(f, 100) <= 1,
        f.won_by() matches Some(team) ==> team == 100 || team == 200,
{
    seqs::lemma_same_condition(f.kills, |t: i32| t == 100, moments::is_team(100));
    seqs::lemma_same_condition(f.kills, |t: i32| t == 200, moments::is_team(200));
}

/// A won fight is told from its winner's side: their kills first, the other
/// team's after, with the times of the fight.
pub proof fn lemma_won_fight(f: FightV)
    ensures
        match moments::won_fight(f) {
            Some(w) => {
                &&& f.won_by() == Some(w.team)
                &&& w.start == f.start
                &&& w.end == f.end
                &&& w.won == score(f, w.team)
                &&& w.lost == score(f, (300 - w.team) as i32)
                &&& w.won >= w.lost + 2
                &&& w.converting is None
            },
            None => f.won_by() is None,
        },
{
    lemma_winner(f);
    seqs::lemma_same_condition(f.kills, |t: i32| t == 100, moments::is_team(100));
    seqs::lemma_same_condition(f.kills, |t: i32| t == 200, moments::is_team(200));
}

/// The won fights are exactly those of the fights that somebody won.
pub proof fn lemma_won_fights(fights: Seq<FightV>)
    ensures
        moments::won_fights(fights).len() == seqs::count_where(
            fights,
            |f: FightV| f.won_by() is Some,
        ),
        forall|i: int|
            0 <= i < fights.len() && (#[trigger] fights[i]).won_by() is Some ==> moments::won_fights(
                fights,
            ).contains(moments::won_fight(fights[i])->Some_0),
        forall|i: int|
            0 <= i < moments::won_fights(fights).len() ==> exists|j: int|
                0 <= j < fights.len() && moments::won_fight(#[trigger] fights[j]) == Some(
                    #[trigger] moments::won_fights(fights)[i],
                ),
    decreases fights.len(),
{
    if fights.len() > 0 {
        let fewer = fights.drop_last();
        lemma_won_fights(fewer);
        lemma_won_fight(fights.last());
        let before = moments::won_fights(fewer);
        let now = moments::won_fights(fights);
        assert forall|i: int|
            0 <= i < fights.len() && (#[trigger] fights[i]).won_by() is Some implies now.contains(
            moments::won_fight(fights[i])->Some_0,
        ) by {
            let w = moments::won_fight(fights[i])->Some_0;
            if i < fewer.len() {
                assert(fewer[i] == fights[i]);
                assert(before.contains(w));
                let j = choose|j: int| 0 <= j < before.len() && before[j] == w;
                assert(now[j] == w);
            } else {
                assert(now[now.len() - 1] == w);
            }
        }
        assert forall|i: int| 0 <= i < now.len() implies exists|j: int|
            0 <= j < fights.len() && moments::won_fight(#[trigger] fights[j]) == Some(
                #[trigger] now[i],
            ) by {
            if i < before.len() {
                assert(before[i] == now[i]);
                let j = choose|j: int|
                    0 <= j < fewer.len() && moments::won_fight(#[trigger] fewer[j]) == Some(
                        before[i],
                    );
                assert(fights[j] == fewer[j]);
            } else {
                assert(fights[fights.len() - 1] == fights.last());
            }
        }
    }
}

/// The kills of the two teams, in order, each with its time and its team.
pub proof fn lemma_team_kills(kills: Seq<KillV>)
    ensures
        ({
            let own = seqs::keep(kills, |k: KillV| k.killer_team == 100 || k.killer_team == 200);
            &&& moments::team_kills(kills).len() == own.len()
            &&& forall|i: int|
                0 <= i < own.len() ==> (#[trigger] moments::team_kills(kills)[i]).t == own[i].t
                    && moments::team_kills(kills)[i].team == own[i].killer_team
        }),
    decreases kills.len(),
{
    if kills.len() > 0 {
        lemma_team_kills(kills.drop_last());
    }
}

// --- what came of a fight ----------------------------------------------------

/// Whether an objective can have come of a fight that has none yet: the same
/// team took it, no sooner than the fight began and no later than 90 seconds
/// after it ended.
pub open spec fn open_to(f: WonV, o: ObjectiveV) -> bool {
    &&& f.team == o.team
    &&& f.converting is None
    &&& f.start <= o.t
    &&& o.t <= f.end + 90_000
}

/// An objective goes to the nearest of the fights it can have come of: where
/// there is one, exactly one fight gets it, which ended no sooner than any
/// other, the last of equals; where there is none, no fight changes.
pub proof fn lemma_objectives_go_to_the_nearest_fight(
    won: Seq<WonV>,
    objectives: Seq<ObjectiveV>,
    k: int,
)
    requires
        0 <= k < objectives.len(),
    ensures
        ({
            let before = moments::attributed(won, objectives.take(k));
            let after = moments::attributed(won, objectives.take(k + 1));
            let o = objectives[k];
            &&& after.len() == before.len()
            &&& (exists|j: int| 0 <= j < before.len() && open_to(#[trigger] before[j], o)) ==> exists|
                i: int,
            |
                0 <= i < before.len() && open_to(before[i], o) && #[trigger] after[i] == (WonV {
                    converting: Some((o.label, o.t)),
                    ..before[i]
                })
            &&& forall|i: int|
                #![trigger after[i]]
                0 <= i < before.len() && after[i] != before[i] ==> {
                    &&& open_to(before[i], o)
                    &&& after[i].converting == Some((o.label, o.t))
                    &&& forall|j: int|
                        0 <= j < before.len() && open_to(#[trigger] before[j], o) ==> before[j].end
                            <= before[i].end && (i < j ==> before[j].end < before[i].end)
                    &&& forall|j: int|
                        0 <= j < before.len() && j != i ==> #[trigger] after[j] == before[j]
                }
        }),
{
    let before = moments::attributed(won, objectives.take(k));
    let after = moments::attributed(won, objectives.take(k + 1));
    let o = objectives[k];
    assert(objectives.take(k + 1).drop_last() =~= objectives.take(k));
    assert(objectives.take(k + 1).last() == o);
    assert(after == moments::attribute(before, o));
    let p = moments::can_claim(o.team, o.t);
    moments::lemma_last_max(before, p, moments::fight_end());
    assert forall|j: int| 0 <= j < before.len() implies open_to(#[trigger] before[j], o) == p(
        before[j],
    ) by {}
    if let Some(i) = moments::claimant(before, o) {
        assert(open_to(before[i], o));
        assert(after[i] == (WonV { converting: Some((o.label, o.t)), ..before[i] }));
        assert forall|j: int| 0 <= j < before.len() && open_to(#[trigger] before[j], o) implies before[j].end
            <= before[i].end && (i < j ==> before[j].end < before[i].end) by {
            assert(p(before[j]));
            assert(moments::fight_end()(before[j]) <= moments::fight_end()(before[i]));
        }
    }
}

/// The moment of a won fight: when it ended, who won it, and whether it was
/// cashed into an objective, which the summary then names.
pub proof fn lemma_fight_moments(kills: Seq<KillV>, objectives: Seq<ObjectiveV>, i: int)
    requires
        0 <= i < moments::conversions(kills, objectives).len(),
    ensures
        ({
            let f = moments::attributed(
                moments::won_fights(moments::fights_of(moments::team_kills(kills))),
                objectives,
            )[i];
            let m = moments::conversions(kills, objectives)[i];
            &&& m.t_ms == f.end
            &&& m.kind == (MomentKind::FightConversion {
                team: f.team,
                converted: f.converting is Some,
            })
            &&& f.team == 100 ==> "Blue side won a "@.is_prefix_of(m.summary)
            &&& f.team == 200 ==> "Red side won a "@.is_prefix_of(m.summary)
            &&& f.converting matches Some((label, t)) ==> (" and converted it into "@ + label
                + " at "@ + text::clock(t as int)).is_suffix_of(m.summary)
            &&& f.converting is None ==> " but took no objective from it"@.is_suffix_of(m.summary)
            &&& m.evidence[0] == "fight "@ + text::digits(f.won) + "-"@ + text::digits(f.lost)
                + " ("@ + text::clock(f.start as int) + "–"@ + text::clock(f.end as int) + ")"@
            &&& f.converting matches Some((label, t)) ==> m.evidence.len() == 2 && m.evidence[1]
                == label + " at "@ + text::clock(t as int)
            &&& f.converting is None ==> m.evidence.len() == 1
        }),
{
    let f = moments::attributed(
        moments::won_fights(moments::fights_of(moments::team_kills(kills))),
        objectives,
    )[i];
    let m = moments::conversions(kills, objectives)[i];
    assert(m == moments::fight_moment(f));
    let score = text::digits(f.won) + "-"@ + text::digits(f.lost) + " fight at "@ + text::clock(
        f.end as int,
    );
    reveal_strlit("Blue side");
    reveal_strlit("Red side");
    reveal_strlit(" won a ");
    reveal_strlit("Blue side won a ");
    reveal_strlit("Red side won a ");
    assert("Blue side won a "@ =~= "Blue side"@ + " won a "@);
    assert("Red side won a "@ =~= "Red side"@ + " won a "@);
    let opener = moments::side_text(f.team) + " won a "@ + score;
    match f.converting {
        Some((label, t)) => {
            let tail = " and converted it into "@ + label + " at "@ + text::clock(t as int);
            assert(m.summary =~= opener + tail);
            assert(m.summary.subrange(m.summary.len() - tail.len(), m.summary.len() as int)
                =~= tail);
        },
        None => {
            let tail = " but took no objective from it"@;
            assert(m.summary =~= opener + tail);
            assert(m.summary.subrange(m.summary.len() - tail.len(), m.summary.len() as int)
                =~= tail);
        },
    }
}

// --- the player's deaths -----------------------------------------------------

/// Whether a death was traded: the player's team got a kill between three
/// seconds before it and ten seconds after it, near the place of it.
pub open spec fn traded(kills: Seq<KillV>, near: Seq<Seq<bool>>, i: int, pteam: i32) -> bool {
    exists|a: int|
        #![trigger kills[a]]
        {
            &&& 0 <= a < kills.len()
            &&& kills[a].killer_team == pteam
            &&& kills[i].t - 3_000 <= kills[a].t
            &&& kills[a].t <= kills[i].t + 10_000
            &&& 0 <= i < near.len()
            &&& a < near[i].len()
            &&& near[i][a]
        }
}

/// A team answered a death exactly if it was traded.
pub proof fn lemma_traded(kills: Seq<KillV>, near: Seq<Seq<bool>>, i: int, pteam: i32)
    ensures
        candidates::answered(kills, pteam, kills[i].t as int, highlights::row(near, i)) == traded(
            kills,
            near,
            i,
            pteam,
        ),
{
    let row = highlights::row(near, i);
    if traded(kills, near, i, pteam) {
        let a = choose|a: int|
            #![trigger kills[a]]
            {
                &&& 0 <= a < kills.len()
                &&& kills[a].killer_team == pteam
                &&& kills[i].t - 3_000 <= kills[a].t
                &&& kills[a].t <= kills[i].t + 10_000
                &&& 0 <= i < near.len()
                &&& a < near[i].len()
                &&& near[i][a]
            };
        assert(candidates::close(row, a));
    }
    if candidates::answered(kills, pteam, kills[i].t as int, row) {
        let a = choose|a: int|
            #![trigger kills[a]]
            0 <= a < kills.len() && kills[a].killer_team == pteam && kills[i].t - 3_000
                <= kills[a].t <= kills[i].t + 10_000 && candidates::close(row, a);
        assert(kills[a].killer_team == pteam);
    }
}

/// Whether a moment tells of the death `kills[i]`: when it was, who did it, and
/// whether it was free.
pub open spec fn tells_death(
    m: MomentV,
    kills: Seq<KillV>,
    near: Seq<Seq<bool>>,
    i: int,
    pteam: i32,
    game: GameV,
) -> bool {
    &&& m.t_ms == kills[i].t
    &&& m.kind == (MomentKind::Death { free: !traded(kills, near, i, pteam) })
    &&& ("You died to "@ + game.champion(kills[i].killer) + " at "@ + text::clock(
        kills[i].t as int,
    )).is_prefix_of(m.summary)
    &&& if traded(kills, near, i, pteam) {
        " — a trade"@.is_suffix_of(m.summary)
    } else {
        " with no trade (a free death)"@.is_suffix_of(m.summary)
    }
}

proof fn lemma_death_is_told(
    kills: Seq<KillV>,
    near: Seq<Seq<bool>>,
    spots: Seq<Seq<char>>,
    i: int,
    pteam: i32,
    game: GameV,
)
    ensures
        tells_death(
            moments::death_moment(kills, near, spots, i, pteam, game),
            kills,
            near,
            i,
            pteam,
            game,
        ),
{
    lemma_traded(kills, near, i, pteam);
    let m = moments::death_moment(kills, near, spots, i, pteam, game);
    let opener = "You died to "@ + game.champion(kills[i].killer) + " at "@ + text::clock(
        kills[i].t as int,
    );
    let tail = if traded(kills, near, i, pteam) {
        " — a trade"@
    } else {
        " with no trade (a free death)"@
    };
    assert(m.summary =~= opener + tail);
    assert(m.summary.subrange(0, opener.len() as int) =~= opener);
    assert(m.summary.subrange(m.summary.len() - tail.len(), m.summary.len() as int) =~= tail);
}

/// Every death of the player among the first `n` kills has its moment, no other
/// kill has one, and they come in order.
pub proof fn lemma_deaths_are_told(
    kills: Seq<KillV>,
    near: Seq<Seq<bool>>,
    spots: Seq<Seq<char>>,
    n: int,
    pid: i32,
    pteam: i32,
    game: GameV,
)
    requires
        0 <= n <= kills.len(),
    ensures
        ({
            let told = moments::deaths_upto(kills, near, spots, n, pid, pteam, game);
            &&& told.len() == seqs::count_where(kills.take(n), |k: KillV| k.victim == pid)
            &&& forall|i: int|
                0 <= i < n && (#[trigger] kills[i]).victim == pid ==> tells_death(
                    told[seqs::count_where(kills.take(i), |k: KillV| k.victim == pid) as int],
                    kills,
                    near,
                    i,
                    pteam,
                    game,
                )
        }),
    decreases n,
{
    let dies = |k: KillV| k.victim == pid;
    if n > 0 {
        lemma_deaths_are_told(kills, near, spots, n - 1, pid, pteam, game);
        lemma_death_is_told(kills, near, spots, n - 1, pteam, game);
        let before = moments::deaths_upto(kills, near, spots, n - 1, pid, pteam, game);
        let told = moments::deaths_upto(kills, near, spots, n, pid, pteam, game);
        assert(kills.take(n).drop_last() =~= kills.take(n - 1));
        assert(kills.take(n).last() == kills[n - 1]);
        assert forall|i: int| 0 <= i < n && (#[trigger] kills[i]).victim == pid implies tells_death(
            told[seqs::count_where(kills.take(i), dies) as int],
            kills,
            near,
            i,
            pteam,
            game,
        ) by {
            let at = seqs::count_where(kills.take(i), dies) as int;
            if i < n - 1 {
                lemma_count_grows(kills, i, n - 1, dies);
                assert(told[at] == before[at]);
            }
        }
    } else {
        assert(kills.take(0) =~= seq![]);
    }
}

/// An item that counts is counted after the items before it.
proof fn lemma_count_grows<A>(s: Seq<A>, i: int, n: int, p: spec_fn(A) -> bool)
    requires
        0 <= i < n <= s.len(),
        p(s[i]),
    ensures
        seqs::count_where(s.take(i), p) < seqs::count_where(s.take(n), p),
    decreases n - i,
{
    assert(s.take(n).drop_last() =~= s.take(n - 1));
    assert(s.take(n).last() == s[n - 1]);
    if i < n - 1 {
        lemma_count_grows(s, i, n - 1, p);
    }
}

// --- what the game had in common ---------------------------------------------

/// How many of the player's deaths one enemy accounts for.
pub open spec fn deaths_to(kills: Seq<KillV>, pid: i32, killer: i32) -> nat {
    seqs::count_where(kills, |k: KillV| k.victim == pid && k.killer == killer)
}

/// How often the player died.
pub open spec fn deaths_of(kills: Seq<KillV>, pid: i32) -> nat {
    seqs::count_where(kills, |k: KillV| k.victim == pid)
}

proof fn lemma_top_killer(deaths: Seq<KillV>, n: nat)
    requires
        n <= deaths.len(),
    ensures
        ({
            let (killer, count) = moments::top_killer(deaths, n);
            &&& count > 0 ==> count == seqs::count_where(deaths, candidates::killed_by(killer))
            &&& forall|i: int|
                0 <= i < n ==> seqs::count_where(
                    deaths,
                    candidates::killed_by((#[trigger] deaths[i]).killer),
                ) <= count
        }),
    decreases n,
{
    if n > 0 {
        lemma_top_killer(deaths, (n - 1) as nat);
    }
}

/// A player has a nemesis exactly if they died at least three times and one
/// enemy accounts for more than half of that; the moment names the enemy who
/// does, and stands at the player's last death.
pub proof fn lemma_nemesis(kills: Seq<KillV>, pid: i32, game: GameV)
    ensures
        moments::nemesis(kills, pid, game) is Some <==> deaths_of(kills, pid) >= 3 && exists|
            killer: i32,
        |
            #[trigger] deaths_to(kills, pid, killer) * 2 > deaths_of(kills, pid),
        moments::nemesis(kills, pid, game) matches Some(m) ==> {
            &&& m.kind == MomentKind::Nemesis
            &&& exists|i: int|
                0 <= i < kills.len() && (#[trigger] kills[i]).victim == pid && kills[i].t == m.t_ms
            &&& forall|i: int|
                0 <= i < kills.len() && (#[trigger] kills[i]).victim == pid ==> kills[i].t <= m.t_ms
            &&& forall|killer: i32|
                #[trigger] deaths_to(kills, pid, killer) * 2 > deaths_of(kills, pid) ==> m.summary
                    == game.champion(killer) + " was your nemesis — "@ + text::digits(
                    deaths_to(kills, pid, killer),
                ) + " of your "@ + text::digits(deaths_of(kills, pid)) + " deaths"@
        },
{
    let dies = candidates::death_of(pid);
    let deaths = seqs::keep(kills, dies);
    seqs::lemma_keep(kills, dies);
    seqs::lemma_same_condition(kills, dies, |k: KillV| k.victim == pid);
    assert(deaths.len() == deaths_of(kills, pid));
    assert forall|killer: i32| #[trigger] deaths_to(kills, pid, killer) == seqs::count_where(
        deaths,
        candidates::killed_by(killer),
    ) by {
        seqs::lemma_count_kept(kills, dies, candidates::killed_by(killer));
        seqs::lemma_same_condition(
            kills,
            |k: KillV| dies(k) && candidates::killed_by(killer)(k),
            |k: KillV| k.victim == pid && k.killer == killer,
        );
    }
    lemma_top_killer(deaths, deaths.len());
    let (top, count) = moments::top_killer(deaths, deaths.len());
    assert forall|killer: i32| deaths_to(kills, pid, killer) > 0 implies #[trigger] deaths_to(
        kills,
        pid,
        killer,
    ) <= count by {
        let p = candidates::killed_by(killer);
        seqs::lemma_count_any(deaths, p);
        let i = choose|i: int| 0 <= i < deaths.len() && p(#[trigger] deaths[i]);
        assert(deaths[i].killer == killer);
    }
    if count > 0 {
        assert(deaths_to(kills, pid, top) == count);
    }
    assert forall|killer: i32|
        killer != top && count * 2 > deaths.len() implies #[trigger] deaths_to(kills, pid, killer)
        * 2 <= deaths.len() by {
        lemma_two_counts(deaths, candidates::killed_by(killer), candidates::killed_by(top));
        assert(deaths_to(kills, pid, top) == count);
    }
    if let Some(m) = moments::nemesis(kills, pid, game) {
        seqs::lemma_max_of(deaths, moments::kill_time());
        let j = choose|j: int|
            0 <= j < deaths.len() && moments::kill_time()(#[trigger] deaths[j]) == m.t_ms;
        assert(kills.contains(deaths[j]));
        let i = choose|i: int| 0 <= i < kills.len() && kills[i] == deaths[j];
        assert(kills[i].victim == pid && kills[i].t == m.t_ms);
        assert forall|i: int| 0 <= i < kills.len() && (#[trigger] kills[i]).victim == pid implies kills[i].t
            <= m.t_ms by {
            assert(dies(kills[i]));
            let j = choose|j: int| 0 <= j < deaths.len() && deaths[j] == kills[i];
            assert(moments::kill_time()(deaths[j]) <= m.t_ms);
        }
    }
}

/// Items that cannot satisfy both conditions are counted once at most.
proof fn lemma_two_counts<A>(s: Seq<A>, p: spec_fn(A) -> bool, q: spec_fn(A) -> bool)
    requires
        forall|x: A| !(#[trigger] p(x) && q(x)),
    ensures
        seqs::count_where(s, p) + seqs::count_where(s, q) <= s.len(),
    decreases s.len(),
{
    if s.len() > 0 {
        lemma_two_counts(s.drop_last(), p, q);
    }
}

/// Whether an objective is a dragon, the Baron or the Herald.
pub open spec fn is_large(o: ObjectiveV) -> bool {
    o.monster == Monster::Dragon || o.monster == Monster::Baron || o.monster == Monster::Herald
}

/// The player was absent exactly if the game had at least three dragons,
/// Barons and Heralds and they took part in none of them.
pub proof fn lemma_absence(objectives: Seq<ObjectiveV>, pid: i32)
    ensures
        moments::absence(objectives, pid) is Some <==> {
            &&& seqs::count_where(objectives, |o: ObjectiveV| is_large(o)) >= 3
            &&& forall|i: int|
                0 <= i < objectives.len() && is_large(#[trigger] objectives[i])
                    ==> !objectives[i].participants.contains(pid)
        },
        moments::absence(objectives, pid) matches Some(m) ==> {
            &&& m.kind == MomentKind::ObjectiveAbsence
            &&& exists|i: int|
                0 <= i < objectives.len() && is_large(#[trigger] objectives[i]) && objectives[i].t
                    == m.t_ms
            &&& forall|i: int|
                0 <= i < objectives.len() && is_large(#[trigger] objectives[i]) ==> objectives[i].t
                    <= m.t_ms
            &&& m.summary == "You took part in none of the "@ + text::digits(
                seqs::count_where(objectives, |o: ObjectiveV| is_large(o)),
            ) + " major objectives (dragons/Baron/Herald)"@
        },
{
    let p = moments::is_major();
    let majors = seqs::keep(objectives, p);
    seqs::lemma_same_condition(objectives, p, |o: ObjectiveV| is_large(o));
    seqs::lemma_keep(objectives, p);
    let there = |o: ObjectiveV| o.participants.contains(pid);
    assert forall|i: int| 0 <= i < objectives.len() && is_large(#[trigger] objectives[i]) implies exists|
        j: int,
    |
        0 <= j < majors.len() && #[trigger] majors[j] == objectives[i] by {
        assert(p(objectives[i]));
        assert(majors.contains(objectives[i]));
        let j = choose|j: int| 0 <= j < majors.len() && majors[j] == objectives[i];
        assert(majors[j] == objectives[i]);
    }
    if seqs::any(majors, there) {
        let j = choose|j: int| 0 <= j < majors.len() && there(#[trigger] majors[j]);
        assert(objectives.contains(majors[j]));
        let i = choose|i: int| 0 <= i < objectives.len() && objectives[i] == majors[j];
        assert(is_large(objectives[i]));
    } else {
        assert forall|i: int| 0 <= i < objectives.len() && is_large(#[trigger] objectives[i]) implies !objectives[i].participants.contains(
        pid) by {
            let j = choose|j: int| 0 <= j < majors.len() && #[trigger] majors[j] == objectives[i];
            assert(!there(majors[j]));
        }
    }
    if let Some(m) = moments::absence(objectives, pid) {
        lemma_last_take(objectives, p);
        let i = choose|i: int|
            0 <= i < objectives.len() && p(#[trigger] objectives[i]) && objectives[i].t == m.t_ms;
        assert(is_large(objectives[i]));
        assert forall|i: int| 0 <= i < objectives.len() && is_large(#[trigger] objectives[i]) implies objectives[i].t
            <= m.t_ms by {
            assert(p(objectives[i]));
        }
    }
}

proof fn lemma_last_take(objectives: Seq<ObjectiveV>, p: spec_fn(ObjectiveV) -> bool)
    requires
        seqs::keep(objectives, p).len() > 0,
    ensures
        ({
            let t = moments::last_take(seqs::keep(objectives, p));
            &&& exists|i: int|
                0 <= i < objectives.len() && p(#[trigger] objectives[i]) && objectives[i].t == t
            &&& forall|i: int|
                0 <= i < objectives.len() && p(#[trigger] objectives[i]) ==> objectives[i].t <= t
        }),
{
    let kept = seqs::keep(objectives, p);
    let t = moments::last_take(kept);
    seqs::lemma_keep(objectives, p);
    seqs::lemma_max_of(kept, moments::take_time());
    let j = choose|j: int| 0 <= j < kept.len() && moments::take_time()(#[trigger] kept[j]) == t;
    assert(objectives.contains(kept[j]));
    let i = choose|i: int| 0 <= i < objectives.len() && objectives[i] == kept[j];
    assert(p(objectives[i]) && objectives[i].t == t);
    assert forall|i: int| 0 <= i < objectives.len() && p(#[trigger] objectives[i]) implies objectives[i].t
        <= t by {
        assert(kept.contains(objectives[i]));
        let j = choose|j: int| 0 <= j < kept.len() && kept[j] == objectives[i];
        assert(moments::take_time()(kept[j]) <= t);
    }
}

/// Whether a team took every dragon.
pub open spec fn took_every_dragon(objectives: Seq<ObjectiveV>, team: i32) -> bool {
    forall|i: int|
        0 <= i < objectives.len() && (#[trigger] objectives[i]).monster == Monster::Dragon
            ==> objectives[i].team == team
}

/// One team monopolized the dragons exactly if there were at least three and
/// it took every one of them; the moment names the team, and stands at the last
/// dragon.
pub proof fn lemma_monopoly(objectives: Seq<ObjectiveV>)
    ensures
        moments::monopoly(objectives) is Some <==> {
            &&& seqs::count_where(objectives, |o: ObjectiveV| o.monster == Monster::Dragon) >= 3
            &&& exists|team: i32| #[trigger] took_every_dragon(objectives, team)
        },
        moments::monopoly(objectives) matches Some(m) ==> {
            &&& exists|i: int|
                0 <= i < objectives.len() && (#[trigger] objectives[i]).monster == Monster::Dragon
                    && objectives[i].t == m.t_ms
            &&& forall|i: int|
                0 <= i < objectives.len() && (#[trigger] objectives[i]).monster == Monster::Dragon
                    ==> objectives[i].t <= m.t_ms
            &&& forall|team: i32| #[trigger]
                took_every_dragon(objectives, team) ==> {
                    &&& m.kind == (MomentKind::DragonMonopoly { team })
                    &&& team == 100 ==> "Blue side monopolized the dragons"@.is_prefix_of(m.summary)
                    &&& team == 200 ==> "Red side monopolized the dragons"@.is_prefix_of(m.summary)
                }
            &&& (" — all "@ + text::digits(
                seqs::count_where(objectives, |o: ObjectiveV| o.monster == Monster::Dragon),
            ) + " of them"@).is_suffix_of(m.summary)
        },
{
    let p = moments::is_dragon();
    let dragons = seqs::keep(objectives, p);
    seqs::lemma_same_condition(
        objectives,
        p,
        |o: ObjectiveV| o.monster == Monster::Dragon,
    );
    seqs::lemma_keep(objectives, p);
    assert forall|team: i32| dragons.len() > 0 implies #[trigger] took_every_dragon(
        objectives,
        team,
    ) == (forall|j: int| 0 <= j < dragons.len() ==> (#[trigger] dragons[j]).team == team) by {
        lemma_dragons(objectives, team);
    }
    if let Some(m) = moments::monopoly(objectives) {
        lemma_last_take(objectives, p);
        let i = choose|i: int|
            0 <= i < objectives.len() && p(#[trigger] objectives[i]) && objectives[i].t == m.t_ms;
        assert(objectives[i].monster == Monster::Dragon);
        assert forall|i: int|
            0 <= i < objectives.len() && (#[trigger] objectives[i]).monster
                == Monster::Dragon implies objectives[i].t <= m.t_ms by {
            assert(p(objectives[i]));
        }
        assert(took_every_dragon(objectives, dragons[0].team));
        assert forall|team: i32| #[trigger] took_every_dragon(objectives, team) implies team
            == dragons[0].team by {}
        lemma_monopoly_text(dragons[0].team, dragons.len());
    } else if dragons.len() >= 3 {
        assert forall|team: i32| !#[trigger] took_every_dragon(objectives, team) by {
            if took_every_dragon(objectives, team) {
                let j = choose|j: int|
                    0 <= j < dragons.len() && (#[trigger] dragons[j]).team != dragons[0].team;
                assert(dragons[0].team == team);
            }
        }
    }
}

proof fn lemma_dragons(objectives: Seq<ObjectiveV>, team: i32)
    ensures
        ({
            let dragons = seqs::keep(objectives, moments::is_dragon());
            took_every_dragon(objectives, team) == (forall|j: int|
                0 <= j < dragons.len() ==> (#[trigger] dragons[j]).team == team)
        }),
{
    let p = moments::is_dragon();
    let dragons = seqs::keep(objectives, p);
    seqs::lemma_keep(objectives, p);
    if took_every_dragon(objectives, team) {
        assert forall|j: int| 0 <= j < dragons.len() implies (#[trigger] dragons[j]).team == team by {
            assert(p(dragons[j]) && objectives.contains(dragons[j]));
            let i = choose|i: int| 0 <= i < objectives.len() && objectives[i] == dragons[j];
            assert(objectives[i].monster == Monster::Dragon);
        }
    }
    if forall|j: int| 0 <= j < dragons.len() ==> (#[trigger] dragons[j]).team == team {
        assert forall|i: int|
            0 <= i < objectives.len() && (#[trigger] objectives[i]).monster
                == Monster::Dragon implies objectives[i].team == team by {
            assert(p(objectives[i]));
            assert(dragons.contains(objectives[i]));
            let j = choose|j: int| 0 <= j < dragons.len() && dragons[j] == objectives[i];
            assert(dragons[j].team == team);
        }
    }
}

proof fn lemma_monopoly_text(team: i32, n: nat)
    ensures
        ({
            let summary = moments::side_text(team) + " monopolized the dragons — all "@
                + text::digits(n) + " of them"@;
            &&& team == 100 ==> "Blue side monopolized the dragons"@.is_prefix_of(summary)
            &&& team == 200 ==> "Red side monopolized the dragons"@.is_prefix_of(summary)
            &&& (" — all "@ + text::digits(n) + " of them"@).is_suffix_of(summary)
        }),
{
    reveal_strlit("Blue side monopolized the dragons");
    reveal_strlit("Red side monopolized the dragons");
    reveal_strlit("Blue side");
    reveal_strlit("Red side");
    reveal_strlit(" monopolized the dragons — all ");
    reveal_strlit(" — all ");
    let start = " monopolized the dragons — all "@.subrange(0, 24);
    assert(" monopolized the dragons — all "@ =~= start + " — all "@);
    assert("Blue side monopolized the dragons"@ =~= "Blue side"@ + start);
    assert("Red side monopolized the dragons"@ =~= "Red side"@ + start);
    let side = moments::side_text(team);
    let tail = " — all "@ + text::digits(n) + " of them"@;
    let summary = side + " monopolized the dragons — all "@ + text::digits(n) + " of them"@;
    assert(summary =~= side + start + tail);
    assert(summary.subrange(0, (side + start).len() as int) =~= side + start);
    assert(summary.subrange(summary.len() - tail.len(), summary.len() as int) =~= tail);
}

// --- the whole analysis ------------------------------------------------------

/// The analysis holds every moment that was found: those of the fights and the
/// dragons whoever is asked about, and those of the player, where they played.
pub proof fn lemma_analysis_holds_all(
    game: GameV,
    tl: TimelineV,
    near: Seq<Seq<bool>>,
    spots: Seq<Seq<char>>,
    puuid: Seq<char>,
    m: MomentV,
)
    ensures
        moments::analysis(game, tl, near, spots, puuid).contains(m) <==> {
            ||| moments::conversions(tl.kills, tl.objectives).contains(m)
            ||| moments::monopoly(tl.objectives) == Some(m)
            ||| game.player(puuid) matches Some(player) && {
                ||| moments::deaths_upto(
                    tl.kills,
                    near,
                    spots,
                    tl.kills.len() as int,
                    player.participant_id,
                    game::side_of(player.team_id),
                    game,
                ).contains(m)
                ||| moments::nemesis(tl.kills, player.participant_id, game) == Some(m)
                ||| moments::absence(tl.objectives, player.participant_id) == Some(m)
            }
        },
{
    let list = moments::found(game, tl, near, spots, puuid);
    seqs::lemma_sort_contains(list, moments::moment_earlier(), m);
    let fights = moments::conversions(tl.kills, tl.objectives);
    match game.player(puuid) {
        Some(player) => {
            let pid = player.participant_id;
            let deaths = moments::deaths_upto(
                tl.kills,
                near,
                spots,
                tl.kills.len() as int,
                pid,
                game::side_of(player.team_id),
                game,
            );
            lemma_joined(fights, deaths, m);
            lemma_with(fights + deaths, moments::nemesis(tl.kills, pid, game), m);
            let more = moments::with_moment(
                fights + deaths,
                moments::nemesis(tl.kills, pid, game),
            );
            lemma_with(more, moments::absence(tl.objectives, pid), m);
            lemma_with(
                moments::with_moment(more, moments::absence(tl.objectives, pid)),
                moments::monopoly(tl.objectives),
                m,
            );
        },
        None => {
            lemma_with(fights, moments::monopoly(tl.objectives), m);
        },
    }
}

proof fn lemma_joined(a: Seq<MomentV>, b: Seq<MomentV>, m: MomentV)
    ensures
        (a + b).contains(m) <==> a.contains(m) || b.contains(m),
{
    if a.contains(m) {
        let i = choose|i: int| 0 <= i < a.len() && a[i] == m;
        assert((a + b)[i] == m);
    }
    if b.contains(m) {
        let i = choose|i: int| 0 <= i < b.len() && b[i] == m;
        assert((a + b)[a.len() + i] == m);
    }
}

proof fn lemma_with(list: Seq<MomentV>, one: Option<MomentV>, m: MomentV)
    ensures
        moments::with_moment(list, one).contains(m) <==> list.contains(m) || one == Some(m),
{
    if let Some(x) = one {
        lemma_joined(list, seq![x], m);
        assert(list.push(x) =~= list + seq![x]);
        assert(seq![x].contains(m) <==> x == m) by {
            assert(seq![x][0] == x);
        }
    }
}

/// Moments of one time stay in the order in which they are found: fights before
/// the player's own, the dragons last.
pub proof fn lemma_moments_of_one_time(
    game: GameV,
    tl: TimelineV,
    near: Seq<Seq<bool>>,
    spots: Seq<Seq<char>>,
    puuid: Seq<char>,
    t: i64,
)
    ensures
        seqs::keep(
            moments::analysis(game, tl, near, spots, puuid),
            |m: MomentV| m.t_ms == t,
        ) == seqs::keep(moments::found(game, tl, near, spots, puuid), |m: MomentV| m.t_ms == t),
{
    seqs::lemma_sort_stable(
        moments::found(game, tl, near, spots, puuid),
        moments::moment_earlier(),
        |m: MomentV| m.t_ms == t,
    );
}

} // verus!
