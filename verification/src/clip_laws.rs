//! What the clip candidates are for: which play a window shows, what a fight or
//! a death was, and what each of its sides is worth.

use vstd::prelude::*;

use crate::candidates::{self, CandidateV, PickV, ScoreV};
use crate::game::{GameV, ParticipantV};
use crate::highlights::{self, StoryV};
use crate::lowlights::{self, DeathV};
use crate::timeline::{KillV, Monster, ObjectiveV, Special, TimelineV};
use crate::{game, moment_laws, picks, seqs, text, timeline};

verus! {

// --- windows -----------------------------------------------------------------

/// The window over the kills from `anchor` to `last` holds the last one and at
/// least five seconds after it, and lasts 32 seconds at most. Kills that span
/// less than 20 seconds are all in it, with seven seconds before the first one
/// as far as the game had begun; a longer span fills the cap, and its window
/// ends six seconds after the last kill, so that what is cut off is the
/// opening.
pub proof fn lemma_window_holds_the_payoff(anchor: int, last: int)
    requires
        0 <= anchor <= last,
    ensures
        ({
            let (seek, dur) = highlights::clip_window(anchor, last);
            &&& 0 <= seek <= last / 1000
            &&& seek + dur >= last / 1000 + 5
            &&& dur <= 32
            &&& last - anchor < 20_000 ==> {
                &&& seek <= anchor / 1000
                &&& seek == 0 || seek + 7 == anchor / 1000
                &&& seek == 0 ==> anchor / 1000 <= 7
                &&& dur == 7 + (last - anchor) / 1000 + 6
                &&& last / 1000 - anchor / 1000 == (last - anchor) / 1000 ==> seek + dur >= last
                    / 1000 + 6
            }
            &&& last - anchor >= 20_000 ==> {
                &&& dur == 32
                &&& seek + dur >= last / 1000 + 6
                &&& seek == 0 || seek + dur == last / 1000 + 6
            }
        }),
{
}

/// Whether the player killed or assisted.
pub open spec fn had_part(k: KillV, pid: i32) -> bool {
    k.killer == pid || k.assists.contains(pid)
}

/// Whether `a` and `b` are the first and the last of the kills `from..to` that
/// the player had a part in.
pub open spec fn own_ends(kills: Seq<KillV>, from: int, to: int, pid: i32, a: int, b: int) -> bool {
    &&& from <= a <= b < to
    &&& had_part(kills[a], pid)
    &&& had_part(kills[b], pid)
    &&& forall|i: int| from <= i < to && had_part(#[trigger] kills[i], pid) ==> a <= i <= b
}

proof fn lemma_keep_ends<A>(s: Seq<A>, p: spec_fn(A) -> bool) -> (r: (int, int))
    requires
        seqs::keep(s, p).len() > 0,
    ensures
        0 <= r.0 <= r.1 < s.len(),
        p(s[r.0]) && p(s[r.1]),
        seqs::keep(s, p)[0] == s[r.0],
        seqs::keep(s, p).last() == s[r.1],
        forall|i: int| 0 <= i < s.len() && p(#[trigger] s[i]) ==> r.0 <= i <= r.1,
    decreases s.len(),
{
    let t = s.drop_last();
    let n = s.len() - 1;
    assert forall|i: int| 0 <= i < n implies t[i] == #[trigger] s[i] by {}
    if p(s.last()) {
        if seqs::keep(t, p).len() > 0 {
            let (a, b) = lemma_keep_ends(t, p);
            (a, n)
        } else {
            seqs::lemma_keep(t, p);
            assert forall|i: int| 0 <= i < s.len() && p(#[trigger] s[i]) implies n <= i <= n by {
                if i < n {
                    assert(p(t[i]));
                    assert(seqs::keep(t, p).contains(t[i]));
                }
            }
            (n, n)
        }
    } else {
        lemma_keep_ends(t, p)
    }
}

/// A fight's candidate is about the player's own part in it: it stands at the
/// first kill that they had a part in, and its window is the one over their
/// first and their last. A fight they had no part in makes none.
pub proof fn lemma_fight_clip_shows_the_player(
    tl: TimelineV,
    near: Seq<Seq<bool>>,
    from: int,
    to: int,
    pid: i32,
    pteam: i32,
    ctx: ScoreV,
)
    requires
        0 <= from < to <= tl.kills.len(),
    ensures
        (forall|i: int| from <= i < to ==> !had_part(#[trigger] tl.kills[i], pid))
            ==> highlights::fight_clip(tl, near, from, to, pid, pteam, ctx) == Some(
            None::<CandidateV>,
        ),
        highlights::fight_clip(tl, near, from, to, pid, pteam, ctx) == Some(None::<CandidateV>)
            && (exists|i: int| from <= i < to && had_part(#[trigger] tl.kills[i], pid))
            ==> highlights::story_score(
            highlights::story(tl, near, from, to, pid, pteam, ctx),
        ) <= 0,
        highlights::fight_clip(tl, near, from, to, pid, pteam, ctx) matches Some(Some(c)) ==> {
            &&& c.score > 0
            &&& c.score == highlights::story_score(
                highlights::story(tl, near, from, to, pid, pteam, ctx),
            )
            &&& c.summary == highlights::story_text(
                highlights::story(tl, near, from, to, pid, pteam, ctx),
            )
            &&& exists|a: int, b: int|
                {
                    &&& #[trigger] own_ends(tl.kills, from, to, pid, a, b)
                    &&& c.t_ms == tl.kills[a].t
                    &&& 0 <= tl.kills[a].t <= tl.kills[b].t ==> {
                        &&& c.seek_s == highlights::clip_window(
                            tl.kills[a].t as int,
                            tl.kills[b].t as int,
                        ).0
                        &&& c.dur_s == highlights::clip_window(
                            tl.kills[a].t as int,
                            tl.kills[b].t as int,
                        ).1
                    }
                }
        },
{
    let fight = tl.kills.subrange(from, to);
    let p = highlights::involved(pid);
    let own = seqs::keep(fight, p);
    let s = highlights::story(tl, near, from, to, pid, pteam, ctx);
    seqs::lemma_keep(fight, p);
    seqs::lemma_keep(fight, candidates::killed_by(pid));
    seqs::lemma_count_any(fight, candidates::killed_by(pid));
    seqs::lemma_count_any(fight, candidates::assisted_by(pid));
    assert(s.kills == seqs::count_where(fight, candidates::killed_by(pid)));
    assert(s.assists == seqs::count_where(fight, candidates::assisted_by(pid)));
    if forall|i: int| from <= i < to ==> !had_part(#[trigger] tl.kills[i], pid) {
        assert forall|i: int| 0 <= i < fight.len() implies !had_part(#[trigger] fight[i], pid) by {
            assert(fight[i] == tl.kills[from + i]);
        }
        assert(!seqs::any(fight, candidates::killed_by(pid)));
        assert(!seqs::any(fight, candidates::assisted_by(pid)));
    }
    if exists|i: int| from <= i < to && had_part(#[trigger] tl.kills[i], pid) {
        let i = choose|i: int| from <= i < to && had_part(#[trigger] tl.kills[i], pid);
        assert(fight[i - from] == tl.kills[i]);
        if tl.kills[i].killer == pid {
            assert(candidates::killed_by(pid)(fight[i - from]));
        } else {
            assert(candidates::assisted_by(pid)(fight[i - from]));
        }
    }
    if let Some(Some(c)) = highlights::fight_clip(tl, near, from, to, pid, pteam, ctx) {
        if seqs::any(fight, candidates::killed_by(pid)) {
            let i = choose|i: int|
                0 <= i < fight.len() && candidates::killed_by(pid)(#[trigger] fight[i]);
            assert(p(fight[i]));
            assert(own.contains(fight[i]));
        } else {
            let i = choose|i: int|
                0 <= i < fight.len() && candidates::assisted_by(pid)(#[trigger] fight[i]);
            assert(p(fight[i]));
            assert(own.contains(fight[i]));
        }
        let (a, b) = lemma_keep_ends(fight, p);
        assert(fight[a] == tl.kills[from + a]);
        assert(fight[b] == tl.kills[from + b]);
        assert(own_ends(tl.kills, from, to, pid, from + a, from + b)) by {
            assert forall|i: int| from <= i < to && had_part(#[trigger] tl.kills[i], pid) implies from
                + a <= i <= from + b by {
                assert(fight[i - from] == tl.kills[i]);
                assert(p(fight[i - from]));
            }
        }
        let first = tl.kills[from + a].t as int;
        let last = tl.kills[from + b].t as int;
        if 0 <= first <= last {
            lemma_window_holds_the_payoff(first, last);
        }
    }
}

/// The candidates of a list of fights are those of its fights, in order, and
/// none is left out.
pub proof fn lemma_every_fight_has_its_clip(
    tl: TimelineV,
    near: Seq<Seq<bool>>,
    fights: Seq<(int, int)>,
    pid: i32,
    pteam: i32,
    ctx: ScoreV,
)
    ensures
        highlights::fight_clips(tl, near, fights, pid, pteam, ctx) matches Some(clips) ==> {
            &&& forall|i: int|
                0 <= i < fights.len() ==> match highlights::fight_clip(
                    tl,
                    near,
                    (#[trigger] fights[i]).0,
                    fights[i].1,
                    pid,
                    pteam,
                    ctx,
                ) {
                    Some(Some(c)) => clips.contains(c),
                    Some(None) => true,
                    None => false,
                }
            &&& forall|j: int|
                0 <= j < clips.len() ==> exists|i: int|
                    0 <= i < fights.len() && highlights::fight_clip(
                        tl,
                        near,
                        (#[trigger] fights[i]).0,
                        fights[i].1,
                        pid,
                        pteam,
                        ctx,
                    ) == Some(Some(#[trigger] clips[j]))
        },
    decreases fights.len(),
{
    if fights.len() > 0 {
        let fewer = fights.drop_last();
        lemma_every_fight_has_its_clip(tl, near, fewer, pid, pteam, ctx);
        if let Some(clips) = highlights::fight_clips(tl, near, fights, pid, pteam, ctx) {
            let before = highlights::fight_clips(tl, near, fewer, pid, pteam, ctx)->Some_0;
            assert forall|i: int| 0 <= i < fewer.len() implies fewer[i] == #[trigger] fights[i] by {}
            assert(fights[fights.len() - 1] == fights.last());
            assert forall|i: int| 0 <= i < fights.len() implies match highlights::fight_clip(
                tl,
                near,
                (#[trigger] fights[i]).0,
                fights[i].1,
                pid,
                pteam,
                ctx,
            ) {
                Some(Some(c)) => clips.contains(c),
                Some(None) => true,
                None => false,
            } by {
                if i < fewer.len() {
                    assert(fewer[i] == fights[i]);
                    if let Some(Some(c)) = highlights::fight_clip(
                        tl,
                        near,
                        fights[i].0,
                        fights[i].1,
                        pid,
                        pteam,
                        ctx,
                    ) {
                        let j = choose|j: int| 0 <= j < before.len() && before[j] == c;
                        assert(clips[j] == c);
                    }
                } else if clips.len() > 0 {
                    assert(clips[clips.len() - 1] == clips.last());
                }
            }
            assert forall|j: int| 0 <= j < clips.len() implies exists|i: int|
                0 <= i < fights.len() && highlights::fight_clip(
                    tl,
                    near,
                    (#[trigger] fights[i]).0,
                    fights[i].1,
                    pid,
                    pteam,
                    ctx,
                ) == Some(Some(#[trigger] clips[j])) by {
                if j < before.len() {
                    assert(before[j] == clips[j]);
                    let i = choose|i: int|
                        0 <= i < fewer.len() && highlights::fight_clip(
                            tl,
                            near,
                            (#[trigger] fewer[i]).0,
                            fewer[i].1,
                            pid,
                            pteam,
                            ctx,
                        ) == Some(Some(before[j]));
                    assert(fights[i] == fewer[i]);
                } else {
                    assert(fights[fights.len() - 1] == fights.last());
                }
            }
        }
    }
}

// --- what a fight was --------------------------------------------------------

/// Whether a team objective with the player among its takers came of a fight:
/// taken no sooner than its first kill and no later than 90 seconds after its
/// last.
pub open spec fn came_of(o: ObjectiveV, pid: i32, pteam: i32, start: i64, end: i64) -> bool {
    o.team == pteam && o.participants.contains(pid) && start <= o.t <= end + 90_000
}

/// What the numbers of a fight's story count.
pub proof fn lemma_story_counts(
    tl: TimelineV,
    near: Seq<Seq<bool>>,
    from: int,
    to: int,
    pid: i32,
    pteam: i32,
    ctx: ScoreV,
)
    requires
        0 <= from < to <= tl.kills.len(),
    ensures
        ({
            let s = highlights::story(tl, near, from, to, pid, pteam, ctx);
            let fight = tl.kills.subrange(from, to);
            &&& s.start == tl.kills[from].t
            &&& s.kills == seqs::count_where(fight, |k: KillV| k.killer == pid)
            &&& s.deaths == seqs::count_where(fight, |k: KillV| k.victim == pid)
            &&& s.assists == seqs::count_where(fight, |k: KillV| k.assists.contains(pid))
            &&& s.team_kills == seqs::count_where(fight, |k: KillV| k.killer_team == pteam)
            &&& s.solo == seqs::count_where(
                fight,
                |k: KillV| k.killer == pid && k.assists.len() == 0,
            )
            &&& s.carried == seqs::count_where(
                fight,
                |k: KillV|
                    k.killer == pid && k.assists.len() > 0 && k.received_all > 0
                        && k.received_killer * 100 >= k.received_all * 85,
            )
            &&& s.cc_seconds == ctx.cc_seconds
            &&& highlights::gold_of(seqs::keep(fight, |k: KillV| k.killer == pid)) matches Some(g)
                ==> s.gold == g
            &&& s.pick == candidates::best_pick(
                seqs::keep(fight, |k: KillV| k.killer == pid),
                highlights::rows_of(tl.kills, near, from, to, pid),
                tl,
                pteam,
                ctx,
            )
        }),
{
    let fight = tl.kills.subrange(from, to);
    let own = candidates::killed_by(pid);
    seqs::lemma_keep(fight, own);
    seqs::lemma_same_condition(fight, own, |k: KillV| k.killer == pid);
    seqs::lemma_same_condition(fight, candidates::death_of(pid), |k: KillV| k.victim == pid);
    seqs::lemma_same_condition(
        fight,
        candidates::assisted_by(pid),
        |k: KillV| k.assists.contains(pid),
    );
    seqs::lemma_same_condition(
        fight,
        candidates::kill_by_team(pteam),
        |k: KillV| k.killer_team == pteam,
    );
    seqs::lemma_count_kept(fight, own, highlights::unassisted());
    seqs::lemma_same_condition(
        fight,
        |k: KillV| own(k) && highlights::unassisted()(k),
        |k: KillV| k.killer == pid && k.assists.len() == 0,
    );
    seqs::lemma_count_kept(fight, own, highlights::carried_kill());
    seqs::lemma_same_condition(
        fight,
        |k: KillV| own(k) && highlights::carried_kill()(k),
        |k: KillV|
            k.killer == pid && k.assists.len() > 0 && k.received_all > 0 && k.received_killer * 100
                >= k.received_all * 85,
    );
}

/// What else a fight's story says: whether the player walked away, which
/// objective followed, their longest multikill, first blood, and whether the
/// fight closed the game.
pub proof fn lemma_story_facts(
    tl: TimelineV,
    near: Seq<Seq<bool>>,
    from: int,
    to: int,
    pid: i32,
    pteam: i32,
    ctx: ScoreV,
)
    requires
        0 <= from < to <= tl.kills.len(),
    ensures
        ({
            let s = highlights::story(tl, near, from, to, pid, pteam, ctx);
            let start = tl.kills[from].t;
            let end = tl.kills[to - 1].t;
            &&& s.survived <==> {
                &&& forall|i: int| from <= i < to ==> (#[trigger] tl.kills[i]).victim != pid
                &&& forall|i: int|
                    0 <= i < tl.kills.len() && (#[trigger] tl.kills[i]).victim == pid ==> !(end
                        < tl.kills[i].t <= end + 8_000)
            }
            &&& match s.objective {
                Some(label) => exists|j: int|
                    {
                        &&& 0 <= j < tl.objectives.len()
                        &&& came_of(#[trigger] tl.objectives[j], pid, pteam, start, end)
                        &&& tl.objectives[j].label == label
                        &&& forall|i: int|
                            0 <= i < j ==> !came_of(
                                #[trigger] tl.objectives[i],
                                pid,
                                pteam,
                                start,
                                end,
                            )
                    },
                None => forall|j: int|
                    0 <= j < tl.objectives.len() ==> !came_of(
                        #[trigger] tl.objectives[j],
                        pid,
                        pteam,
                        start,
                        end,
                    ),
            }
            &&& forall|i: int|
                0 <= i < tl.specials.len() && (#[trigger] tl.specials[i]).killer == pid && start
                    - 1_000 <= tl.specials[i].t <= end + 1_000 ==> tl.specials[i].len <= s.multi
            &&& s.multi != 0 ==> exists|i: int|
                0 <= i < tl.specials.len() && (#[trigger] tl.specials[i]).killer == pid && start
                    - 1_000 <= tl.specials[i].t <= end + 1_000 && tl.specials[i].len == s.multi
            &&& s.first_blood <==> (tl.first_blood matches Some((t, killer)) && killer == pid
                && start - 1_000 <= t <= end + 1_000)
            &&& s.closing <==> end >= ctx.end_ms - 90_000
        }),
{
    let s = highlights::story(tl, near, from, to, pid, pteam, ctx);
    let fight = tl.kills.subrange(from, to);
    let start = tl.kills[from].t;
    let end = tl.kills[to - 1].t;
    assert(fight[0] == tl.kills[from]);
    assert(fight[fight.len() - 1] == tl.kills[to - 1]);
    let dies = candidates::death_of(pid);
    let soon = highlights::died_after(pid, end);
    if s.survived {
        assert forall|i: int| from <= i < to implies (#[trigger] tl.kills[i]).victim != pid by {
            assert(!dies(fight[i - from]));
        }
        assert forall|i: int|
            0 <= i < tl.kills.len() && (#[trigger] tl.kills[i]).victim == pid implies !(end
            < tl.kills[i].t <= end + 8_000) by {
            assert(!soon(tl.kills[i]));
        }
    } else if seqs::any(fight, dies) {
        let i = choose|i: int| 0 <= i < fight.len() && dies(#[trigger] fight[i]);
        assert(tl.kills[from + i].victim == pid);
    } else {
        let i = choose|i: int| 0 <= i < tl.kills.len() && soon(#[trigger] tl.kills[i]);
        assert(tl.kills[i].victim == pid);
    }
    let took = highlights::took_part(pid, pteam, start, end);
    seqs::lemma_first_is(tl.objectives, took);
    assert forall|j: int| 0 <= j < tl.objectives.len() implies took(#[trigger] tl.objectives[j])
        == came_of(tl.objectives[j], pid, pteam, start, end) by {}
    let stamped = highlights::multi_in(pid, start, end);
    let multis = seqs::keep(tl.specials, stamped);
    seqs::lemma_keep(tl.specials, stamped);
    seqs::lemma_max_of(multis, highlights::multi_len());
    assert forall|i: int|
        0 <= i < tl.specials.len() && (#[trigger] tl.specials[i]).killer == pid && start - 1_000
            <= tl.specials[i].t <= end + 1_000 implies tl.specials[i].len <= s.multi by {
        assert(stamped(tl.specials[i]));
        assert(multis.contains(tl.specials[i]));
        let j = choose|j: int| 0 <= j < multis.len() && multis[j] == tl.specials[i];
        assert(highlights::multi_len()(multis[j]) <= s.multi);
    }
    if s.multi != 0 {
        let j = choose|j: int|
            0 <= j < multis.len() && highlights::multi_len()(#[trigger] multis[j]) == s.multi;
        assert(stamped(multis[j]) && tl.specials.contains(multis[j]));
        let i = choose|i: int| 0 <= i < tl.specials.len() && tl.specials[i] == multis[j];
        assert(tl.specials[i].len == s.multi);
    }
}

/// How hard the hardest duel was: what the victim dealt back to the player, in
/// percent of a champion's health at that time, which is 550 and 58 more for
/// every minute.
pub proof fn lemma_duels(
    tl: TimelineV,
    near: Seq<Seq<bool>>,
    from: int,
    to: int,
    pid: i32,
    pteam: i32,
    ctx: ScoreV,
    i: int,
)
    requires
        0 <= from <= i < to <= tl.kills.len(),
        tl.kills[i].killer == pid,
        tl.kills[i].t >= 0,
        tl.kills[i].fought_back >= 0,
    ensures
        highlights::story(tl, near, from, to, pid, pteam, ctx).closeness >= tl.kills[i].fought_back
            * 100 / (550 + 58 * (tl.kills[i].t as int / 60_000)),
{
    let fight = tl.kills.subrange(from, to);
    let own = candidates::killed_by(pid);
    let pkills = seqs::keep(fight, own);
    seqs::lemma_keep(fight, own);
    seqs::lemma_max_of(pkills, highlights::duel_pct());
    assert(fight[i - from] == tl.kills[i]);
    assert(own(fight[i - from]));
    assert(pkills.contains(fight[i - from]));
    let j = choose|j: int| 0 <= j < pkills.len() && pkills[j] == fight[i - from];
    assert(highlights::duel_pct()(pkills[j]) <= highlights::story(
        tl,
        near,
        from,
        to,
        pid,
        pteam,
        ctx,
    ).closeness);
}

/// The hardest duel is one of the player's own, and without a kill of theirs
/// there is none.
pub proof fn lemma_hardest_duel(
    tl: TimelineV,
    near: Seq<Seq<bool>>,
    from: int,
    to: int,
    pid: i32,
    pteam: i32,
    ctx: ScoreV,
)
    requires
        0 <= from < to <= tl.kills.len(),
        forall|i: int|
            from <= i < to ==> (#[trigger] tl.kills[i]).t >= 0 && tl.kills[i].fought_back >= 0,
    ensures
        ({
            let closeness = highlights::story(tl, near, from, to, pid, pteam, ctx).closeness;
            closeness != 0 ==> exists|i: int|
                from <= i < to && (#[trigger] tl.kills[i]).killer == pid && closeness
                    == tl.kills[i].fought_back * 100 / (550 + 58 * (tl.kills[i].t as int / 60_000))
        }),
{
    let fight = tl.kills.subrange(from, to);
    let own = candidates::killed_by(pid);
    let pkills = seqs::keep(fight, own);
    let closeness = highlights::story(tl, near, from, to, pid, pteam, ctx).closeness;
    seqs::lemma_keep(fight, own);
    seqs::lemma_max_of(pkills, highlights::duel_pct());
    if closeness != 0 {
        let j = choose|j: int|
            0 <= j < pkills.len() && highlights::duel_pct()(#[trigger] pkills[j]) == closeness;
        assert(own(pkills[j]) && fight.contains(pkills[j]));
        let i = choose|i: int| 0 <= i < fight.len() && fight[i] == pkills[j];
        assert(tl.kills[from + i] == fight[i]);
    }
}

/// Each kill of the player's is weighed by what was near its own place.
pub proof fn lemma_kills_have_their_places(
    kills: Seq<KillV>,
    near: Seq<Seq<bool>>,
    from: int,
    to: int,
    pid: i32,
    i: int,
)
    requires
        0 <= from <= i < to <= kills.len(),
        kills[i].killer == pid,
        i < near.len(),
    ensures
        ({
            let k = seqs::count_where(kills.subrange(from, i), |k: KillV| k.killer == pid) as int;
            let rows = highlights::rows_of(kills, near, from, to, pid);
            &&& k < rows.len()
            &&& rows[k] == near[i]
        }),
        highlights::rows_of(kills, near, from, to, pid).len() == seqs::count_where(
            kills.subrange(from, to),
            |k: KillV| k.killer == pid,
        ),
    decreases to - from,
{
    let p = |k: KillV| k.killer == pid;
    lemma_rows_len(kills, near, from, to, pid);
    lemma_rows_len(kills, near, from, to - 1, pid);
    lemma_rows_len(kills, near, from, i, pid);
    if i < to - 1 {
        lemma_kills_have_their_places(kills, near, from, to - 1, pid, i);
        let before = highlights::rows_of(kills, near, from, to - 1, pid);
        let k = seqs::count_where(kills.subrange(from, i), p) as int;
        assert(highlights::rows_of(kills, near, from, to, pid)[k] == before[k]);
    }
}

proof fn lemma_rows_len(
    kills: Seq<KillV>,
    near: Seq<Seq<bool>>,
    from: int,
    to: int,
    pid: i32,
)
    requires
        0 <= from <= to <= kills.len(),
    ensures
        highlights::rows_of(kills, near, from, to, pid).len() == seqs::count_where(
            kills.subrange(from, to),
            |k: KillV| k.killer == pid,
        ),
    decreases to - from,
{
    if from < to {
        lemma_rows_len(kills, near, from, to - 1, pid);
        assert(kills.subrange(from, to).drop_last() =~= kills.subrange(from, to - 1));
        assert(kills.subrange(from, to).last() == kills[to - 1]);
    }
}

// --- what a fight is worth ---------------------------------------------------

/// A fight in which nothing happened is worth nothing.
pub proof fn lemma_nothing_is_worth_nothing(s: StoryV)
    requires
        0 <= s.start < 600_000,
        s.kills == 0,
        s.deaths == 0,
        s.assists == 0,
        0 <= s.gold < 100,
        s.multi < 2,
        !s.survived,
        s.objective is None,
        s.solo == 0,
        s.closeness < 60,
        s.carried == 0,
        s.pick is None,
        s.enemies <= s.allies,
        !s.first_blood,
        !s.closing,
    ensures
        highlights::story_score(s) == 0,
{
}

/// What the kills and deaths of a fight add: three points for a kill, and two
/// less for a death.
pub proof fn lemma_kill_points(s: StoryV)
    ensures
        highlights::story_score(StoryV { kills: s.kills + 1, ..s }) == highlights::story_score(s)
            + 3,
        highlights::story_score(StoryV { deaths: s.deaths + 1, ..s }) == highlights::story_score(s)
            - 2,
{
    let t = StoryV { kills: s.kills + 1, ..s };
    assert(highlights::feat_score(t) == highlights::feat_score(s));
    assert(highlights::stage_score(t) == highlights::stage_score(s));
    let t = StoryV { deaths: s.deaths + 1, ..s };
    assert(highlights::feat_score(t) == highlights::feat_score(s));
    assert(highlights::stage_score(t) == highlights::stage_score(s));
}

/// What an assist adds: one point, and two where the player ran the fight (two
/// assists, and half of the team's kills) or held the enemies for half a
/// minute.
pub proof fn lemma_assist_points(s: StoryV)
    requires
        s.assists >= 0,
    ensures
        ({
            let more = highlights::story_score(StoryV { assists: s.assists + 1, ..s });
            &&& s.cc_seconds >= 30 ==> more == highlights::story_score(s) + 2
            &&& s.assists >= 2 && s.assists * 2 >= s.team_kills ==> more
                == highlights::story_score(s) + 2
            &&& s.cc_seconds < 30 && (s.assists + 1) * 2 < s.team_kills ==> more
                == highlights::story_score(s) + 1
            &&& s.cc_seconds < 30 && s.assists < 1 ==> more == highlights::story_score(s) + 1
        }),
{
    let t = StoryV { assists: s.assists + 1, ..s };
    assert(highlights::feat_score(t) == highlights::feat_score(s));
    assert(highlights::scoreline_score(t) == highlights::scoreline_score(s) + 1);
}

/// What the gold and the multikill add: one point for a hundred gold, and four
/// for each kill of a multikill.
pub proof fn lemma_gold_points(s: StoryV)
    ensures
        s.gold >= 0 ==> highlights::story_score(StoryV { gold: s.gold + 100, ..s })
            == highlights::story_score(s) + 1,
        s.multi >= 2 ==> highlights::story_score(s) == highlights::story_score(
            StoryV { multi: 0, ..s },
        ) + 4 * s.multi,
        s.multi < 2 ==> highlights::story_score(s) == highlights::story_score(
            StoryV { multi: 0, ..s },
        ),
{
    let t = StoryV { gold: s.gold + 100, ..s };
    assert(highlights::feat_score(t) == highlights::feat_score(s));
    assert(highlights::stage_score(t) == highlights::stage_score(s));
    let t = StoryV { multi: 0, ..s };
    assert(highlights::feat_score(t) == highlights::feat_score(s));
    assert(highlights::stage_score(t) == highlights::stage_score(s));
}

/// What the player's duels add: three points for a solo kill; four for a
/// hard-fought duel, six for a near-lethal one; two for a carried kill, four at
/// most.
pub proof fn lemma_duel_points(s: StoryV)
    ensures
        highlights::story_score(StoryV { solo: s.solo + 1, ..s }) == highlights::story_score(s) + 3,
        ({
            let plain = highlights::story_score(StoryV { closeness: 0, ..s });
            &&& s.closeness < 60 ==> highlights::story_score(s) == plain
            &&& 60 <= s.closeness < 90 ==> highlights::story_score(s) == plain + 4
            &&& s.closeness >= 90 ==> highlights::story_score(s) == plain + 6
        }),
        ({
            let plain = highlights::story_score(StoryV { carried: 0, ..s });
            &&& s.carried == 1 ==> highlights::story_score(s) == plain + 2
            &&& s.carried >= 2 ==> highlights::story_score(s) == plain + 4
        }),
{
    let t = StoryV { solo: s.solo + 1, ..s };
    assert(highlights::scoreline_score(t) == highlights::scoreline_score(s));
    assert(highlights::stage_score(t) == highlights::stage_score(s));
    let t = StoryV { closeness: 0, ..s };
    assert(highlights::scoreline_score(t) == highlights::scoreline_score(s));
    assert(highlights::stage_score(t) == highlights::stage_score(s));
    let t = StoryV { carried: 0, ..s };
    assert(highlights::scoreline_score(t) == highlights::scoreline_score(s));
    assert(highlights::stage_score(t) == highlights::stage_score(s));
}

/// What the odds add: four points for each enemy too many, eight at most.
pub proof fn lemma_odds_points(s: StoryV)
    ensures
        ({
            let even = highlights::story_score(StoryV { enemies: s.allies, ..s });
            &&& s.enemies <= s.allies ==> highlights::story_score(s) == even
            &&& s.enemies == s.allies + 1 ==> highlights::story_score(s) == even + 4
            &&& s.enemies >= s.allies + 2 ==> highlights::story_score(s) == even + 8
        }),
{
    let t = StoryV { enemies: s.allies, ..s };
    assert(highlights::scoreline_score(t) == highlights::scoreline_score(s));
    assert(highlights::stage_score(t) == highlights::stage_score(s));
}

/// What came of the fight adds: two points for walking away, and three for the
/// objective that followed.
pub proof fn lemma_outcome_points(s: StoryV, label: Seq<char>)
    requires
        !s.survived,
        s.objective is None,
    ensures
        highlights::story_score(StoryV { survived: true, ..s }) == highlights::story_score(s) + 2,
        highlights::story_score(StoryV { objective: Some(label), ..s }) == highlights::story_score(s)
            + 3,
{
    let t = StoryV { survived: true, ..s };
    assert(highlights::feat_score(t) == highlights::feat_score(s));
    assert(highlights::stage_score(t) == highlights::stage_score(s));
    let t = StoryV { objective: Some(label), ..s };
    assert(highlights::feat_score(t) == highlights::feat_score(s));
    assert(highlights::stage_score(t) == highlights::stage_score(s));
}

/// What the time of the fight adds: three points for first blood, six for the
/// closing fight, and one for every ten minutes of the game.
pub proof fn lemma_time_points(s: StoryV)
    requires
        !s.first_blood,
        !s.closing,
    ensures
        highlights::story_score(StoryV { first_blood: true, ..s }) == highlights::story_score(s)
            + 3,
        highlights::story_score(StoryV { closing: true, ..s }) == highlights::story_score(s) + 6,
        s.start >= 0 ==> highlights::story_score(StoryV { start: s.start + 600_000, ..s })
            == highlights::story_score(s) + 1,
{
    let t = StoryV { first_blood: true, ..s };
    assert(highlights::feat_score(t) == highlights::feat_score(s));
    assert(highlights::scoreline_score(t) == highlights::scoreline_score(s));
    let t = StoryV { closing: true, ..s };
    assert(highlights::feat_score(t) == highlights::feat_score(s));
    assert(highlights::scoreline_score(t) == highlights::scoreline_score(s));
    let t = StoryV { start: s.start + 600_000, ..s };
    assert(highlights::feat_score(t) == highlights::feat_score(s));
    assert(highlights::scoreline_score(t) == highlights::scoreline_score(s));
}

/// What a priority pick adds: what its victim threatened, two points more where
/// they were caught out, and nine at most.
#[verifier::spinoff_prover]
#[verifier::rlimit(40)]
pub proof fn lemma_pick_points(s: StoryV, p: PickV)
    ensures
        ({
            let plain = highlights::story_score(StoryV { pick: None, ..s });
            let with = highlights::story_score(StoryV { pick: Some(p), ..s });
            &&& !p.caught_out && p.threat <= 9 ==> with == plain + p.threat
            &&& p.caught_out && p.threat <= 7 ==> with == plain + p.threat + 2
            &&& p.threat >= 9 || (p.caught_out && p.threat >= 7) ==> with == plain + 9
        }),
{
}

// --- what a death was --------------------------------------------------------

/// Whether an objective punishes a death: the other team took it no sooner than
/// the death and no later than 30 seconds after it.
pub open spec fn taken_off(o: ObjectiveV, death: KillV, pteam: i32) -> bool {
    o.team == 300 - pteam && death.t <= o.t <= death.t + 30_000
}

/// A death is punished exactly if the other team took an objective off it, and
/// the first such objective is told. One that the player's own team took never
/// punishes.
pub proof fn lemma_punished(
    tl: TimelineV,
    near: Seq<Seq<bool>>,
    i: int,
    pid: i32,
    pteam: i32,
    game: GameV,
    ctx: ScoreV,
)
    requires
        pteam == 100 || pteam == 200,
    ensures
        match lowlights::death_story(tl, near, i, pid, pteam, game, ctx).punished {
            Some(label) => exists|j: int|
                {
                    &&& 0 <= j < tl.objectives.len()
                    &&& taken_off(#[trigger] tl.objectives[j], tl.kills[i], pteam)
                    &&& tl.objectives[j].team != pteam
                    &&& tl.objectives[j].label == label
                    &&& forall|m: int|
                        0 <= m < j ==> !taken_off(#[trigger] tl.objectives[m], tl.kills[i], pteam)
                },
            None => forall|j: int|
                0 <= j < tl.objectives.len() ==> !taken_off(
                    #[trigger] tl.objectives[j],
                    tl.kills[i],
                    pteam,
                ),
        },
{
    let enemy = (300 - pteam) as i32;
    let p = lowlights::punishes(enemy, tl.kills[i].t);
    seqs::lemma_first_is(tl.objectives, p);
    assert forall|j: int| 0 <= j < tl.objectives.len() implies p(#[trigger] tl.objectives[j])
        == taken_off(tl.objectives[j], tl.kills[i], pteam) by {}
}

/// What a death's story says of it: whether it was traded, whether nobody was
/// credited with it, whether the player had died within the minute before,
/// whether they were melted (they dealt less than 8% of a champion's health) or
/// went down swinging (they dealt 120% of it), and whether it closed the game.
pub proof fn lemma_death_facts(
    tl: TimelineV,
    near: Seq<Seq<bool>>,
    i: int,
    pid: i32,
    pteam: i32,
    game: GameV,
    ctx: ScoreV,
)
    requires
        0 <= i < tl.kills.len(),
        tl.kills[i].t >= 0,
    ensures
        ({
            let d = lowlights::death_story(tl, near, i, pid, pteam, game, ctx);
            let death = tl.kills[i];
            let health = 550 + 58 * (death.t as int / 60_000);
            &&& d.t == death.t
            &&& d.bounty == death.bounty
            &&& d.shutdown == death.shutdown
            &&& d.traded == moment_laws::traded(tl.kills, near, i, pteam)
            &&& d.executed == (death.killer <= 0)
            &&& d.killer == game.champion(death.killer)
            &&& d.repeated == (exists|k: int|
                0 <= k < tl.kills.len() && (#[trigger] tl.kills[k]).victim == pid && tl.kills[k].t
                    < death.t <= tl.kills[k].t + 60_000)
            &&& d.melted == (death.killer > 0 && death.dealt_champs * 100 < 8 * health)
            &&& d.swinging == (death.dealt_champs * 100 >= 120 * health)
            &&& d.closing == (death.t >= ctx.end_ms - 90_000)
        }),
{
    let d = lowlights::death_story(tl, near, i, pid, pteam, game, ctx);
    let death = tl.kills[i];
    moment_laws::lemma_traded(tl.kills, near, i, pteam);
    let p = lowlights::died_before(pid, death.t);
    if d.repeated {
        let k = choose|k: int| 0 <= k < tl.kills.len() && p(#[trigger] tl.kills[k]);
        assert(tl.kills[k].victim == pid && tl.kills[k].t < death.t <= tl.kills[k].t + 60_000);
    }
    if exists|k: int|
        0 <= k < tl.kills.len() && (#[trigger] tl.kills[k]).victim == pid && tl.kills[k].t < death.t
            <= tl.kills[k].t + 60_000 {
        let k = choose|k: int|
            0 <= k < tl.kills.len() && (#[trigger] tl.kills[k]).victim == pid && tl.kills[k].t
                < death.t <= tl.kills[k].t + 60_000;
        assert(p(tl.kills[k]));
    }
}

/// What a death costs: two points for a free one, four for an objective that
/// the enemy took off it, and four for one that closed the game.
pub proof fn lemma_death_cost_points(d: DeathV, label: Seq<char>)
    requires
        d.traded,
        d.punished is None,
        !d.closing,
    ensures
        lowlights::death_score(DeathV { traded: false, ..d }) == lowlights::death_score(d) + 2,
        lowlights::death_score(DeathV { punished: Some(label), ..d }) == lowlights::death_score(d)
            + 4,
        lowlights::death_score(DeathV { closing: true, ..d }) == lowlights::death_score(d) + 4,
{
}

/// How a death looks: three points for an execution, two for one so soon after
/// another, three for being melted, and two less for going down swinging.
pub proof fn lemma_death_shame_points(d: DeathV)
    requires
        !d.executed,
        !d.repeated,
        !d.melted,
        !d.swinging,
    ensures
        lowlights::death_score(DeathV { executed: true, ..d }) == lowlights::death_score(d) + 3,
        lowlights::death_score(DeathV { repeated: true, ..d }) == lowlights::death_score(d) + 2,
        lowlights::death_score(DeathV { melted: true, ..d }) == lowlights::death_score(d) + 3,
        lowlights::death_score(DeathV { swinging: true, ..d }) == lowlights::death_score(d) - 2,
{
}

/// What a death gives away: one point for a hundred gold of shutdown, one for
/// two hundred gold of bounty, one for every ten minutes of the game; a traded
/// death without any of it, early in the game, is worth two.
pub proof fn lemma_death_gold_points(d: DeathV)
    requires
        d.shutdown >= 0,
        d.bounty >= 0,
        d.t >= 0,
    ensures
        lowlights::death_score(DeathV { shutdown: d.shutdown + 100, ..d })
            == lowlights::death_score(d) + 1,
        lowlights::death_score(DeathV { bounty: d.bounty + 200, ..d }) == lowlights::death_score(d)
            + 1,
        lowlights::death_score(DeathV { t: d.t + 600_000, ..d }) == lowlights::death_score(d) + 1,
        d.shutdown < 100 && d.bounty < 200 && d.t < 600_000 && d.traded && d.punished is None
            && !d.closing && !d.executed && !d.repeated && !d.melted && !d.swinging
            ==> lowlights::death_score(d) == 2,
{
}

proof fn lemma_parts()
    ensures
        forall|x: Seq<char>| #[trigger] text::holds(x, x),
        forall|a: Seq<char>, b: Seq<char>, x: Seq<char>|
            text::holds(a, x) || text::holds(b, x) ==> #[trigger] text::holds(a + b, x),
{
    assert forall|x: Seq<char>| #[trigger] text::holds(x, x) by {
        assert(x.subrange(0, 0 + x.len() as int) =~= x);
    }
    assert forall|a: Seq<char>, b: Seq<char>, x: Seq<char>|
        text::holds(a, x) || text::holds(b, x) implies #[trigger] text::holds(a + b, x) by {
        let c = a + b;
        if text::holds(a, x) {
            let i = choose|i: int|
                0 <= i && i + x.len() <= a.len() && #[trigger] a.subrange(i, i + x.len()) == x;
            assert(c.subrange(i, i + x.len()) =~= a.subrange(i, i + x.len()));
        } else {
            let i = choose|i: int|
                0 <= i && i + x.len() <= b.len() && #[trigger] b.subrange(i, i + x.len()) == x;
            assert(c.subrange(a.len() + i, a.len() + i + x.len()) =~= b.subrange(i, i + x.len()));
        }
    }
}

/// The caption of a death tells everything that its score counts.
pub proof fn lemma_death_caption(d: DeathV)
    ensures
        ({
            let told = lowlights::death_text(d);
            &&& d.executed ==> text::holds(told, "executed"@)
            &&& !d.executed ==> text::holds(told, "caught by "@ + d.killer)
            &&& !d.traded ==> text::holds(told, " (free death)"@)
            &&& d.melted ==> text::holds(told, ", melted without a fight"@)
            &&& d.swinging && !d.melted ==> text::holds(told, ", went down swinging"@)
            &&& d.repeated ==> text::holds(told, ", back-to-back"@)
            &&& d.shutdown > 0 ==> text::holds(
                told,
                ", gave up a "@ + text::dec(d.shutdown) + "g shutdown"@,
            )
            &&& d.punished matches Some(label) ==> text::holds(told, "; "@ + label + " followed"@)
        }),
{
    lemma_parts();
}

/// Of a death that has nothing else to it the caption tells the killer alone,
/// and each thing it does not have leaves no trace: the caption is as long as
/// what it tells.
pub proof fn lemma_plain_death_caption(d: DeathV)
    ensures
        d.traded && !d.melted && !d.swinging && !d.repeated && d.shutdown <= 0 && d.punished is None
            ==> lowlights::death_text(d) == if d.executed {
            "executed"@
        } else {
            "caught by "@ + d.killer
        },
        lowlights::death_text(d).len() == (if d.executed {
            8
        } else {
            10 + d.killer.len()
        }) + (if d.traded {
            0int
        } else {
            13
        }) + (if d.melted {
            24int
        } else if d.swinging {
            20
        } else {
            0
        }) + (if d.repeated {
            14int
        } else {
            0
        }) + (if d.shutdown > 0 {
            12 + text::dec(d.shutdown).len() + 10
        } else {
            0
        }) + (match d.punished {
            Some(label) => 2 + label.len() + 9,
            None => 0,
        }),
{
    reveal_strlit("");
    reveal_strlit("executed");
    reveal_strlit("caught by ");
    reveal_strlit(" (free death)");
    reveal_strlit(", melted without a fight");
    reveal_strlit(", went down swinging");
    reveal_strlit(", back-to-back");
    reveal_strlit(", gave up a ");
    reveal_strlit("g shutdown");
    reveal_strlit("; ");
    reveal_strlit(" followed");
    if d.traded && !d.melted && !d.swinging && !d.repeated && d.shutdown <= 0 && d.punished is None {
        let opener = if d.executed {
            "executed"@
        } else {
            "caught by "@ + d.killer
        };
        assert(lowlights::death_text(d) =~= opener);
    }
}

/// A death's window holds the death, with seven seconds before it as far as the
/// game had begun, and at least nine after it.
pub proof fn lemma_death_window(d: DeathV)
    requires
        0 <= d.t <= i64::MAX,
    ensures
        ({
            let c = lowlights::death_clip(d);
            &&& c.t_ms == d.t
            &&& 0 <= c.seek_s <= d.t / 1000
            &&& c.seek_s == 0 || c.seek_s + 7 == d.t / 1000
            &&& c.seek_s == 0 ==> d.t / 1000 <= 7
            &&& c.dur_s == 16
            &&& c.seek_s + c.dur_s >= d.t / 1000 + 9
            &&& c.summary == lowlights::death_text(d)
            &&& i64::MIN <= lowlights::death_score(d) <= i64::MAX ==> c.score
                == lowlights::death_score(d)
        }),
{
}

/// Every death of the player is a candidate, and nothing else is one.
#[verifier::spinoff_prover]
#[verifier::rlimit(40)]
pub proof fn lemma_every_death_is_a_candidate(
    tl: TimelineV,
    near: Seq<Seq<bool>>,
    n: int,
    pid: i32,
    pteam: i32,
    game: GameV,
    ctx: ScoreV,
)
    requires
        0 <= n <= tl.kills.len(),
    ensures
        ({
            let clips = lowlights::death_clips(tl, near, n, pid, pteam, game, ctx);
            &&& clips.len() == seqs::count_where(tl.kills.take(n), |k: KillV| k.victim == pid)
            &&& forall|i: int|
                0 <= i < n && (#[trigger] tl.kills[i]).victim == pid ==> {
                    let c = lowlights::death_clip(
                        lowlights::death_story(tl, near, i, pid, pteam, game, ctx),
                    );
                    clips.contains((c.score, c))
                }
            &&& forall|j: int|
                0 <= j < clips.len() ==> (#[trigger] clips[j]).0 == clips[j].1.score && exists|
                    i: int,
                |
                    0 <= i < n && (#[trigger] tl.kills[i]).victim == pid && clips[j].1
                        == lowlights::death_clip(
                        lowlights::death_story(tl, near, i, pid, pteam, game, ctx),
                    )
        }),
    decreases n,
{
    if n > 0 {
        lemma_every_death_is_a_candidate(tl, near, n - 1, pid, pteam, game, ctx);
        let before = lowlights::death_clips(tl, near, n - 1, pid, pteam, game, ctx);
        let clips = lowlights::death_clips(tl, near, n, pid, pteam, game, ctx);
        assert(tl.kills.take(n).drop_last() =~= tl.kills.take(n - 1));
        assert(tl.kills.take(n).last() == tl.kills[n - 1]);
        assert forall|i: int| 0 <= i < n && (#[trigger] tl.kills[i]).victim == pid implies {
            let c = lowlights::death_clip(
                lowlights::death_story(tl, near, i, pid, pteam, game, ctx),
            );
            clips.contains((c.score, c))
        } by {
            let c = lowlights::death_clip(
                lowlights::death_story(tl, near, i, pid, pteam, game, ctx),
            );
            if i < n - 1 {
                assert(before.contains((c.score, c)));
                let j = choose|j: int| 0 <= j < before.len() && before[j] == (c.score, c);
                assert(clips[j] == (c.score, c));
            } else {
                assert(clips[clips.len() - 1] == (c.score, c));
            }
        }
        assert forall|j: int| 0 <= j < clips.len() implies (#[trigger] clips[j]).0
            == clips[j].1.score && exists|i: int|
            0 <= i < n && (#[trigger] tl.kills[i]).victim == pid && clips[j].1
                == lowlights::death_clip(
                lowlights::death_story(tl, near, i, pid, pteam, game, ctx),
            ) by {
            if j < before.len() {
                assert(clips[j] == before[j]);
            } else {
                assert(tl.kills[n - 1].victim == pid);
            }
        }
    } else {
        assert(tl.kills.take(0) =~= seq![]);
    }
}

// --- secures -----------------------------------------------------------------

proof fn lemma_none_count(s: Seq<i32>)
    ensures
        seqs::count_where(s, |p: i32| false) == 0,
    decreases s.len(),
{
    if s.len() > 0 {
        lemma_none_count(s.drop_last());
    }
}

/// What a secured objective is worth: four points, eight for the Baron and nine
/// for the Elder; six more where at most one teammate was credited with it, six
/// for the closing take, and one for every ten minutes of the game.
pub proof fn lemma_secure_points(o: ObjectiveV, pid: i32, pteam: i32, ctx: ScoreV)
    requires
        o.t >= 0,
    ensures
        ({
            let c = candidates::secure_clip(o, pid, pteam, ctx);
            let few = o.team != pteam || seqs::count_where(o.participants, |p: i32| p != pid) <= 1;
            let closing = o.t >= ctx.end_ms - 90_000;
            let base = c.score - o.t as int / 600_000 - (if few {
                6int
            } else {
                0
            }) - (if closing {
                6int
            } else {
                0
            });
            &&& o.monster == Monster::Baron ==> base == 8
            &&& o.monster == Monster::Dragon && o.elder ==> base == 9
            &&& o.monster == Monster::Dragon && !o.elder ==> base == 4
            &&& o.monster == Monster::Herald ==> base == 4
            &&& ("you secured "@ + o.label).is_prefix_of(c.summary)
            &&& few ==> text::holds(
                c.summary,
                "your smite, barely contested — a steal or solo secure"@,
            )
            &&& !few ==> text::holds(c.summary, "your killing blow"@)
            &&& closing ==> "; the closing take"@.is_suffix_of(c.summary)
        }),
{
    let c = candidates::secure_clip(o, pid, pteam, ctx);
    if o.team == pteam {
        seqs::lemma_same_condition(
            o.participants,
            |p: i32| p != pid,
            candidates::fellow(pid, true),
        );
    } else {
        seqs::lemma_same_condition(
            o.participants,
            |p: i32| false,
            candidates::fellow(pid, false),
        );
        lemma_none_count(o.participants);
    }
    lemma_parts();
    let opener = "you secured "@ + o.label;
    assert(c.summary.subrange(0, opener.len() as int) =~= opener);
    let tail = "; the closing take"@;
    if o.t >= ctx.end_ms - 90_000 {
        assert(c.summary.subrange(c.summary.len() - tail.len(), c.summary.len() as int) =~= tail);
    }
}

/// A secure's window holds the take, with seven seconds before it as far as the
/// game had begun, and at least thirteen after it.
pub proof fn lemma_secure_window(o: ObjectiveV, pid: i32, pteam: i32, ctx: ScoreV)
    requires
        o.t >= 0,
    ensures
        ({
            let c = candidates::secure_clip(o, pid, pteam, ctx);
            &&& c.t_ms == o.t
            &&& 0 <= c.seek_s <= o.t as int / 1000
            &&& c.seek_s == 0 || c.seek_s + 7 == o.t as int / 1000
            &&& c.seek_s == 0 ==> o.t as int / 1000 <= 7
            &&& c.dur_s == 20
        }),
{
}

/// The secures are the dragons, Barons and Heralds that the player dealt the
/// killing blow, and nothing else.
pub proof fn lemma_secures_are_the_players(
    objectives: Seq<ObjectiveV>,
    pid: i32,
    pteam: i32,
    ctx: ScoreV,
)
    ensures
        ({
            let clips = candidates::secure_clips(objectives, pid, pteam, ctx);
            &&& clips.len() == seqs::count_where(
                objectives,
                |o: ObjectiveV| o.killer == pid && moment_laws::is_large(o),
            )
            &&& forall|i: int|
                0 <= i < objectives.len() && (#[trigger] objectives[i]).killer == pid
                    && moment_laws::is_large(objectives[i]) ==> clips.contains(
                    candidates::secure_clip(objectives[i], pid, pteam, ctx),
                )
        }),
    decreases objectives.len(),
{
    if objectives.len() > 0 {
        let fewer = objectives.drop_last();
        lemma_secures_are_the_players(fewer, pid, pteam, ctx);
        let before = candidates::secure_clips(fewer, pid, pteam, ctx);
        let clips = candidates::secure_clips(objectives, pid, pteam, ctx);
        assert forall|i: int|
            0 <= i < objectives.len() && (#[trigger] objectives[i]).killer == pid
                && moment_laws::is_large(objectives[i]) implies clips.contains(
            candidates::secure_clip(objectives[i], pid, pteam, ctx),
        ) by {
            let c = candidates::secure_clip(objectives[i], pid, pteam, ctx);
            if i < fewer.len() {
                assert(fewer[i] == objectives[i]);
                let j = choose|j: int| 0 <= j < before.len() && before[j] == c;
                assert(clips[j] == c);
            } else {
                assert(clips[clips.len() - 1] == c);
            }
        }
    }
}

// --- the best few ------------------------------------------------------------

/// The candidates that are surfaced: three, or all of fewer; each one of the
/// given, in chronological order; and one that is left out scores no more than
/// any of them.
pub proof fn lemma_best_three(scored: Seq<(i64, CandidateV)>)
    requires
        forall|i: int| 0 <= i < scored.len() ==> (#[trigger] scored[i]).0 == scored[i].1.score,
    ensures
        ({
            let top = candidates::top_of(scored);
            &&& scored.len() <= 3 ==> top.len() == scored.len()
            &&& scored.len() >= 3 ==> top.len() == 3
            &&& forall|i: int, j: int|
                0 <= i < j < top.len() ==> (#[trigger] top[i]).t_ms <= (#[trigger] top[j]).t_ms
            &&& forall|j: int|
                0 <= j < top.len() ==> scored.contains((top[j].score, #[trigger] top[j]))
            &&& forall|i: int, j: int|
                0 <= i < scored.len() && 0 <= j < top.len() && !top.contains(
                    (#[trigger] scored[i]).1,
                ) ==> scored[i].1.score <= (#[trigger] top[j]).score
        }),
{
    let ranked = seqs::sorted_by(scored, candidates::higher());
    let kept = candidates::best_of(scored);
    let sorted = seqs::sorted_by(kept, candidates::sooner());
    let top = candidates::top_of(scored);
    candidates::lemma_top_candidates(scored);
    seqs::lemma_sorted_len(scored, candidates::higher());
    seqs::lemma_sorted_len(kept, candidates::sooner());
    seqs::lemma_sort_orders(scored, candidates::higher());
    assert(top.len() == kept.len());
    assert forall|j: int| 0 <= j < top.len() implies exists|k: int|
        0 <= k < kept.len() && #[trigger] kept[k] == sorted[j] && kept[k].1 == #[trigger] top[j]
            && scored.contains(kept[k]) by {
        seqs::lemma_sort_contains(kept, candidates::sooner(), sorted[j]);
        assert(sorted.contains(sorted[j]));
        let k = choose|k: int| 0 <= k < kept.len() && kept[k] == sorted[j];
        assert(kept[k] == ranked[k]);
        seqs::lemma_sort_contains(scored, candidates::higher(), ranked[k]);
        assert(ranked.contains(ranked[k]));
    }
    assert forall|j: int| 0 <= j < top.len() implies scored.contains(
        (top[j].score, #[trigger] top[j]),
    ) by {
        let k = choose|k: int|
            0 <= k < kept.len() && #[trigger] kept[k] == sorted[j] && kept[k].1 == top[j]
                && scored.contains(kept[k]);
        let i = choose|i: int| 0 <= i < scored.len() && scored[i] == kept[k];
        assert(scored[i].0 == scored[i].1.score);
    }
    assert forall|i: int, j: int|
        0 <= i < scored.len() && 0 <= j < top.len() && !top.contains(
            (#[trigger] scored[i]).1,
        ) implies scored[i].1.score <= (#[trigger] top[j]).score by {
        seqs::lemma_sort_contains(scored, candidates::higher(), scored[i]);
        assert(scored.contains(scored[i]));
        let r = choose|r: int| 0 <= r < ranked.len() && ranked[r] == scored[i];
        if r < kept.len() {
            assert(kept[r] == scored[i]);
            seqs::lemma_sort_contains(kept, candidates::sooner(), kept[r]);
            assert(kept.contains(kept[r]));
            let m = choose|m: int| 0 <= m < sorted.len() && sorted[m] == kept[r];
            assert(top[m] == scored[i].1);
        }
        let k = choose|k: int|
            0 <= k < kept.len() && #[trigger] kept[k] == sorted[j] && kept[k].1 == top[j]
                && scored.contains(kept[k]);
        assert(kept[k].0 >= ranked[r].0);
        let q = choose|q: int| 0 <= q < scored.len() && scored[q] == kept[k];
        assert(scored[q].0 == scored[q].1.score);
        assert(scored[i].0 == scored[i].1.score);
    }
}

// --- who mattered ------------------------------------------------------------

/// What the roles weigh, and what the captions call them.
pub proof fn lemma_roles(t: Seq<char>)
    ensures
        t == "BOTTOM"@ ==> candidates::role_of(t) == (4i64, "ADC"@),
        t == "MIDDLE"@ ==> candidates::role_of(t) == (3i64, "mid laner"@),
        t == "JUNGLE"@ ==> candidates::role_of(t) == (3i64, "jungler"@),
        t == "TOP"@ ==> candidates::role_of(t) == (2i64, "top laner"@),
        t == "UTILITY"@ ==> candidates::role_of(t) == (1i64, "support"@),
        t != "BOTTOM"@ && t != "MIDDLE"@ && t != "JUNGLE"@ && t != "TOP"@ && t != "UTILITY"@
            ==> candidates::role_of(t) == (2i64, "carry"@),
{
    reveal_strlit("BOTTOM");
    reveal_strlit("MIDDLE");
    reveal_strlit("JUNGLE");
    reveal_strlit("TOP");
    reveal_strlit("UTILITY");
    assert("BOTTOM"@[0] == 'B');
    assert("MIDDLE"@[0] == 'M');
    assert("JUNGLE"@[0] == 'J');
    assert("TOP"@[0] == 'T');
    assert("UTILITY"@[0] == 'U');
}

/// A victim's form: four for a net scoreline of six, three for four, two for
/// two, one for one; and two at least with a shutdown of 300 gold.
pub proof fn lemma_form(net: int, shutdown: i64)
    ensures
        ({
            let form = candidates::form_of(net, shutdown);
            &&& form == 4 <==> net >= 6
            &&& form == 3 <==> 4 <= net < 6
            &&& form == 2 <==> 2 <= net < 4 || (net < 2 && shutdown >= 300)
            &&& form == 1 <==> net == 1 && shutdown < 300
            &&& form == 0 <==> net < 1 && shutdown < 300
        }),
{
}

/// The net scoreline counts what came before: a kill is one, two assists are
/// one, and a death is one less.
pub proof fn lemma_net_score(kills: Seq<KillV>, id: i32, t: i64)
    ensures
        candidates::net_score(kills, id, t) == seqs::count_where(
            kills,
            |k: KillV| k.t < t && k.killer == id,
        ) + seqs::count_where(kills, |k: KillV| k.t < t && k.assists.contains(id)) as int / 2
            - seqs::count_where(kills, |k: KillV| k.t < t && k.victim == id),
{
    seqs::lemma_same_condition(
        kills,
        |k: KillV| k.t < t && k.killer == id,
        candidates::earlier(t, candidates::killed_by(id)),
    );
    seqs::lemma_same_condition(
        kills,
        |k: KillV| k.t < t && k.assists.contains(id),
        candidates::earlier(t, candidates::assisted_by(id)),
    );
    seqs::lemma_same_condition(
        kills,
        |k: KillV| k.t < t && k.victim == id,
        candidates::earlier(t, candidates::death_of(id)),
    );
}

/// Whether a kill was cashed into an objective: its team took a dragon, the
/// Baron or the Herald within 90 seconds after it.
pub open spec fn cashed(o: ObjectiveV, k: KillV, pteam: i32) -> bool {
    o.team == pteam && moment_laws::is_large(o) && k.t <= o.t <= k.t + 90_000
}

/// Whether the victim's team answered a kill near its place, between three
/// seconds before it and ten after it.
pub open spec fn avenged(kills: Seq<KillV>, k: KillV, near: Seq<bool>, pteam: i32) -> bool {
    exists|a: int|
        #![trigger kills[a]]
        0 <= a < kills.len() && kills[a].killer_team == 300 - pteam && k.t - 3_000 <= kills[a].t
            <= k.t + 10_000 && a < near.len() && near[a]
}

/// A kill is a priority pick exactly if its victim, by their role and their
/// form, threatened at least five, and the player's team cashed it into a
/// large objective; the pick tells the first such objective, and whether
/// nobody answered.
pub proof fn lemma_priority_pick(
    k: KillV,
    near: Seq<bool>,
    tl: TimelineV,
    pteam: i32,
    ctx: ScoreV,
    r: int,
)
    requires
        pteam == 100 || pteam == 200,
        0 <= r < ctx.enemy_roles.len(),
        ctx.enemy_roles[r].0 == k.victim,
        forall|i: int| 0 <= i < r ==> (#[trigger] ctx.enemy_roles[i]).0 != k.victim,
    ensures
        ({
            let net = candidates::net_score(tl.kills, k.victim, k.t);
            let threat = ctx.enemy_roles[r].1 + candidates::form_of(net, k.shutdown);
            let role = ctx.enemy_roles[r].2;
            match candidates::pick_of(k, near, tl, pteam, ctx) {
                Some(p) => {
                    &&& p.threat == threat
                    &&& threat >= 5
                    &&& p.caught_out == !avenged(tl.kills, k, near, pteam)
                    &&& net >= 4 || k.shutdown >= 300 ==> p.who == "fed "@ + role
                    &&& net < 4 && k.shutdown < 300 ==> p.who == role
                    &&& exists|j: int|
                        {
                            &&& 0 <= j < tl.objectives.len()
                            &&& cashed(#[trigger] tl.objectives[j], k, pteam)
                            &&& tl.objectives[j].label == p.label
                            &&& forall|i: int|
                                0 <= i < j ==> !cashed(#[trigger] tl.objectives[i], k, pteam)
                        }
                },
                None => threat < 5 || forall|j: int|
                    0 <= j < tl.objectives.len() ==> !cashed(
                        #[trigger] tl.objectives[j],
                        k,
                        pteam,
                    ),
            }
        }),
{
    let find = candidates::role_entry(k.victim);
    seqs::lemma_first_is(ctx.enemy_roles, find);
    assert(seqs::first_where(ctx.enemy_roles, find) == Some(r)) by {
        assert(find(ctx.enemy_roles[r]));
        let i = seqs::first_where(ctx.enemy_roles, find)->Some_0;
        if i < r {
            assert(ctx.enemy_roles[i].0 != k.victim);
        }
    }
    let p = candidates::cashes(pteam, k.t);
    seqs::lemma_first_is(tl.objectives, p);
    assert forall|j: int| 0 <= j < tl.objectives.len() implies p(#[trigger] tl.objectives[j])
        == cashed(tl.objectives[j], k, pteam) by {}
    let answered = candidates::answered(tl.kills, (300 - pteam) as i32, k.t as int, near);
    if answered {
        let a = choose|a: int|
            #![trigger tl.kills[a]]
            0 <= a < tl.kills.len() && tl.kills[a].killer_team == 300 - pteam && k.t - 3_000
                <= tl.kills[a].t <= k.t + 10_000 && candidates::close(near, a);
        assert(tl.kills[a].killer_team == 300 - pteam);
    }
    if avenged(tl.kills, k, near, pteam) {
        let a = choose|a: int|
            #![trigger tl.kills[a]]
            0 <= a < tl.kills.len() && tl.kills[a].killer_team == 300 - pteam && k.t - 3_000
                <= tl.kills[a].t <= k.t + 10_000 && a < near.len() && near[a];
        assert(candidates::close(near, a));
    }
}

/// A kill whose victim is no enemy of the board is no priority pick.
pub proof fn lemma_no_enemy_no_pick(
    k: KillV,
    near: Seq<bool>,
    tl: TimelineV,
    pteam: i32,
    ctx: ScoreV,
)
    requires
        forall|i: int| 0 <= i < ctx.enemy_roles.len() ==> (#[trigger] ctx.enemy_roles[i]).0
            != k.victim,
    ensures
        candidates::pick_of(k, near, tl, pteam, ctx) is None,
{
    let find = candidates::role_entry(k.victim);
    seqs::lemma_first_is(ctx.enemy_roles, find);
    if let Some(i) = seqs::first_where(ctx.enemy_roles, find) {
        assert(ctx.enemy_roles[i].0 == k.victim);
    }
}

/// Whether the pick of kill `i` is the best of some kills: none threatens more,
/// and none after it as much.
pub open spec fn is_best_pick(
    pkills: Seq<KillV>,
    near: Seq<Seq<bool>>,
    tl: TimelineV,
    pteam: i32,
    ctx: ScoreV,
    p: PickV,
    i: int,
) -> bool {
    &&& 0 <= i < pkills.len()
    &&& candidates::pick_of(pkills[i], near[i], tl, pteam, ctx) == Some(p)
    &&& forall|j: int|
        0 <= j < pkills.len() ==> (candidates::pick_of(
            #[trigger] pkills[j],
            near[j],
            tl,
            pteam,
            ctx,
        ) matches Some(q) ==> q.threat <= p.threat && (i < j ==> q.threat < p.threat))
}

/// The best pick is that of one of the kills: none of theirs threatens more,
/// and the last of equals counts.
pub proof fn lemma_best_pick(
    pkills: Seq<KillV>,
    near: Seq<Seq<bool>>,
    tl: TimelineV,
    pteam: i32,
    ctx: ScoreV,
)
    requires
        near.len() >= pkills.len(),
    ensures
        match candidates::best_pick(pkills, near, tl, pteam, ctx) {
            Some(p) => exists|i: int| #[trigger] is_best_pick(pkills, near, tl, pteam, ctx, p, i),
            None => forall|i: int|
                0 <= i < pkills.len() ==> candidates::pick_of(
                    #[trigger] pkills[i],
                    near[i],
                    tl,
                    pteam,
                    ctx,
                ) is None,
        },
    decreases pkills.len(),
{
    if pkills.len() > 0 {
        let fewer = pkills.drop_last();
        lemma_best_pick(fewer, near, tl, pteam, ctx);
        assert forall|i: int| 0 <= i < fewer.len() implies fewer[i] == #[trigger] pkills[i] by {}
        let n = pkills.len() - 1;
        assert(pkills[n] == pkills.last());
        let before = candidates::best_pick(fewer, near, tl, pteam, ctx);
        let now = candidates::best_pick(pkills, near, tl, pteam, ctx);
        let here = candidates::pick_of(pkills[n], near[n], tl, pteam, ctx);
        assert(now == candidates::better_pick(before, here));
        if let Some(p) = now {
            let later = match (before, here) {
                (Some(x), Some(y)) => y.threat >= x.threat,
                (None, _) => true,
                (_, None) => false,
            };
            if later {
                if let Some(x) = before {
                    let i = choose|i: int|
                        #[trigger] is_best_pick(fewer, near, tl, pteam, ctx, x, i);
                    assert(x.threat <= p.threat);
                }
                assert(is_best_pick(pkills, near, tl, pteam, ctx, p, n));
            } else {
                let i = choose|i: int| #[trigger] is_best_pick(fewer, near, tl, pteam, ctx, p, i);
                assert(is_best_pick(pkills, near, tl, pteam, ctx, p, i));
            }
        }
    }
}

/// Whoever had a part in a kill of a fight is in it, killing, assisting or
/// dying, and nobody else.
pub proof fn lemma_everyone(fight: Seq<KillV>, id: i32)
    ensures
        candidates::everyone(fight).contains(id) <==> exists|i: int|
            0 <= i < fight.len() && (((#[trigger] fight[i]).killer == id && id > 0)
                || fight[i].assists.contains(id) || (fight[i].victim == id && id > 0)),
    decreases fight.len(),
{
    if fight.len() > 0 {
        let fewer = fight.drop_last();
        lemma_everyone(fewer, id);
        assert forall|i: int| 0 <= i < fewer.len() implies fewer[i] == #[trigger] fight[i] by {}
        let k = fight.last();
        assert(fight[fight.len() - 1] == k);
        assert(k.assists.to_set().contains(id) == k.assists.contains(id));
        if candidates::everyone(fewer).contains(id) {
            let i = choose|i: int|
                0 <= i < fewer.len() && (((#[trigger] fewer[i]).killer == id && id > 0)
                    || fewer[i].assists.contains(id) || (fewer[i].victim == id && id > 0));
            assert(fight[i] == fewer[i]);
        }
    }
}

/// The odds of a fight: those in it who play for the player's team, and all the
/// others.
pub proof fn lemma_odds(
    tl: TimelineV,
    near: Seq<Seq<bool>>,
    from: int,
    to: int,
    pid: i32,
    pteam: i32,
    ctx: ScoreV,
)
    ensures
        ({
            let s = highlights::story(tl, near, from, to, pid, pteam, ctx);
            let all = candidates::everyone(tl.kills.subrange(from, to));
            &&& s.allies == all.filter(
                |id: i32| timeline::roster_team(ctx.roster, id as i64) == pteam,
            ).len()
            &&& s.enemies == all.filter(
                |id: i32| timeline::roster_team(ctx.roster, id as i64) != pteam,
            ).len()
        }),
{
    let all = candidates::everyone(tl.kills.subrange(from, to));
    assert(all.filter(|id: i32| timeline::roster_team(ctx.roster, id as i64) == pteam)
        =~= all.filter(candidates::on_side(ctx.roster, pteam, true)));
    assert(all.filter(|id: i32| timeline::roster_team(ctx.roster, id as i64) != pteam)
        =~= all.filter(candidates::on_side(ctx.roster, pteam, false)));
}

/// The gold of a fight is what the player's kills paid, bounties and shutdowns.
pub proof fn lemma_gold(pkills: Seq<KillV>)
    ensures
        highlights::gold_of(pkills) matches Some(g) ==> g == seqs::sum_of(
            pkills,
            |k: KillV| k.bounty + k.shutdown,
        ),
    decreases pkills.len(),
{
    if pkills.len() > 0 {
        lemma_gold(pkills.drop_last());
    }
}

/// The board of a player: the participants of another team, each with the
/// weight and the name of their role.
pub proof fn lemma_board(participants: Seq<ParticipantV>, team_id: u16)
    ensures
        ({
            let board = picks::roles_against(participants, team_id);
            &&& board.len() == seqs::count_where(
                participants,
                |p: ParticipantV| p.team_id != team_id,
            )
            &&& forall|i: int|
                0 <= i < participants.len() && (#[trigger] participants[i]).team_id != team_id
                    ==> board.contains(
                    (
                        participants[i].participant_id,
                        candidates::role_of(participants[i].team_position).0,
                        candidates::role_of(participants[i].team_position).1,
                    ),
                )
        }),
    decreases participants.len(),
{
    if participants.len() > 0 {
        let fewer = participants.drop_last();
        lemma_board(fewer, team_id);
        let before = picks::roles_against(fewer, team_id);
        let board = picks::roles_against(participants, team_id);
        assert forall|i: int|
            0 <= i < participants.len() && (#[trigger] participants[i]).team_id
                != team_id implies board.contains(
            (
                participants[i].participant_id,
                candidates::role_of(participants[i].team_position).0,
                candidates::role_of(participants[i].team_position).1,
            ),
        ) by {
            let e = (
                participants[i].participant_id,
                candidates::role_of(participants[i].team_position).0,
                candidates::role_of(participants[i].team_position).1,
            );
            if i < fewer.len() {
                assert(fewer[i] == participants[i]);
                let j = choose|j: int| 0 <= j < before.len() && before[j] == e;
                assert(board[j] == e);
            } else {
                assert(board[board.len() - 1] == e);
            }
        }
    }
}

/// What a player's scoring goes by: how long they held enemies, when the game
/// ended, and who played for whom.
pub proof fn lemma_context(game: GameV, player: ParticipantV)
    ensures
        ({
            let ctx = picks::context_of(game, player);
            &&& ctx.cc_seconds == player.time_ccing_others
            &&& ctx.end_ms == game.game_duration * 1000
            &&& ctx.enemy_roles == picks::roles_against(game.participants, player.team_id)
            &&& ctx.roster.len() == game.participants.len()
            &&& forall|i: int|
                0 <= i < game.participants.len() ==> {
                    let p = game.participants[i];
                    &&& (#[trigger] ctx.roster[i]).0 == p.participant_id
                    &&& p.team_id == 100 ==> ctx.roster[i].1 == 100
                    &&& p.team_id == 200 ==> ctx.roster[i].1 == 200
                    &&& p.team_id != 100 && p.team_id != 200 ==> ctx.roster[i].1 == 0
                }
        }),
{
}

// --- a player's candidates ---------------------------------------------------

/// A player's Highlights are plays of theirs, the best of their fights and
/// secures; their Lowlights are deaths of theirs. Nobody who did not play has
/// any.
pub proof fn lemma_clips_are_the_players(
    game: GameV,
    tl: TimelineV,
    near: Seq<Seq<bool>>,
    puuid: Seq<char>,
)
    ensures
        game.player(puuid) is None ==> picks::clips_of(game, tl, near, puuid) == Some(
            (Seq::<CandidateV>::empty(), Seq::<CandidateV>::empty()),
        ),
        game.player(puuid) matches Some(player) ==> (picks::clips_of(game, tl, near, puuid) matches Some(
            (highs, lows),
        ) ==> {
            let pid = player.participant_id;
            let ctx = picks::context_of(game, player);
            let pteam = game::side_of(player.team_id);
            &&& highs.len() <= 3
            &&& lows.len() <= 3
            &&& forall|j: int|
                0 <= j < highs.len() ==> {
                    ||| highlights::fight_clips(
                        tl,
                        near,
                        candidates::clusters(tl.kills, tl.kills.len()),
                        pid,
                        pteam,
                        ctx,
                    )->Some_0.contains(#[trigger] highs[j])
                    ||| candidates::secure_clips(tl.objectives, pid, pteam, ctx).contains(highs[j])
                }
            &&& forall|j: int|
                0 <= j < lows.len() ==> exists|i: int|
                    0 <= i < tl.kills.len() && (#[trigger] tl.kills[i]).victim == pid && (
                    #[trigger] lows[j]).t_ms == tl.kills[i].t
        }),
{
    if let Some(player) = game.player(puuid) {
        if let Some((highs, lows)) = picks::clips_of(game, tl, near, puuid) {
            let pid = player.participant_id;
            let ctx = picks::context_of(game, player);
            let pteam = game::side_of(player.team_id);
            let fights = candidates::clusters(tl.kills, tl.kills.len());
            let plays = highlights::fight_clips(tl, near, fights, pid, pteam, ctx)->Some_0;
            let secures = candidates::secure_clips(tl.objectives, pid, pteam, ctx);
            let list = picks::scored(plays + secures);
            lemma_best_three(list);
            assert forall|j: int| 0 <= j < highs.len() implies {
                ||| plays.contains(#[trigger] highs[j])
                ||| secures.contains(highs[j])
            } by {
                assert(list.contains((highs[j].score, highs[j])));
                let i = choose|i: int|
                    0 <= i < list.len() && list[i] == (highs[j].score, highs[j]);
                if i < plays.len() {
                    assert(plays[i] == highs[j]);
                } else {
                    assert(secures[i - plays.len()] == highs[j]);
                }
            }
            let n = tl.kills.len() as int;
            let deaths = lowlights::death_clips(tl, near, n, pid, pteam, game, ctx);
            lemma_every_death_is_a_candidate(tl, near, n, pid, pteam, game, ctx);
            lemma_best_three(deaths);
            assert forall|j: int| 0 <= j < lows.len() implies exists|i: int|
                0 <= i < tl.kills.len() && (#[trigger] tl.kills[i]).victim == pid && (
                #[trigger] lows[j]).t_ms == tl.kills[i].t by {
                assert(deaths.contains((lows[j].score, lows[j])));
                let k = choose|k: int|
                    0 <= k < deaths.len() && deaths[k] == (lows[j].score, lows[j]);
                assert(deaths[k].0 == deaths[k].1.score);
                let i = choose|i: int|
                    0 <= i < n && (#[trigger] tl.kills[i]).victim == pid && deaths[k].1
                        == lowlights::death_clip(
                        lowlights::death_story(tl, near, i, pid, pteam, game, ctx),
                    );
                assert(tl.kills[i].victim == pid && lows[j].t_ms == tl.kills[i].t);
            }
        }
    }
}

/// The picks of a game: every watched player once, in the order of their
/// PUUIDs; each one's Highlight is one of their Highlight candidates and their
/// Lowlight one of their Lowlight candidates, and only who has no candidate has
/// no pick.
pub proof fn lemma_everyone_watched_has_their_picks(
    game: GameV,
    tl: TimelineV,
    near: Seq<Seq<bool>>,
    watched: Seq<Seq<char>>,
)
    ensures
        picks::joint_picks(game, tl, near, watched) matches Some(all) ==> {
            &&& forall|x: Seq<char>|
                #[trigger] watched.contains(x) ==> exists|i: int|
                    0 <= i < all.len() && (#[trigger] all[i]).0 == x
            &&& forall|i: int| 0 <= i < all.len() ==> watched.contains((#[trigger] all[i]).0)
            &&& forall|i: int, j: int|
                0 <= i < j < all.len() ==> text::comes_before(
                    (#[trigger] all[i]).0,
                    (#[trigger] all[j]).0,
                )
            &&& forall|i: int|
                0 <= i < all.len() ==> match picks::clips_of(game, tl, near, (#[trigger] all[i]).0) {
                    Some((highs, lows)) => {
                        &&& all[i].1 matches Some(c) ==> highs.contains(c)
                        &&& all[i].1 is None ==> highs.len() == 0
                        &&& all[i].2 matches Some(c) ==> lows.contains(c)
                        &&& all[i].2 is None ==> lows.len() == 0
                    },
                    None => false,
                }
        },
{
    if let Some(all) = picks::joint_picks(game, tl, near, watched) {
        let names = picks::ordered_names(watched);
        picks::lemma_ordered_names(watched);
        text::lemma_text_order();
        let highs = picks::side_clips(game, tl, near, names, true);
        let lows = picks::side_clips(game, tl, near, names, false);
        assert forall|i: int, j: int| 0 <= i < j < names.len() implies #[trigger] names[i]
            != #[trigger] names[j] by {
            assert(text::comes_before(names[i], names[j]));
            assert(text::text_order()(names[i], names[j]));
        }
        assert(picks::distinct(highs));
        assert(picks::distinct(lows));
        picks::lemma_everyone_picks(highs);
        picks::lemma_everyone_picks(lows);
        assert forall|x: Seq<char>| #[trigger] watched.contains(x) implies exists|i: int|
            0 <= i < all.len() && (#[trigger] all[i]).0 == x by {
            assert(names.contains(x));
            let i = choose|i: int| 0 <= i < names.len() && names[i] == x;
            assert(all[i].0 == x);
        }
        assert forall|i: int| 0 <= i < all.len() implies watched.contains(
            (#[trigger] all[i]).0,
        ) by {
            assert(names.contains(names[i]));
        }
        assert forall|i: int| 0 <= i < all.len() implies match picks::clips_of(
            game,
            tl,
            near,
            (#[trigger] all[i]).0,
        ) {
            Some((hs, ls)) => {
                &&& all[i].1 matches Some(c) ==> hs.contains(c)
                &&& all[i].1 is None ==> hs.len() == 0
                &&& all[i].2 matches Some(c) ==> ls.contains(c)
                &&& all[i].2 is None ==> ls.len() == 0
            },
            None => false,
        } by {
            assert(picks::clips_of(game, tl, near, names[i]) is Some);
            assert(highs[i].0 == names[i]);
            assert(lows[i].0 == names[i]);
        }
    }
}

// --- captions ----------------------------------------------------------------

/// The caption of a fight tells everything that its score counts.
pub proof fn lemma_fight_caption(s: StoryV)
    ensures
        ({
            let told = highlights::story_text(s);
            &&& ("you went "@ + text::dec(s.kills) + "/"@ + text::dec(s.deaths) + "/"@ + text::dec(
                s.assists,
            ) + " in a fight"@).is_prefix_of(told)
            &&& s.multi == 2 ==> text::holds(told, ", a "@ + "double kill"@)
            &&& s.multi == 3 ==> text::holds(told, ", a "@ + "triple kill"@)
            &&& s.multi == 4 ==> text::holds(told, ", a "@ + "quadra kill"@)
            &&& s.multi >= 5 ==> text::holds(told, ", a "@ + "pentakill"@)
            &&& s.solo == 1 ==> text::holds(told, ", incl. a solo kill"@)
            &&& s.solo > 1 ==> text::holds(
                told,
                ", incl. "@ + text::dec(s.solo) + " solo kills"@,
            )
            &&& s.closeness >= 90 ==> text::holds(told, ", won a near-lethal duel"@)
            &&& 60 <= s.closeness < 90 ==> text::holds(told, ", won a hard-fought duel"@)
            &&& s.carried > 0 ==> text::holds(told, ", did nearly all the damage"@)
            &&& (s.pick matches Some(p) && p.caught_out) ==> text::holds(
                told,
                ", caught their "@ + s.pick->Some_0.who + " out"@,
            )
            &&& (s.pick matches Some(p) && !p.caught_out) ==> text::holds(
                told,
                ", picked off their "@ + s.pick->Some_0.who,
            )
        }),
{
    lemma_parts();
    let told = highlights::story_text(s);
    let opener = "you went "@ + text::dec(s.kills) + "/"@ + text::dec(s.deaths) + "/"@ + text::dec(
        s.assists,
    ) + " in a fight"@;
    assert(told.subrange(0, opener.len() as int) =~= opener);
    assert(s.multi >= 2 ==> text::holds(told, highlights::multi_part(s)));
    assert(s.solo > 0 ==> text::holds(told, highlights::solo_part(s)));
    assert(text::holds(told, highlights::duel_part(s)));
    assert(text::holds(told, highlights::carry_part(s)));
    if let Some(p) = s.pick {
        let what = if p.caught_out {
            ", caught their "@ + p.who + " out"@
        } else {
            ", picked off their "@ + p.who
        };
        assert(text::holds(highlights::pick_part(s), what));
        assert(text::holds(told, what));
    }
}

/// The caption of a fight ends with the gold, and tells how it ended: whether
/// the player walked away, the odds, first blood, and the objective that
/// followed, which is said once.
pub proof fn lemma_fight_caption_end(s: StoryV)
    ensures
        ({
            let told = highlights::story_text(s);
            &&& (" (+"@ + text::dec(s.gold) + "g)"@).is_suffix_of(told)
            &&& s.enemies > s.allies ==> text::holds(
                told,
                ", outnumbered "@ + text::dec(s.allies) + "v"@ + text::dec(s.enemies),
            )
            &&& s.first_blood ==> text::holds(told, ", first blood"@)
            &&& s.survived ==> text::holds(told, ", walked away"@)
            &&& !s.survived && s.deaths > 0 ==> text::holds(told, ", but died in it"@)
            &&& s.objective matches Some(label) ==> text::holds(told, "; "@ + label + " followed"@)
            &&& s.closing ==> text::holds(told, "; the closing fight"@)
            &&& (s.pick is Some && s.objective is None) ==> text::holds(
                told,
                " — the team cashed it into "@ + s.pick->Some_0.label,
            )
        }),
{
    lemma_parts();
    let told = highlights::story_text(s);
    let tail = " (+"@ + text::dec(s.gold) + "g)"@;
    assert(told.subrange(told.len() - tail.len(), told.len() as int) =~= tail);
    assert(text::holds(told, highlights::odds_part(s)));
    assert(text::holds(told, highlights::first_blood_part(s)));
    assert(text::holds(told, highlights::survival_part(s)));
    assert(text::holds(told, highlights::objective_part(s)));
    assert(text::holds(told, highlights::closing_part(s)));
    if s.pick is Some && s.objective is None {
        let p = s.pick->Some_0;
        let opener = if p.caught_out {
            ", caught their "@ + p.who + " out"@
        } else {
            ", picked off their "@ + p.who
        };
        let what = " — the team cashed it into "@ + p.label;
        assert(highlights::pick_part(s) =~= opener + what);
        assert(text::holds(opener + what, what));
        assert(text::holds(told, highlights::pick_part(s)));
        assert(text::holds(told, what));
    }
}

/// Of a fight that has nothing else to it the caption tells the scoreline and
/// the gold alone.
pub proof fn lemma_plain_fight_caption(s: StoryV)
    requires
        s.multi < 2,
        s.solo == 0,
        s.closeness < 60,
        s.carried <= 0,
        s.pick is None,
        s.enemies <= s.allies,
        !s.first_blood,
        !s.survived,
        s.deaths <= 0,
        s.objective is None,
        !s.closing,
    ensures
        highlights::story_text(s) == "you went "@ + text::dec(s.kills) + "/"@ + text::dec(s.deaths)
            + "/"@ + text::dec(s.assists) + " in a fight"@ + " (+"@ + text::dec(s.gold) + "g)"@,
{
    reveal_strlit("");
    let none = ""@;
    assert(none =~= seq![]);
    assert(forall|a: Seq<char>| #[trigger] (a + none) =~= a);
}

/// Whether `ranked` is a ranking of some scored candidates: the same ones, the
/// higher score first, and of equal scores the one that came first.
pub open spec fn ranks(ranked: Seq<(i64, CandidateV)>, scored: Seq<(i64, CandidateV)>) -> bool {
    &&& ranked.to_multiset() == scored.to_multiset()
    &&& forall|i: int, j: int|
        0 <= i < j < ranked.len() ==> (#[trigger] ranked[i]).0 >= (#[trigger] ranked[j]).0
    &&& forall|score: i64| #[trigger] of_score(ranked, score) == of_score(scored, score)
}

/// The candidates of one score, in order.
pub open spec fn of_score(scored: Seq<(i64, CandidateV)>, score: i64) -> Seq<(i64, CandidateV)> {
    seqs::keep(scored, |e: (i64, CandidateV)| e.0 == score)
}

/// The best few are the first three of the ranking, in chronological order:
/// among equal scores the earlier candidate is surfaced.
pub proof fn lemma_ties_go_to_the_earlier(scored: Seq<(i64, CandidateV)>)
    ensures
        exists|ranked: Seq<(i64, CandidateV)>|
            {
                &&& #[trigger] ranks(ranked, scored)
                &&& ranked.len() <= 3 ==> candidates::best_of(scored) == ranked
                &&& ranked.len() > 3 ==> candidates::best_of(scored) == ranked.take(3)
            },
        forall|c: CandidateV| #[trigger]
            candidates::top_of(scored).contains(c) <==> exists|i: int|
                0 <= i < candidates::best_of(scored).len() && (#[trigger] candidates::best_of(
                    scored,
                )[i]).1 == c,
{
    let ranked = seqs::sorted_by(scored, candidates::higher());
    seqs::lemma_sort_permutes(scored, candidates::higher());
    seqs::lemma_sort_orders(scored, candidates::higher());
    assert forall|i: int, j: int| 0 <= i < j < ranked.len() implies (#[trigger] ranked[i]).0 >= (
    #[trigger] ranked[j]).0 by {
        assert(!candidates::higher()(ranked[j], ranked[i]));
    }
    assert forall|score: i64| #[trigger] of_score(ranked, score) == of_score(scored, score) by {
        seqs::lemma_sort_stable(
            scored,
            candidates::higher(),
            |e: (i64, CandidateV)| e.0 == score,
        );
    }
    assert(ranks(ranked, scored));
    let kept = candidates::best_of(scored);
    let sorted = seqs::sorted_by(kept, candidates::sooner());
    let top = candidates::top_of(scored);
    assert forall|c: CandidateV| #[trigger] top.contains(c) <==> exists|i: int|
        0 <= i < kept.len() && (#[trigger] kept[i]).1 == c by {
        if top.contains(c) {
            let j = choose|j: int| 0 <= j < top.len() && top[j] == c;
            seqs::lemma_sort_contains(kept, candidates::sooner(), sorted[j]);
            assert(sorted.contains(sorted[j]));
            let i = choose|i: int| 0 <= i < kept.len() && kept[i] == sorted[j];
            assert(kept[i].1 == c);
        }
        if exists|i: int| 0 <= i < kept.len() && (#[trigger] kept[i]).1 == c {
            let i = choose|i: int| 0 <= i < kept.len() && (#[trigger] kept[i]).1 == c;
            seqs::lemma_sort_contains(kept, candidates::sooner(), kept[i]);
            assert(kept.contains(kept[i]));
            let j = choose|j: int| 0 <= j < sorted.len() && sorted[j] == kept[i];
            assert(top[j] == c);
        }
    }
}

} // verus!
