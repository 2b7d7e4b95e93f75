//! What the joint assignment of clips is for: the strongest claim goes first,
//! and the picks spread over different footage.

use vstd::prelude::*;

use crate::candidates::CandidateV;
use crate::picks;

verus! {

/// Whether two clips show the same footage: some stretch of the game is in
/// both, and it is longer than half of one of them.
pub open spec fn shares_footage(a: CandidateV, b: CandidateV) -> bool {
    exists|from: int, to: int| #[trigger] common_stretch(a, b, from, to) && ((to - from) * 2
        > a.dur_s || (to - from) * 2 > b.dur_s)
}

/// Whether the seconds `from..to` of the game are in both clips.
pub open spec fn common_stretch(a: CandidateV, b: CandidateV, from: int, to: int) -> bool {
    &&& a.seek_s <= from
    &&& b.seek_s <= from
    &&& to <= a.seek_s + a.dur_s
    &&& to <= b.seek_s + b.dur_s
}

/// Whether a clip shows the footage of none of the picks before pick `k`.
pub open spec fn fresh(c: CandidateV, granted: Seq<(Seq<char>, CandidateV)>, k: int) -> bool {
    forall|m: int| 0 <= m < k ==> !shares_footage(c, (#[trigger] granted[m]).1)
}

/// Whether `c` is what a player with the candidates `clips` claims after the
/// first `k` picks: their best fresh candidate, as long as it is their best of
/// all or at least half as good, and otherwise the best of all. Of equals, the
/// earliest.
pub open spec fn claims(
    clips: Seq<CandidateV>,
    granted: Seq<(Seq<char>, CandidateV)>,
    k: int,
    c: CandidateV,
) -> bool {
    &&& clips.contains(c)
    &&& if fresh(c, granted, k) {
        &&& forall|i: int|
            0 <= i < clips.len() && fresh(#[trigger] clips[i], granted, k) ==> no_better(clips[i], c)
        &&& {
            ||| forall|i: int| 0 <= i < clips.len() ==> (#[trigger] clips[i]).score <= c.score * 2
            ||| forall|i: int| 0 <= i < clips.len() ==> (#[trigger] clips[i]).score <= c.score
        }
    } else {
        &&& forall|i: int| 0 <= i < clips.len() ==> no_better(#[trigger] clips[i], c)
        &&& forall|i: int|
            0 <= i < clips.len() && fresh(#[trigger] clips[i], granted, k) ==> clips[i].score * 2
                < c.score
    }
}

/// Whether `a` scores less than `c`, or as much and no sooner.
pub open spec fn no_better(a: CandidateV, c: CandidateV) -> bool {
    a.score < c.score || (a.score == c.score && c.t_ms <= a.t_ms)
}

/// Whether a player has none of the first `k` picks.
pub open spec fn waits(name: Seq<char>, granted: Seq<(Seq<char>, CandidateV)>, k: int) -> bool {
    forall|m: int| 0 <= m < k ==> (#[trigger] granted[m]).0 != name
}

/// Whether pick `k` is the claim of player `j`, and no claim of a player who
/// still waits is stronger: those of the players before `j` are weaker, and
/// those of the players after them are no stronger.
pub open spec fn strongest_of(
    players: Seq<(Seq<char>, Seq<CandidateV>)>,
    granted: Seq<(Seq<char>, CandidateV)>,
    k: int,
    j: int,
) -> bool {
    &&& 0 <= j < players.len()
    &&& granted[k].0 == players[j].0
    &&& waits(players[j].0, granted, k)
    &&& claims(players[j].1, granted, k, granted[k].1)
    &&& forall|i: int, c: CandidateV|
        #![trigger players[i], claims(players[i].1, granted, k, c)]
        0 <= i < players.len() && waits(players[i].0, granted, k) && claims(
            players[i].1,
            granted,
            k,
            c,
        ) ==> {
            &&& c.score <= granted[k].1.score
            &&& i < j ==> c.score < granted[k].1.score
        }
}

/// Whether pick `k` is the strongest claim of all who still wait.
pub open spec fn goes_to_strongest(
    players: Seq<(Seq<char>, Seq<CandidateV>)>,
    granted: Seq<(Seq<char>, CandidateV)>,
    k: int,
) -> bool {
    exists|j: int| #[trigger] strongest_of(players, granted, k, j)
}

/// Whether everybody's candidates end at a 64-bit second.
pub open spec fn windows_end(players: Seq<(Seq<char>, Seq<CandidateV>)>) -> bool {
    forall|i: int, j: int|
        0 <= i < players.len() && 0 <= j < players[i].1.len() ==> i64::MIN <= (
        #[trigger] players[i].1[j]).seek_s + players[i].1[j].dur_s <= i64::MAX
}

/// Two clips overlap exactly if they show the same footage, and which of them
/// was claimed does not matter.
pub proof fn lemma_overlap_is_shared_footage(c: CandidateV, claimed: CandidateV)
    requires
        i64::MIN <= claimed.seek_s + claimed.dur_s <= i64::MAX,
    ensures
        picks::overlapping(c, (claimed.seek_s, (claimed.seek_s + claimed.dur_s) as i64))
            == shares_footage(c, claimed),
        shares_footage(c, claimed) == shares_footage(claimed, c),
{
    let from = if c.seek_s > claimed.seek_s {
        c.seek_s as int
    } else {
        claimed.seek_s as int
    };
    let to = if c.seek_s + c.dur_s < claimed.seek_s + claimed.dur_s {
        c.seek_s + c.dur_s
    } else {
        claimed.seek_s + claimed.dur_s
    };
    assert(common_stretch(c, claimed, from, to));
    assert(common_stretch(claimed, c, from, to));
    assert forall|f: int, t: int| #[trigger] common_stretch(c, claimed, f, t) implies t - f <= to
        - from by {}
    assert forall|f: int, t: int| #[trigger] common_stretch(claimed, c, f, t) implies t - f <= to
        - from by {}
}

proof fn lemma_fresh(c: CandidateV, granted: Seq<(Seq<char>, CandidateV)>, k: int)
    requires
        0 <= k <= granted.len(),
        forall|m: int|
            0 <= m < k ==> i64::MIN <= (#[trigger] granted[m]).1.seek_s + granted[m].1.dur_s
                <= i64::MAX,
    ensures
        fresh(c, granted, k) == picks::is_free(c, picks::windows(granted.take(k))),
{
    let taken = picks::windows(granted.take(k));
    assert forall|m: int| 0 <= m < k implies picks::overlapping(c, #[trigger] taken[m])
        == shares_footage(c, granted[m].1) by {
        lemma_overlap_is_shared_footage(c, granted[m].1);
        assert(taken[m] == picks::window_of(granted.take(k)[m].1));
    }
    if fresh(c, granted, k) {
        assert forall|w: int| 0 <= w < taken.len() implies !picks::overlapping(
            c,
            #[trigger] taken[w],
        ) by {
            assert(!shares_footage(c, granted[w].1));
        }
    }
    if picks::is_free(c, taken) {
        assert forall|m: int| 0 <= m < k implies !shares_footage(c, (#[trigger] granted[m]).1) by {
            assert(!picks::overlapping(c, taken[m]));
        }
    }
}

/// A player claims their choice, and every claim of theirs scores as much.
proof fn lemma_choice_is_claim(
    clips: Seq<CandidateV>,
    granted: Seq<(Seq<char>, CandidateV)>,
    k: int,
)
    requires
        0 <= k <= granted.len(),
        forall|m: int|
            0 <= m < k ==> i64::MIN <= (#[trigger] granted[m]).1.seek_s + granted[m].1.dur_s
                <= i64::MAX,
    ensures
        match picks::choice_of(clips, picks::windows(granted.take(k))) {
            Some(c) => claims(clips, granted, k, c) && forall|d: CandidateV| #[trigger]
                claims(clips, granted, k, d) ==> d.score == c.score,
            None => clips.len() == 0,
        },
{
    let taken = picks::windows(granted.take(k));
    picks::lemma_best_clip(clips, taken, false);
    picks::lemma_best_clip(clips, taken, true);
    assert forall|c: CandidateV| #[trigger] fresh(c, granted, k) == picks::is_free(c, taken) by {
        lemma_fresh(c, granted, k);
    }
    if picks::best_clip(clips, taken, false) is None && clips.len() > 0 {
        assert(clips[0] == clips[0]);
    }
    if let Some(c) = picks::choice_of(clips, taken) {
        let any = picks::best_clip(clips, taken, false)->Some_0;
        assert forall|i: int| 0 <= i < clips.len() implies no_better(#[trigger] clips[i], any) by {}
        assert(clips.contains(c));
        let j = choose|j: int| 0 <= j < clips.len() && clips[j] == any;
        assert(clips[j].score == any.score);
        if fresh(c, granted, k) {
            let free = picks::best_clip(clips, taken, true)->Some_0;
            assert forall|i: int|
                0 <= i < clips.len() && fresh(#[trigger] clips[i], granted, k) implies no_better(
                clips[i],
                c,
            ) by {
                assert(picks::is_free(clips[i], taken));
            }
        } else {
            assert forall|i: int|
                0 <= i < clips.len() && fresh(#[trigger] clips[i], granted, k) implies clips[i].score
                * 2 < c.score by {
                assert(picks::is_free(clips[i], taken));
                let free = picks::best_clip(clips, taken, true)->Some_0;
                assert(clips[i].score <= free.score);
            }
        }
        assert(claims(clips, granted, k, c));
        assert forall|d: CandidateV| #[trigger] claims(clips, granted, k, d) implies d.score
            == c.score by {
            let a = choose|a: int| 0 <= a < clips.len() && clips[a] == d;
            let b = choose|b: int| 0 <= b < clips.len() && clips[b] == c;
            assert(clips[a] == d && clips[b] == c);
            assert(fresh(clips[a], granted, k) == fresh(d, granted, k));
            assert(fresh(clips[b], granted, k) == fresh(c, granted, k));
        }
    }
}

/// What the strongest claim is among all: every choice scores no more, and the
/// choices of the players before it score less.
proof fn lemma_strongest(
    players: Seq<(Seq<char>, Seq<CandidateV>)>,
    claimed: Seq<(i64, i64)>,
)
    ensures
        match picks::strongest(players, claimed) {
            Some((j, c)) => {
                &&& 0 <= j < players.len()
                &&& picks::choice_of(players[j].1, claimed) == Some(c)
                &&& forall|i: int|
                    0 <= i < players.len() ==> (picks::choice_of(
                        (#[trigger] players[i]).1,
                        claimed,
                    ) matches Some(d) ==> d.score <= c.score && (i < j ==> d.score < c.score))
            },
            None => forall|i: int|
                0 <= i < players.len() ==> picks::choice_of((#[trigger] players[i]).1, claimed)
                    is None,
        },
    decreases players.len(),
{
    if players.len() > 0 {
        let fewer = players.drop_last();
        lemma_strongest(fewer, claimed);
        assert forall|i: int| 0 <= i < fewer.len() implies fewer[i] == #[trigger] players[i] by {}
        assert(players[players.len() - 1] == players.last());
    }
}

proof fn lemma_strongest_from(
    players: Seq<(Seq<char>, Seq<CandidateV>)>,
    before: Seq<(Seq<char>, CandidateV)>,
    granted: Seq<(Seq<char>, CandidateV)>,
)
    requires
        picks::distinct(players),
        windows_end(players),
        forall|m: int|
            0 <= m < before.len() ==> i64::MIN <= (#[trigger] before[m]).1.seek_s
                + before[m].1.dur_s <= i64::MAX,
        forall|i: int|
            0 <= i < players.len() ==> waits(
                (#[trigger] players[i]).0,
                before,
                before.len() as int,
            ),
        granted == before + picks::assignment(players, picks::windows(before)),
    ensures
        forall|k: int|
            before.len() <= k < granted.len() ==> #[trigger] goes_to_strongest(players, granted, k),
    decreases players.len(),
{
    let taken = picks::windows(before);
    lemma_strongest(players, taken);
    let n = before.len() as int;
    if let Some((j, c)) = picks::strongest(players, taken) {
        let rest = players.remove(j);
        let now = before.push((players[j].0, c));
        let later = picks::assignment(rest, taken.push(picks::window_of(c)));
        assert(picks::windows(now) =~= taken.push(picks::window_of(c)));
        assert(granted =~= now + later);
        assert(granted[n] == (players[j].0, c));
        assert(granted.take(n) =~= before);
        assert forall|m: int| 0 <= m < n implies #[trigger] granted[m] == before[m] by {}
        // The pick of this round.
        assert(strongest_of(players, granted, n, j)) by {
            lemma_choice_is_claim(players[j].1, granted, n);
            assert(waits(players[j].0, before, n));
            assert forall|i: int, d: CandidateV|
                #![trigger players[i], claims(players[i].1, granted, n, d)]
                0 <= i < players.len() && waits(players[i].0, granted, n) && claims(
                    players[i].1,
                    granted,
                    n,
                    d,
                ) implies {
                &&& d.score <= granted[n].1.score
                &&& i < j ==> d.score < granted[n].1.score
            } by {
                lemma_choice_is_claim(players[i].1, granted, n);
                let a = choose|a: int| 0 <= a < players[i].1.len() && players[i].1[a] == d;
                assert(picks::choice_of(players[i].1, taken) is Some);
            }
        }
        // The later rounds.
        let at = |i: int| if i < j { i } else { i + 1 };
        assert forall|i: int| 0 <= i < rest.len() implies #[trigger] rest[i] == players[at(i)] by {}
        assert(picks::distinct(rest)) by {
            assert forall|a: int, b: int| 0 <= a < b < rest.len() implies (#[trigger] rest[a]).0 != (
            #[trigger] rest[b]).0 by {
                assert(players[at(a)].0 != players[at(b)].0);
            }
        }
        lemma_choice_is_claim(players[j].1, granted, n);
        let a = choose|a: int| 0 <= a < players[j].1.len() && players[j].1[a] == c;
        assert(i64::MIN <= players[j].1[a].seek_s + players[j].1[a].dur_s <= i64::MAX);
        assert(windows_end(rest)) by {
            assert forall|x: int, y: int|
                0 <= x < rest.len() && 0 <= y < rest[x].1.len() implies i64::MIN <= (
            #[trigger] rest[x].1[y]).seek_s + rest[x].1[y].dur_s <= i64::MAX by {
                assert(players[at(x)].1[y] == rest[x].1[y]);
            }
        }
        assert forall|i: int| 0 <= i < rest.len() implies waits(
            (#[trigger] rest[i]).0,
            now,
            now.len() as int,
        ) by {
            assert(waits(players[at(i)].0, before, n));
            assert(players[at(i)].0 != players[j].0);
            assert forall|m: int| 0 <= m < now.len() implies (#[trigger] now[m]).0 != rest[i].0 by {
                if m < n {
                    assert(before[m].0 != players[at(i)].0);
                }
            }
        }
        lemma_strongest_from(rest, now, granted);
        assert forall|k: int| n <= k < granted.len() implies #[trigger] goes_to_strongest(
            players,
            granted,
            k,
        ) by {
            if k == n {
                assert(strongest_of(players, granted, k, j));
            } else {
                assert(goes_to_strongest(rest, granted, k));
                let q = choose|q: int| #[trigger] strongest_of(rest, granted, k, q);
                assert(rest[q] == players[at(q)]);
                assert forall|i: int, d: CandidateV|
                    #![trigger players[i], claims(players[i].1, granted, k, d)]
                    0 <= i < players.len() && waits(players[i].0, granted, k) && claims(
                        players[i].1,
                        granted,
                        k,
                        d,
                    ) implies {
                    &&& d.score <= granted[k].1.score
                    &&& i < at(q) ==> d.score < granted[k].1.score
                } by {
                    assert(granted[n].0 == players[j].0);
                    assert(i != j);
                    let b = if i < j {
                        i
                    } else {
                        i - 1
                    };
                    assert(rest[b] == players[i]);
                    assert(claims(rest[b].1, granted, k, d));
                }
                assert(strongest_of(players, granted, k, at(q)));
            }
        }
    } else {
        assert(picks::assignment(players, taken) =~= seq![]);
    }
}

/// The strongest claim goes first: in each round the pick is granted to the
/// player whose claim, given what was granted before, scores highest among all
/// who still wait, and to the earliest of equals.
pub proof fn lemma_strongest_claim_goes_first(players: Seq<(Seq<char>, Seq<CandidateV>)>)
    requires
        picks::distinct(players),
        windows_end(players),
    ensures
        forall|k: int|
            0 <= k < picks::assignment(players, seq![]).len() ==> #[trigger] goes_to_strongest(
                players,
                picks::assignment(players, seq![]),
                k,
            ),
{
    let granted = picks::assignment(players, seq![]);
    assert(picks::windows(seq![]) =~= seq![]);
    assert(granted =~= seq![] + granted);
    lemma_strongest_from(players, seq![], granted);
}

/// Whether candidate `i` is the best of some, counting those that share no
/// footage with what was claimed where `free_only`: none is better, and none
/// after it as good.
pub open spec fn last_best(
    clips: Seq<CandidateV>,
    claimed: Seq<(i64, i64)>,
    free_only: bool,
    i: int,
) -> bool {
    &&& 0 <= i < clips.len()
    &&& free_only ==> picks::is_free(clips[i], claimed)
    &&& forall|j: int|
        0 <= j < clips.len() && (free_only ==> picks::is_free(#[trigger] clips[j], claimed))
            ==> no_better(clips[j], clips[i]) && (i < j ==> clips[j].score < clips[i].score
            || clips[i].t_ms < clips[j].t_ms)
}

/// Of equally good candidates of one time, the last is the best.
pub proof fn lemma_last_of_equals(
    clips: Seq<CandidateV>,
    claimed: Seq<(i64, i64)>,
    free_only: bool,
)
    ensures
        picks::best_clip(clips, claimed, free_only) matches Some(b) ==> exists|i: int| #[trigger]
            last_best(clips, claimed, free_only, i) && clips[i] == b,
    decreases clips.len(),
{
    if clips.len() > 0 {
        let t = clips.drop_last();
        let n = clips.len() - 1;
        lemma_last_of_equals(t, claimed, free_only);
        picks::lemma_best_clip(t, claimed, free_only);
        assert(clips[n] == clips.last());
        assert forall|j: int| 0 <= j < n implies t[j] == #[trigger] clips[j] by {}
        if let Some(b) = picks::best_clip(clips, claimed, free_only) {
            let before = picks::best_clip(t, claimed, free_only);
            let counts = free_only ==> picks::is_free(clips[n], claimed);
            if before is Some && !(counts && picks::at_least(clips[n], before->0)) {
                let i = choose|i: int| #[trigger]
                    last_best(t, claimed, free_only, i) && t[i] == before->0;
                assert(clips[i] == b);
                assert(last_best(clips, claimed, free_only, i));
            } else {
                if before is Some {
                    let i = choose|i: int| #[trigger]
                        last_best(t, claimed, free_only, i) && t[i] == before->0;
                    assert(last_best(t, claimed, free_only, i));
                }
                assert forall|j: int|
                    0 <= j < clips.len() && (free_only ==> picks::is_free(
                        #[trigger] clips[j],
                        claimed,
                    )) implies no_better(clips[j], clips[n]) by {
                    if j < n {
                        assert(t[j] == clips[j]);
                    }
                }
                assert(last_best(clips, claimed, free_only, n));
            }
        }
    }
}

/// The first pick of an assignment is the best candidate of anybody.
pub proof fn lemma_first_pick_is_the_best(players: Seq<(Seq<char>, Seq<CandidateV>)>)
    ensures
        ({
            let granted = picks::assignment(players, seq![]);
            forall|i: int, j: int|
                0 <= i < players.len() && 0 <= j < players[i].1.len() ==> granted.len() > 0 && (
                #[trigger] players[i].1[j]).score <= granted[0].1.score
        }),
{
    let granted = picks::assignment(players, seq![]);
    lemma_strongest(players, seq![]);
    assert forall|i: int, j: int|
        0 <= i < players.len() && 0 <= j < players[i].1.len() implies granted.len() > 0 && (
    #[trigger] players[i].1[j]).score <= granted[0].1.score by {
        picks::lemma_best_clip(players[i].1, seq![], false);
        picks::lemma_best_clip(players[i].1, seq![], true);
        assert(picks::is_free(players[i].1[j], seq![]));
    }
}

} // verus!
