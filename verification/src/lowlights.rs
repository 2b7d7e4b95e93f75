//! The player's worst moments: their deaths, scored on being a free death, the
//! shutdown gold surrendered, and whether the enemy took an objective off it.

use vstd::prelude::*;
use vstd::string::*;

use crate::candidates::{
    top_candidates, was_answered, Candidate, CandidateV, ScoreContext, ScoreV, CLIP_LEAD_S,
    CLOSING_WINDOW_MS,
};
use crate::game::{champ_of, Game, GameV};
use crate::text::decimal;
use crate::timeline::{
    expected_hp, other_team, KillEv, KillV, Objective, ObjectiveV, Timeline, TimelineV,
};
use crate::{candidates, highlights, scan, seqs, text, timeline};

verus! {

/// A death still counts as "caught before an objective" if the enemy takes one
/// within this long after it.
pub const PUNISH_WINDOW_MS: i64 = 30_000;

/// A death this soon after the previous one reads as compounding the throw.
pub const REPEAT_DEATH_MS: i64 = 60_000;

/// The tail of a death's clip, in seconds.
pub const DEATH_TAIL_S: i64 = 9;

/// What a death was: everything its score and its summary are made of.
pub struct DeathStory {
    pub t: i64,
    pub bounty: i64,
    pub shutdown: i64,
    pub traded: bool,
    /// The objective the enemy took off the death.
    pub punished: Option<String>,
    /// No killer credit.
    pub executed: bool,
    /// Died again within a minute of the last death.
    pub repeated: bool,
    /// Deleted while barely dealing a scratch.
    pub melted: bool,
    /// Dealt more than an HP bar's worth first: a real fight, merely lost.
    pub swinging: bool,
    pub closing: bool,
    /// The killer's champion.
    pub killer: String,
}

/// The mathematical value of a [`DeathStory`].
pub struct DeathV {
    pub t: int,
    pub bounty: int,
    pub shutdown: int,
    pub traded: bool,
    pub punished: Option<Seq<char>>,
    pub executed: bool,
    pub repeated: bool,
    pub melted: bool,
    pub swinging: bool,
    pub closing: bool,
    pub killer: Seq<char>,
}

impl View for DeathStory {
    type V = DeathV;

    open spec fn view(&self) -> DeathV {
        DeathV {
            t: self.t as int,
            bounty: self.bounty as int,
            shutdown: self.shutdown as int,
            traded: self.traded,
            punished: match self.punished {
                Some(s) => Some(s@),
                None => None,
            },
            executed: self.executed,
            repeated: self.repeated,
            melted: self.melted,
            swinging: self.swinging,
            closing: self.closing,
            killer: self.killer@,
        }
    }
}

/// Whether an objective punishes a death at time `t`.
pub open spec fn punishes(enemy: i32, t: i64) -> spec_fn(ObjectiveV) -> bool {
    |o: ObjectiveV| o.team == enemy && t <= o.t <= t + PUNISH_WINDOW_MS
}

/// Whether a kill is a death of the player's shortly before time `t`.
pub open spec fn died_before(pid: i32, t: i64) -> spec_fn(KillV) -> bool {
    |k: KillV| k.victim == pid && k.t < t && t - k.t <= REPEAT_DEATH_MS
}

/// What the death `tl.kills[i]` was.
pub open spec fn death_story(
    tl: TimelineV,
    near: Seq<Seq<bool>>,
    i: int,
    pid: i32,
    pteam: i32,
    game: GameV,
    ctx: ScoreV,
) -> DeathV {
    let death = tl.kills[i];
    let hp = timeline::hp_curve(death.t as int);
    DeathV {
        t: death.t as int,
        bounty: death.bounty as int,
        shutdown: death.shutdown as int,
        traded: candidates::answered(tl.kills, pteam, death.t as int, highlights::row(near, i)),
        punished: match seqs::first_where(
            tl.objectives,
            punishes(timeline::opponent(pteam as int), death.t),
        ) {
            Some(j) => Some(tl.objectives[j].label),
            None => None,
        },
        executed: death.killer <= 0,
        repeated: seqs::any(tl.kills, died_before(pid, death.t)),
        melted: death.killer > 0 && death.dealt_champs * 100 < hp * 8,
        swinging: death.dealt_champs * 10 >= hp * 12,
        closing: death.t >= ctx.end_ms - CLOSING_WINDOW_MS,
        killer: game.champion(death.killer),
    }
}

fn read_death(
    tl: &Timeline,
    near: &Vec<Vec<bool>>,
    i: usize,
    pid: i32,
    pteam: i32,
    game: &Game,
    ctx: &ScoreContext,
) -> (r: DeathStory)
    requires
        i < tl.kills@.len(),
    ensures
        r@ == death_story(tl@, scan::views(near@), i as int, pid, pteam, game@, ctx@),
{
    let death: &KillEv = &tl.kills[i];
    let t: i64 = death.t;
    let n: usize = tl.kills.len();
    let enemy: i32 = other_team(pteam as i64);
    proof {
        assert(tl@.kills[i as int] == death@);
        assert(tl@.kills.subrange(0, n as int) =~= tl@.kills);
    }
    let nowhere: Vec<bool> = Vec::new();
    let here: &Vec<bool> = if i < near.len() {
        &near[i]
    } else {
        &nowhere
    };
    proof {
        assert(here@ =~= highlights::row(scan::views(near@), i as int));
    }
    let takes = |o: &Objective| -> (b: bool)
        ensures
            b == punishes(enemy, t)(o@),
        { o.team == enemy && o.t >= t && o.t as i128 <= t as i128 + PUNISH_WINDOW_MS as i128 };
    let punished: Option<String> = match scan::find(
        &tl.objectives,
        takes,
        Ghost(punishes(enemy, t)),
    ) {
        Some(j) => Some(tl.objectives[j].label.clone()),
        None => None,
    };
    let again = |k: &KillEv| -> (b: bool)
        ensures
            b == died_before(pid, t)(k@),
        {
            k.victim == pid && k.t < t && t as i128 - k.t as i128 <= REPEAT_DEATH_MS as i128
        };
    let hp: i128 = expected_hp(t) as i128;
    let dealt: i128 = death.dealt_champs as i128;
    DeathStory {
        t,
        bounty: death.bounty,
        shutdown: death.shutdown,
        traded: was_answered(&tl.kills, pteam, t, here),
        punished,
        executed: death.killer <= 0,
        repeated: scan::any(&tl.kills, 0, n, again, Ghost(died_before(pid, t))),
        melted: death.killer > 0 && dealt * 100 < hp * 8,
        swinging: dealt * 10 >= hp * 12,
        closing: t as i128 + CLOSING_WINDOW_MS as i128 >= ctx.end_ms,
        killer: champ_of(game, death.killer),
    }
}

/// What a death cost: nothing came back for it, the enemy took an objective off
/// it, or it may have been the game.
pub open spec fn cost_score(d: DeathV) -> int {
    (if d.traded {
        0int
    } else {
        2
    }) + (if d.punished is Some {
        4int
    } else {
        0
    }) + (if d.closing {
        4int
    } else {
        0
    })
}

/// How a death looked. An execute is the free-est death there is; dying again
/// within a minute compounds the throw; being deleted while barely dealing a
/// scratch is the embarrassing lowlight, and going down swinging is not.
pub open spec fn shame_score(d: DeathV) -> int {
    (if d.executed {
        3int
    } else {
        0
    }) + (if d.repeated {
        2int
    } else {
        0
    }) + (if d.melted {
        3int
    } else {
        0
    }) - (if d.swinging {
        2int
    } else {
        0
    })
}

/// The score of a death. A late throw costs more than an early one.
pub open spec fn death_score(d: DeathV) -> int {
    2 + text::tdiv(d.shutdown, 100) + text::tdiv(d.bounty, 200) + text::tdiv(d.t, 600_000)
        + cost_score(d) + shame_score(d)
}

fn score_cost(d: &DeathStory) -> (r: i64)
    ensures
        r == cost_score(d@),
        0 <= r <= 10,
{
    let traded: i64 = if d.traded {
        0
    } else {
        2
    };
    let punished: i64 = if d.punished.is_some() {
        4
    } else {
        0
    };
    let closing: i64 = if d.closing {
        4
    } else {
        0
    };
    traded + punished + closing
}

fn score_shame(d: &DeathStory) -> (r: i64)
    ensures
        r == shame_score(d@),
        -2 <= r <= 8,
{
    let executed: i64 = if d.executed {
        3
    } else {
        0
    };
    let repeated: i64 = if d.repeated {
        2
    } else {
        0
    };
    let melted: i64 = if d.melted {
        3
    } else {
        0
    };
    let swinging: i64 = if d.swinging {
        2
    } else {
        0
    };
    executed + repeated + melted - swinging
}

fn score_death(d: &DeathStory) -> (r: i64)
    ensures
        r == death_score(d@),
{
    2 + d.shutdown / 100 + d.bounty / 200 + d.t / 600_000 + score_cost(d) + score_shame(d)
}

/// The summary of a death.
pub open spec fn death_text(d: DeathV) -> Seq<char> {
    (if d.executed {
        "executed"@
    } else {
        "caught by "@ + d.killer
    }) + (if d.traded {
        ""@
    } else {
        " (free death)"@
    }) + (if d.melted {
        ", melted without a fight"@
    } else if d.swinging {
        ", went down swinging"@
    } else {
        ""@
    }) + (if d.repeated {
        ", back-to-back"@
    } else {
        ""@
    }) + (if d.shutdown > 0 {
        ", gave up a "@ + text::dec(d.shutdown) + "g shutdown"@
    } else {
        ""@
    }) + (match d.punished {
        Some(label) => "; "@ + label + " followed"@,
        None => ""@,
    })
}

fn tell_death(d: &DeathStory) -> (r: String)
    ensures
        r@ == death_text(d@),
{
    let opener: String = if d.executed {
        "executed".to_string()
    } else {
        "caught by ".to_string().concat(d.killer.as_str())
    };
    let free: &str = if d.traded {
        ""
    } else {
        " (free death)"
    };
    let fight: &str = if d.melted {
        ", melted without a fight"
    } else if d.swinging {
        ", went down swinging"
    } else {
        ""
    };
    let again: &str = if d.repeated {
        ", back-to-back"
    } else {
        ""
    };
    let gold: String = if d.shutdown > 0 {
        ", gave up a ".to_string().concat(decimal(d.shutdown as i128).as_str()).concat("g shutdown")
    } else {
        "".to_string()
    };
    let objective: String = match &d.punished {
        Some(label) => "; ".to_string().concat(label.as_str()).concat(" followed"),
        None => "".to_string(),
    };
    opener.concat(free).concat(fight).concat(again).concat(gold.as_str()).concat(
        objective.as_str(),
    )
}

/// The candidate that a death makes: lead-in, the death, a short tail.
pub open spec fn death_clip(d: DeathV) -> CandidateV {
    let seek = text::tdiv(d.t, 1000) - CLIP_LEAD_S;
    CandidateV {
        t_ms: d.t as i64,
        seek_s: (if seek > 0 {
            seek
        } else {
            0
        }) as i64,
        dur_s: (CLIP_LEAD_S + DEATH_TAIL_S) as i64,
        summary: death_text(d),
        score: death_score(d) as i64,
    }
}

/// The candidates of the player's deaths among the first `n` kills, scored.
pub open spec fn death_clips(
    tl: TimelineV,
    near: Seq<Seq<bool>>,
    n: int,
    pid: i32,
    pteam: i32,
    game: GameV,
    ctx: ScoreV,
) -> Seq<(i64, CandidateV)>
    decreases n,
{
    if n <= 0 {
        seq![]
    } else {
        let before = death_clips(tl, near, n - 1, pid, pteam, game, ctx);
        if tl.kills[n - 1].victim == pid {
            let c = death_clip(death_story(tl, near, n - 1, pid, pteam, game, ctx));
            before.push((c.score, c))
        } else {
            before
        }
    }
}

/// The player's worst moments, in chronological order.
pub fn lowlight_candidates(
    tl: &Timeline,
    near: &Vec<Vec<bool>>,
    pid: i32,
    pteam: i32,
    game: &Game,
    ctx: &ScoreContext,
) -> (r: Vec<Candidate>)
    ensures
        scan::views(r@) == candidates::top_of(
            death_clips(
                tl@,
                scan::views(near@),
                tl@.kills.len() as int,
                pid,
                pteam,
                game@,
                ctx@,
            ),
        ),
{
    let mut scored: Vec<(i64, Candidate)> = Vec::new();
    proof {
        assert(scan::views(scored@) =~= seq![]);
    }
    for i in 0..tl.kills.len()
        invariant
            scan::views(scored@) == death_clips(
                tl@,
                scan::views(near@),
                i as int,
                pid,
                pteam,
                game@,
                ctx@,
            ),
    {
        proof {
            assert(tl@.kills[i as int] == tl.kills@[i as int]@);
        }
        if tl.kills[i].victim == pid {
            let d: DeathStory = read_death(tl, near, i, pid, pteam, game, ctx);
            let score: i64 = score_death(&d);
            let seek: i64 = d.t / 1000 - CLIP_LEAD_S;
            let c: Candidate = Candidate {
                t_ms: d.t,
                seek_s: if seek > 0 {
                    seek
                } else {
                    0
                },
                dur_s: CLIP_LEAD_S + DEATH_TAIL_S,
                summary: tell_death(&d),
                score,
            };
            let ghost before = scored@;
            scored.push((score, c));
            proof {
                assert(c@ == death_clip(d@));
                assert(scan::views(scored@) =~= scan::views(before).push((score, c@)));
            }
        }
    }
    top_candidates(scored)
}

} // verus!
