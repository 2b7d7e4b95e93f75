//! What a clip pass does with the job in hand, whatever it is told.

use vstd::prelude::*;

use crate::clip_pass::{self, ActionV, EventV, JobV, PassV, Stage};
use crate::journal::{self, ClipJobV, Perspective, ProjectionV};
use crate::kinds::{AbandonedV, AttemptV};
use crate::{seqs, text};

verus! {

/// Whether `i` is the next job from `from` on that has a message.
pub open spec fn is_next(jobs: Seq<JobV>, from: int, i: int) -> bool {
    &&& from <= i < jobs.len()
    &&& jobs[i].has_message
    &&& forall|j: int| from <= j < i ==> !(#[trigger] jobs[j]).has_message
}

/// Whether no job from `from` on has a message.
pub open spec fn none_next(jobs: Seq<JobV>, from: int) -> bool {
    forall|j: int| from <= j < jobs.len() ==> !(#[trigger] jobs[j]).has_message
}

/// Whether two jobs are about one game.
pub open spec fn one_game(a: JobV, b: JobV) -> bool {
    a.platform == b.platform && a.game_id == b.game_id
}

/// A pass that moves on takes the next job with a message in hand, and ends
/// where there is none.
pub proof fn lemma_moving_on(p: PassV, from: int)
    requires
        0 <= from <= p.jobs.len(),
    ensures
        match p.moved_on(from).1 {
            ActionV::LookForOverview(i) => is_next(p.jobs, from, i) && p.moved_on(from).0.at == i,
            ActionV::Finish => none_next(p.jobs, from),
            _ => false,
        },
{
    let rest = p.jobs.skip(from);
    let q = clip_pass::attachable();
    seqs::lemma_first_is(rest, q);
    assert forall|j: int| from <= j < p.jobs.len() implies #[trigger] p.jobs[j] == rest[j
        - from] by {}
    if let Some(i) = seqs::first_where(rest, q) {
        assert forall|j: int| from <= j < from + i implies !(#[trigger] p.jobs[j]).has_message by {
            assert(!q(rest[j - from]));
        }
    } else {
        assert forall|j: int| from <= j < p.jobs.len() implies !(
        #[trigger] p.jobs[j]).has_message by {
            assert(!q(rest[j - from]));
        }
    }
}

/// A pending job is that of its perspective: the player, the tries so far, and
/// whether the message to attach to is known.
pub proof fn lemma_pending_jobs(
    p: ProjectionV,
    platform: Seq<char>,
    game_id: u64,
    job: ClipJobV,
)
    ensures
        ({
            let j = clip_pass::job_of(p, platform, game_id, job);
            &&& j.platform == platform
            &&& j.game_id == game_id
            &&& j.riot_id == job.riot_id
            &&& j.tries == job.tries
            &&& j.has_message <==> p.message_ids.dom().contains(
                (platform, game_id, p.identity(job.riot_id)),
            )
        }),
{
}

/// A job is pending exactly if it is not done and its player is known.
pub proof fn lemma_what_is_pending(
    keys: Seq<Perspective>,
    clips: Map<Perspective, ClipJobV>,
    k: Perspective,
)
    requires
        journal::lists(keys, clips, journal::pending_in(clips)),
    ensures
        keys.contains(k) <==> clips.dom().contains(k) && !clips[k].done && clips[k].riot_id.len()
            > 0,
        keys.no_duplicates(),
{
}

/// A pass begins with the first job that has a message.
pub proof fn lemma_first_job(p: PassV)
    requires
        p.stage == Stage::Start,
    ensures
        match p.step(EventV::Started).1 {
            ActionV::LookForOverview(i) => is_next(p.jobs, 0, i),
            ActionV::Finish => none_next(p.jobs, 0),
            _ => false,
        },
{
    lemma_moving_on(p, 0);
}

/// A game without its overview waits, and the pass goes on with the next job;
/// with it, the patches are compared.
pub proof fn lemma_overviews_come_first(p: PassV, written: bool)
    requires
        p.wf(),
        p.stage == Stage::Files,
    ensures
        written ==> p.step(EventV::Overview(written)).1 == ActionV::ComparePatches(p.at),
        !written ==> match p.step(EventV::Overview(written)).1 {
            ActionV::LookForOverview(i) => is_next(p.jobs, p.at + 1, i),
            ActionV::Finish => none_next(p.jobs, p.at + 1),
            _ => false,
        },
{
    lemma_moving_on(p, p.at + 1);
}

/// A replay of another patch than the client's has expired: its job is given
/// up, with the post saying so. Of the same patch, or of one that is not known,
/// it is tried: the client is asked for its phase.
pub proof fn lemma_patches_decide(p: PassV, game: Option<Seq<char>>, client: Option<Seq<char>>)
    requires
        p.wf(),
        p.stage == Stage::Patches,
    ensures
        game is Some && client is Some && game != client ==> p.step(
            EventV::Patches { game, client },
        ).1 == ActionV::Expire(
            AbandonedV {
                platform: p.jobs[p.at].platform,
                game_id: p.jobs[p.at].game_id,
                tries: p.jobs[p.at].tries,
                riot_id: Some(p.jobs[p.at].riot_id),
            },
        ),
        game is None || client is None || game == client ==> p.step(
            EventV::Patches { game, client },
        ).1 == ActionV::AskPhase,
{
}

/// Whether a phase leaves the client idle: it says `None` or `Lobby`.
pub open spec fn sits_idle(phase: Option<Seq<char>>) -> bool {
    phase is Some && (text::holds(phase->Some_0, "None"@) || text::holds(
        phase->Some_0,
        "Lobby"@,
    ))
}

/// With the client idle a job is recorded, as long as it has tries left and the
/// pass has recordings left: the next try of that job. A job without tries is
/// given up. With the client busy, or not there, the pass ends, and no try is
/// spent.
pub proof fn lemma_idle_clients_record(p: PassV, phase: Option<Seq<char>>)
    requires
        p.wf(),
        p.stage == Stage::Phase,
    ensures
        ({
            let job = p.jobs[p.at];
            let did = p.step(EventV::Phase(phase)).1;
            &&& !sits_idle(phase) ==> did == ActionV::Finish
            &&& sits_idle(phase) && job.tries >= p.max_tries ==> did == ActionV::GiveUp(
                AbandonedV {
                    platform: job.platform,
                    game_id: job.game_id,
                    tries: job.tries,
                    riot_id: Some(job.riot_id),
                },
            )
            &&& sits_idle(phase) && job.tries < p.max_tries && p.recorded < p.per_pass ==> did
                == ActionV::Record(
                AttemptV {
                    platform: job.platform,
                    game_id: job.game_id,
                    try_number: (job.tries + 1) as u32,
                    riot_id: Some(job.riot_id),
                },
            )
            &&& sits_idle(phase) && job.tries < p.max_tries && p.recorded >= p.per_pass ==> did
                == ActionV::Finish
        }),
{
}

/// After a job was given up the pass goes on with the next one.
pub proof fn lemma_given_up_jobs_are_left(p: PassV)
    requires
        p.wf(),
        p.stage == Stage::GivingUp || p.stage == Stage::Expiring,
    ensures
        match p.step(EventV::Done).1 {
            ActionV::LookForOverview(i) => is_next(p.jobs, p.at + 1, i),
            ActionV::Finish => none_next(p.jobs, p.at + 1),
            _ => false,
        },
{
    lemma_moving_on(p, p.at + 1);
}

/// After a failed recording the pass goes on with the next job of another game,
/// and ends where there is none.
pub proof fn lemma_failed_games_are_left(p: PassV)
    requires
        p.wf(),
        p.stage == Stage::Recording,
    ensures
        match p.step(EventV::Recorded(false)).1 {
            ActionV::LookForOverview(i) => {
                &&& p.at < i < p.jobs.len()
                &&& p.jobs[i].has_message
                &&& !one_game(p.jobs[i], p.jobs[p.at])
                &&& forall|j: int|
                    p.at < j < i && (#[trigger] p.jobs[j]).has_message ==> one_game(
                        p.jobs[j],
                        p.jobs[p.at],
                    )
            },
            ActionV::Finish => forall|j: int|
                p.at < j < p.jobs.len() && (#[trigger] p.jobs[j]).has_message ==> one_game(
                    p.jobs[j],
                    p.jobs[p.at],
                ),
            _ => false,
        },
{
    let rest = p.jobs.skip(p.at + 1);
    let q = clip_pass::elsewhere(p.jobs[p.at]);
    seqs::lemma_first_is(rest, q);
    assert forall|j: int| p.at < j < p.jobs.len() implies #[trigger] p.jobs[j] == rest[j - p.at
        - 1] by {}
    let found = seqs::first_where(rest, q);
    assert forall|j: int|
        p.at < j < p.jobs.len() && (found matches Some(i) ==> j < p.at + 1 + i) && (
        #[trigger] p.jobs[j]).has_message implies one_game(p.jobs[j], p.jobs[p.at]) by {
        assert(!q(rest[j - p.at - 1]));
    }
}

/// After a recording the job in hand is looked at first, and its clips are
/// attached where one of them is there.
pub proof fn lemma_clips_are_attached(p: PassV, highlight: bool, lowlight: bool)
    requires
        p.wf(),
        p.stage == Stage::Recording,
    ensures
        ({
            let (looking, look) = p.step(EventV::Recorded(true));
            let (after, did) = looking.step(EventV::Clips { highlight, lowlight });
            &&& look == ActionV::LookForClips(p.at)
            &&& highlight || lowlight ==> did == ActionV::Attach(p.at)
            &&& !highlight && !lowlight ==> !(did is Attach) && !(did is Record)
        }),
{
    let rest = p.jobs.skip(p.at);
    let q = clip_pass::fellow(p.jobs[p.at]);
    seqs::lemma_first_is(rest, q);
    assert(rest[0] == p.jobs[p.at]);
    assert(q(rest[0]));
}

} // verus!
