//! The clip pass: which pending games get their clips recorded, in what order,
//! and when the pass ends. The replay client is a contended singleton, so
//! recording is serialized, idle-only and retry-capped, one game at a time, and
//! every tracked player of a shared game is served from the same replay. A replay
//! dies at a patch boundary, and then the post says so instead of waiting
//! forever.

use vstd::prelude::*;

use crate::game::text_of;
use crate::journal::{ClipJob, ClipJobV, Perspective, Projection, ProjectionV};
use crate::kinds::{AbandonedV, AttemptV, ClipAttempt, ClipsAbandoned};
use crate::post::clip_note;
use crate::text::same;
use crate::tick::{idle, split_match_id};
use crate::{journal, post, scan, seqs, tick};

verus! {

/// A pending clip job.
#[derive(Debug)]
pub struct Job {
    pub platform: String,
    pub game_id: u64,
    /// The player whose perspective the clips take.
    pub riot_id: String,
    /// Attempts already made.
    pub tries: u32,
    /// Whether the message to attach the clips to is known.
    pub has_message: bool,
}

/// The mathematical value of a [`Job`].
pub struct JobV {
    pub platform: Seq<char>,
    pub game_id: u64,
    pub riot_id: Seq<char>,
    pub tries: u32,
    pub has_message: bool,
}

impl View for Job {
    type V = JobV;

    open spec fn view(&self) -> JobV {
        JobV {
            platform: self.platform@,
            game_id: self.game_id,
            riot_id: self.riot_id@,
            tries: self.tries,
            has_message: self.has_message,
        }
    }
}

/// What a pass waits for.
#[derive(Debug, Clone, Copy, PartialEq, Eq, Structural)]
pub enum Stage {
    /// To be started.
    Start,
    /// Whether the job's game is ready to be recorded.
    Files,
    /// The patches of the game and of the client.
    Patches,
    /// The post to say that the replay expired.
    Expiring,
    /// The client's phase.
    Phase,
    /// The giving up to be noted.
    GivingUp,
    /// The recording.
    Recording,
    /// Which clips of the job that is served are there.
    Looking,
    /// The clips of the job that is served to be attached.
    Attaching,
    /// Nothing: the pass is over.
    Over,
}

/// What happened.
#[derive(Debug)]
pub enum Event {
    /// The pass starts.
    Started,
    /// Whether the game's overview is written.
    Overview(bool),
    /// The patch that the game was played on and the one whose replays the
    /// client plays, as far as they are known.
    Patches { game: Option<String>, client: Option<String> },
    /// The client's gameflow phase; `None` when it is down or unreachable.
    Phase(Option<String>),
    /// The recorder ended: whether it succeeded.
    Recorded(bool),
    /// Which clips are there.
    Clips { highlight: bool, lowlight: bool },
    /// What was asked for was done.
    Done,
}

/// The mathematical value of an [`Event`].
pub enum EventV {
    Started,
    Overview(bool),
    Patches { game: Option<Seq<char>>, client: Option<Seq<char>> },
    Phase(Option<Seq<char>>),
    Recorded(bool),
    Clips { highlight: bool, lowlight: bool },
    Done,
}

impl View for Event {
    type V = EventV;

    open spec fn view(&self) -> EventV {
        match self {
            Event::Started => EventV::Started,
            Event::Overview(b) => EventV::Overview(*b),
            Event::Patches { game, client } => EventV::Patches {
                game: text_of(*game),
                client: text_of(*client),
            },
            Event::Phase(p) => EventV::Phase(text_of(*p)),
            Event::Recorded(success) => EventV::Recorded(*success),
            Event::Clips { highlight, lowlight } => EventV::Clips {
                highlight: *highlight,
                lowlight: *lowlight,
            },
            Event::Done => EventV::Done,
        }
    }
}

/// What is to be done next.
#[derive(Debug)]
pub enum Action {
    /// Look whether the overview of this job's game is written.
    LookForOverview(usize),
    /// Find out the patch of this job's game, and the client's.
    ComparePatches(usize),
    /// Edit the job's post to say that its replay expired, and note that the
    /// job is given up.
    Expire(ClipsAbandoned),
    /// Ask the client for its phase.
    AskPhase,
    /// Note that a job is given up.
    GiveUp(ClipsAbandoned),
    /// Note the attempt, and record every perspective of the job's game from
    /// its replay.
    Record(ClipAttempt),
    /// Look which clips of this job are there.
    LookForClips(usize),
    /// Attach this job's clips to its message.
    Attach(usize),
    /// The pass is over.
    Finish,
}

/// The mathematical value of an [`Action`].
pub enum ActionV {
    LookForOverview(int),
    ComparePatches(int),
    Expire(AbandonedV),
    AskPhase,
    GiveUp(AbandonedV),
    Record(AttemptV),
    LookForClips(int),
    Attach(int),
    Finish,
}

impl View for Action {
    type V = ActionV;

    open spec fn view(&self) -> ActionV {
        match self {
            Action::LookForOverview(i) => ActionV::LookForOverview(*i as int),
            Action::ComparePatches(i) => ActionV::ComparePatches(*i as int),
            Action::Expire(e) => ActionV::Expire(e@),
            Action::AskPhase => ActionV::AskPhase,
            Action::GiveUp(e) => ActionV::GiveUp(e@),
            Action::Record(e) => ActionV::Record(e@),
            Action::LookForClips(i) => ActionV::LookForClips(*i as int),
            Action::Attach(i) => ActionV::Attach(*i as int),
            Action::Finish => ActionV::Finish,
        }
    }
}

/// One clip pass.
#[derive(Debug)]
pub struct Pass {
    pub jobs: Vec<Job>,
    /// The job in hand.
    pub at: usize,
    /// The job that is served from the recording of the one in hand.
    pub serving: usize,
    /// Whether clips were attached.
    pub attached: bool,
    /// Recordings made.
    pub recorded: u32,
    pub stage: Stage,
    /// Attempts per job before it is given up.
    pub max_tries: u32,
    /// Recordings per pass.
    pub per_pass: u32,
}

/// The mathematical value of a [`Pass`].
pub struct PassV {
    pub jobs: Seq<JobV>,
    pub at: int,
    pub serving: int,
    pub attached: bool,
    pub recorded: int,
    pub stage: Stage,
    pub max_tries: u32,
    pub per_pass: u32,
}

impl View for Pass {
    type V = PassV;

    open spec fn view(&self) -> PassV {
        PassV {
            jobs: scan::views(self.jobs@),
            at: self.at as int,
            serving: self.serving as int,
            attached: self.attached,
            recorded: self.recorded as int,
            stage: self.stage,
            max_tries: self.max_tries,
            per_pass: self.per_pass,
        }
    }
}

// --- the jobs ------------------------------------------------------------------------

/// The pending job of a perspective.
pub open spec fn job_of(p: ProjectionV, platform: Seq<char>, game_id: u64, job: ClipJobV) -> JobV {
    JobV {
        platform,
        game_id,
        riot_id: job.riot_id,
        tries: job.tries,
        has_message: p.message_ids.dom().contains((platform, game_id, p.identity(job.riot_id))),
    }
}

/// The jobs of a listing.
pub open spec fn jobs_of(p: ProjectionV, listed: Seq<(Seq<char>, u64, ClipJobV)>) -> Seq<JobV> {
    listed.map_values(|j: (Seq<char>, u64, ClipJobV)| job_of(p, j.0, j.1, j.2))
}

/// The pending clip jobs of a journal's state, newest game first.
pub fn pending_jobs(state: &Projection) -> (r: Vec<Job>)
    requires
        state.wf(),
    ensures
        exists|keys: Seq<Perspective>|
            #![trigger journal::listing(keys, state@.clips)]
            journal::lists(keys, state@.clips, journal::pending_in(state@.clips)) && scan::views(r@)
                == jobs_of(state@, journal::listing(keys, state@.clips)),
        forall|i: int, j: int|
            0 <= i < j < r@.len() ==> (#[trigger] r@[i]).game_id >= (#[trigger] r@[j]).game_id,
{
    let list: Vec<(String, u64, ClipJob)> = state.pending_clips();
    let ghost listed = journal::jobs_view(list@);
    let mut out: Vec<Job> = Vec::new();
    for i in 0..list.len()
        invariant
            state.wf(),
            listed == journal::jobs_view(list@),
            scan::views(out@) =~= jobs_of(state@, listed).take(i as int),
    {
        let (platform, game_id, job) = (&list[i].0, list[i].1, &list[i].2);
        let ghost before = out@;
        out.push(
            Job {
                platform: platform.clone(),
                game_id,
                riot_id: job.riot_id.clone(),
                tries: job.tries,
                has_message: state.message_id(
                    platform.as_str(),
                    game_id,
                    job.riot_id.as_str(),
                ).is_some(),
            },
        );
        proof {
            assert(scan::views(out@) =~= scan::views(before).push(
                jobs_of(state@, listed)[i as int],
            ));
        }
    }
    proof {
        assert(scan::views(out@) =~= jobs_of(state@, listed));
        assert forall|i: int, j: int| 0 <= i < j < out@.len() implies (#[trigger] out@[i]).game_id
            >= (#[trigger] out@[j]).game_id by {
            assert(scan::views(out@)[i] == out@[i]@);
            assert(scan::views(out@)[j] == out@[j]@);
            assert(!journal::newest_first()(listed[j], listed[i]));
        }
    }
    out
}

/// Whether a perspective of a game has been tried at most `tries` times.
pub open spec fn tried_at_most(p: ProjectionV, k: Perspective, tries: u32) -> bool {
    p.clips.dom().contains(k) ==> p.clips[k].tries <= tries
}

/// The event that ends every clip job of a game: operational hygiene for games
/// whose replay aged out of the patch or whose post was removed. It tells the
/// most attempts that any of the jobs has had.
pub fn abandon(state: &Projection, match_id: &str) -> (r: Result<ClipsAbandoned, String>)
    requires
        state.wf(),
    ensures
        match r {
            Ok(e) => {
                &&& tick::match_parts(match_id@) == Some((e.platform@, e.game_id))
                &&& e.riot_id is None
                &&& forall|k: Perspective|
                    k.0 == e.platform@ && k.1 == e.game_id ==> #[trigger] tried_at_most(
                        state@,
                        k,
                        e.tries,
                    )
                &&& e.tries == 0 || exists|k: Perspective|
                    #[trigger] state@.clips.dom().contains(k) && k.0 == e.platform@ && k.1
                        == e.game_id && state@.clips[k].tries == e.tries
            },
            Err(e) => tick::match_parts(match_id@) is None && e@ == tick::malformed(match_id@),
        },
{
    let (platform, game_id) = match split_match_id(match_id) {
        Ok(parts) => parts,
        Err(e) => return Err(e),
    };
    let jobs: Vec<&ClipJob> = state.clip_jobs(platform, game_id);
    let ghost keys = choose|keys: Seq<Perspective>|
        #![trigger journal::jobs_under(keys, state@.clips)]
        journal::lists(keys, state@.clips, journal::of_game(platform@, game_id)) && scan::views(
            jobs@,
        ) =~= journal::jobs_under(keys, state@.clips);
    let ghost all = scan::views(jobs@);
    let mut tries: u32 = 0;
    for i in 0..jobs.len()
        invariant
            all == scan::views(jobs@),
            forall|j: int| 0 <= j < i ==> (#[trigger] all[j]).tries <= tries,
            tries == 0 || exists|j: int| 0 <= j < i && (#[trigger] all[j]).tries == tries,
    {
        proof {
            assert(all[i as int] == jobs@[i as int]@);
        }
        if jobs[i].tries > tries {
            tries = jobs[i].tries;
        }
    }
    proof {
        assert(all == journal::jobs_under(keys, state@.clips));
        assert forall|k: Perspective| k.0 == platform@ && k.1 == game_id implies #[trigger]
            tried_at_most(state@, k, tries) by {
            if state@.clips.dom().contains(k) {
                assert(journal::of_game(platform@, game_id)(k));
                assert(keys.contains(k));
                let j = choose|j: int| 0 <= j < keys.len() && keys[j] == k;
                assert(all[j] == state@.clips[k]);
            }
        }
        if tries > 0 {
            let j = choose|j: int| 0 <= j < jobs@.len() && (#[trigger] all[j]).tries == tries;
            assert(all[j] == state@.clips[keys[j]]);
            assert(keys.contains(keys[j]));
            assert(state@.clips.dom().contains(keys[j]));
        }
    }
    Ok(ClipsAbandoned { platform: platform.to_string(), game_id, tries, riot_id: None })
}

// --- the machine -----------------------------------------------------------------------

/// Whether a job can be attached to a message.
pub open spec fn attachable() -> spec_fn(JobV) -> bool {
    |j: JobV| j.has_message
}

/// Whether a job is about the same game as another, and can be attached to a
/// message.
pub open spec fn fellow(job: JobV) -> spec_fn(JobV) -> bool {
    |j: JobV| j.has_message && j.platform == job.platform && j.game_id == job.game_id
}

/// Whether a job is about another game, and can be attached to a message.
pub open spec fn elsewhere(job: JobV) -> spec_fn(JobV) -> bool {
    |j: JobV| j.has_message && !(j.platform == job.platform && j.game_id == job.game_id)
}

/// The event that gives a job up.
pub open spec fn given_up(job: JobV) -> AbandonedV {
    AbandonedV {
        platform: job.platform,
        game_id: job.game_id,
        tries: job.tries,
        riot_id: Some(job.riot_id),
    }
}

/// Whether a replay died at a patch boundary.
pub open spec fn is_expired(game: Option<Seq<char>>, client: Option<Seq<char>>) -> bool {
    post::note_for(false, game, client) is Some
}

impl PassV {
    /// The pass with the next job from `from` on in hand whose message is known;
    /// it is over when there is none.
    pub open spec fn moved_on(self, from: int) -> (PassV, ActionV) {
        match seqs::first_where(self.jobs.skip(from), attachable()) {
            Some(i) => (
                PassV { at: from + i, stage: Stage::Files, ..self },
                ActionV::LookForOverview(from + i),
            ),
            None => self.ended(),
        }
    }

    /// The pass with the next job in hand that is about another game and whose
    /// message is known; it is over when there is none.
    pub open spec fn past_game(self) -> (PassV, ActionV) {
        match seqs::first_where(self.jobs.skip(self.at + 1), elsewhere(self.jobs[self.at])) {
            Some(i) => (
                PassV { at: self.at + 1 + i, stage: Stage::Files, ..self },
                ActionV::LookForOverview(self.at + 1 + i),
            ),
            None => self.ended(),
        }
    }

    /// The pass with the next job from `from` on served that shares the recorded
    /// game. When every one was, the pass is over if clips were attached, and
    /// goes on to another game otherwise.
    pub open spec fn served_on(self, from: int) -> (PassV, ActionV) {
        match seqs::first_where(self.jobs.skip(from), fellow(self.jobs[self.at])) {
            Some(i) => (
                PassV { serving: from + i, stage: Stage::Looking, ..self },
                ActionV::LookForClips(from + i),
            ),
            None => if self.attached {
                self.ended()
            } else {
                self.past_game()
            },
        }
    }

    /// The pass, over.
    pub open spec fn ended(self) -> (PassV, ActionV) {
        (PassV { stage: Stage::Over, ..self }, ActionV::Finish)
    }

    /// What the pass does with the client idle: it gives the job up when its
    /// tries are spent, ends when it has recorded enough, and records otherwise.
    pub open spec fn while_idle(self) -> (PassV, ActionV) {
        let job = self.jobs[self.at];
        if job.tries >= self.max_tries {
            (PassV { stage: Stage::GivingUp, ..self }, ActionV::GiveUp(given_up(job)))
        } else if self.recorded >= self.per_pass {
            self.ended()
        } else {
            (
                PassV { stage: Stage::Recording, recorded: self.recorded + 1, ..self },
                ActionV::Record(
                    AttemptV {
                        platform: job.platform,
                        game_id: job.game_id,
                        try_number: (job.tries + 1) as u32,
                        riot_id: Some(job.riot_id),
                    },
                ),
            )
        }
    }

    /// What the pass does when something happened. An event that was not waited
    /// for ends it.
    pub open spec fn step(self, event: EventV) -> (PassV, ActionV) {
        match (self.stage, event) {
            (Stage::Start, EventV::Started) => self.moved_on(0),
            (Stage::Files, EventV::Overview(written)) => if written {
                (PassV { stage: Stage::Patches, ..self }, ActionV::ComparePatches(self.at))
            } else {
                self.moved_on(self.at + 1)
            },
            (Stage::Patches, EventV::Patches { game, client }) => if is_expired(game, client) {
                (
                    PassV { stage: Stage::Expiring, ..self },
                    ActionV::Expire(given_up(self.jobs[self.at])),
                )
            } else {
                (PassV { stage: Stage::Phase, ..self }, ActionV::AskPhase)
            },
            (Stage::Expiring, EventV::Done) => self.moved_on(self.at + 1),
            (Stage::Phase, EventV::Phase(phase)) => if tick::is_idle(phase) {
                self.while_idle()
            } else {
                self.ended()
            },
            (Stage::GivingUp, EventV::Done) => self.moved_on(self.at + 1),
            (Stage::Recording, EventV::Recorded(success)) => if success {
                self.served_on(self.at)
            } else {
                self.past_game()
            },
            (Stage::Looking, EventV::Clips { highlight, lowlight }) => if highlight || lowlight {
                (
                    PassV { stage: Stage::Attaching, attached: true, ..self },
                    ActionV::Attach(self.serving),
                )
            } else {
                self.served_on(self.serving + 1)
            },
            (Stage::Attaching, EventV::Done) => self.served_on(self.serving + 1),
            _ => self.ended(),
        }
    }

    /// Whether the job in hand is one.
    pub open spec fn wf(self) -> bool {
        &&& 0 <= self.at <= self.jobs.len()
        &&& self.stage == Stage::Start ==> self.at == 0
        &&& 0 <= self.recorded <= self.per_pass
        &&& self.stage != Stage::Start && self.stage != Stage::Over ==> self.at < self.jobs.len()
            && self.jobs[self.at].has_message
        &&& self.stage == Stage::Looking || self.stage == Stage::Attaching ==> self.at
            <= self.serving < self.jobs.len() && fellow(self.jobs[self.at])(
            self.jobs[self.serving],
        )
        &&& self.attached ==> self.stage == Stage::Looking || self.stage == Stage::Attaching
            || self.stage == Stage::Over
    }
}

/// A pass over some jobs that is to be started.
pub fn begin(jobs: Vec<Job>, max_tries: u32, per_pass: u32) -> (r: Pass)
    ensures
        r@.wf(),
        r@ == (PassV {
            jobs: scan::views(jobs@),
            at: 0,
            serving: 0,
            attached: false,
            recorded: 0,
            stage: Stage::Start,
            max_tries,
            per_pass,
        }),
{
    Pass {
        jobs,
        at: 0,
        serving: 0,
        attached: false,
        recorded: 0,
        stage: Stage::Start,
        max_tries,
        per_pass,
    }
}

/// Which jobs are looked for.
#[derive(Clone, Copy)]
enum Wanted {
    /// Any.
    Any,
    /// Those of the game in hand.
    Fellow,
    /// Those of other games.
    Elsewhere,
}

impl Wanted {
    spec fn fits(self, job: JobV) -> spec_fn(JobV) -> bool {
        match self {
            Wanted::Any => attachable(),
            Wanted::Fellow => fellow(job),
            Wanted::Elsewhere => elsewhere(job),
        }
    }
}

impl Pass {
    /// The next job from `from` on that is wanted.
    fn find_job(&self, from: usize, wanted: Wanted) -> (r: Option<usize>)
        requires
            from <= self.jobs@.len(),
            !(wanted is Any) ==> self.at < self.jobs@.len(),
        ensures
            match r {
                Some(i) => {
                    &&& from <= i < self.jobs@.len()
                    &&& seqs::first_where(
                        self@.jobs.skip(from as int),
                        wanted.fits(self@.jobs[self.at as int]),
                    ) == Some(i - from)
                    &&& wanted.fits(self@.jobs[self.at as int])(self@.jobs[i as int])
                },
                None => seqs::first_where(
                    self@.jobs.skip(from as int),
                    wanted.fits(self@.jobs[self.at as int]),
                ) is None,
            },
    {
        let ghost all = scan::views(self.jobs@);
        let ghost rest = all.skip(from as int);
        let ghost p = wanted.fits(all[self.at as int]);
        for i in from..self.jobs.len()
            invariant
                from <= self.jobs@.len(),
                !(wanted is Any) ==> self.at < self.jobs@.len(),
                all == scan::views(self.jobs@),
                rest == all.skip(from as int),
                p == wanted.fits(all[self.at as int]),
                forall|j: int| 0 <= j < i - from ==> !p(#[trigger] rest[j]),
        {
            let job: &Job = &self.jobs[i];
            let fits: bool = job.has_message && match wanted {
                Wanted::Any => true,
                Wanted::Fellow => self.shares_game(i),
                Wanted::Elsewhere => !self.shares_game(i),
            };
            proof {
                assert(rest[i - from] == all[i as int]);
                assert(all[i as int] == job@);
                assert(fits == p(rest[i - from]));
            }
            if fits {
                proof {
                    seqs::lemma_first_is(rest, p);
                }
                return Some(i);
            }
        }
        proof {
            seqs::lemma_first_is(rest, p);
        }
        None
    }

    /// Whether job `i` is about the game of the job in hand.
    fn shares_game(&self, i: usize) -> (r: bool)
        requires
            self.at < self.jobs@.len(),
            i < self.jobs@.len(),
        ensures
            r == (self@.jobs[i as int].platform == self@.jobs[self.at as int].platform
                && self@.jobs[i as int].game_id == self@.jobs[self.at as int].game_id),
    {
        proof {
            assert(self@.jobs[i as int] == self.jobs@[i as int]@);
            assert(self@.jobs[self.at as int] == self.jobs@[self.at as int]@);
        }
        self.jobs[i].game_id == self.jobs[self.at].game_id && same(
            self.jobs[i].platform.as_str(),
            self.jobs[self.at].platform.as_str(),
        )
    }

    fn move_on(&mut self, from: usize) -> (a: Action)
        requires
            old(self)@.wf(),
            !old(self).attached,
            from <= old(self).jobs@.len(),
        ensures
            (final(self)@, a@) == old(self)@.moved_on(from as int),
            final(self)@.wf(),
    {
        match self.find_job(from, Wanted::Any) {
            Some(i) => {
                self.at = i;
                self.stage = Stage::Files;
                Action::LookForOverview(i)
            },
            None => self.end(),
        }
    }

    fn leave_game(&mut self) -> (a: Action)
        requires
            old(self)@.wf(),
            !old(self).attached,
            old(self).at < old(self).jobs@.len(),
        ensures
            (final(self)@, a@) == old(self)@.past_game(),
            final(self)@.wf(),
    {
        proof {
            assert(self.at < self.jobs.len());
        }
        match self.find_job(self.at + 1, Wanted::Elsewhere) {
            Some(i) => {
                self.at = i;
                self.stage = Stage::Files;
                Action::LookForOverview(i)
            },
            None => self.end(),
        }
    }

    fn serve_on(&mut self, from: usize) -> (a: Action)
        requires
            old(self)@.wf(),
            old(self).at < old(self).jobs@.len(),
            old(self).at <= from <= old(self).jobs@.len(),
            old(self)@.jobs[old(self).at as int].has_message,
        ensures
            (final(self)@, a@) == old(self)@.served_on(from as int),
            final(self)@.wf(),
    {
        match self.find_job(from, Wanted::Fellow) {
            Some(i) => {
                self.serving = i;
                self.stage = Stage::Looking;
                Action::LookForClips(i)
            },
            None => if self.attached {
                self.end()
            } else {
                self.leave_game()
            },
        }
    }

    fn end(&mut self) -> (a: Action)
        requires
            old(self)@.wf(),
        ensures
            (final(self)@, a@) == old(self)@.ended(),
            final(self)@.wf(),
    {
        self.stage = Stage::Over;
        Action::Finish
    }

    /// The event that gives the job in hand up.
    fn giving_up(&self) -> (e: ClipsAbandoned)
        requires
            self.at < self.jobs@.len(),
        ensures
            e@ == given_up(self@.jobs[self.at as int]),
    {
        let job: &Job = &self.jobs[self.at];
        proof {
            assert(self@.jobs[self.at as int] == job@);
        }
        ClipsAbandoned {
            platform: job.platform.clone(),
            game_id: job.game_id,
            tries: job.tries,
            riot_id: Some(job.riot_id.clone()),
        }
    }

    fn with_idle_client(&mut self) -> (a: Action)
        requires
            old(self)@.wf(),
            old(self).stage == Stage::Phase,
        ensures
            (final(self)@, a@) == old(self)@.while_idle(),
            final(self)@.wf(),
    {
        proof {
            assert(self@.jobs[self.at as int] == self.jobs@[self.at as int]@);
        }
        let tries: u32 = self.jobs[self.at].tries;
        let game_id: u64 = self.jobs[self.at].game_id;
        let platform: String = self.jobs[self.at].platform.clone();
        let riot_id: String = self.jobs[self.at].riot_id.clone();
        if tries >= self.max_tries {
            let e: ClipsAbandoned = self.giving_up();
            self.stage = Stage::GivingUp;
            Action::GiveUp(e)
        } else if self.recorded >= self.per_pass {
            self.end()
        } else {
            self.stage = Stage::Recording;
            self.recorded = self.recorded + 1;
            Action::Record(
                ClipAttempt { platform, game_id, try_number: tries + 1, riot_id: Some(riot_id) },
            )
        }
    }

    /// What to do next, now that something happened.
    pub fn next(&mut self, event: Event) -> (a: Action)
        requires
            old(self)@.wf(),
        ensures
            (final(self)@, a@) == old(self)@.step(event@),
            final(self)@.wf(),
    {
        let count: usize = self.jobs.len();
        assert(self.stage != Stage::Start && self.stage != Stage::Over ==> self.at < count);
        match (self.stage, event) {
            (Stage::Start, Event::Started) => self.move_on(0),
            (Stage::Files, Event::Overview(written)) => if written {
                self.stage = Stage::Patches;
                Action::ComparePatches(self.at)
            } else {
                self.move_on(self.at + 1)
            },
            (Stage::Patches, Event::Patches { game, client }) => if clip_note(
                false,
                &game,
                &client,
            ).is_some() {
                let e: ClipsAbandoned = self.giving_up();
                self.stage = Stage::Expiring;
                Action::Expire(e)
            } else {
                self.stage = Stage::Phase;
                Action::AskPhase
            },
            (Stage::Expiring, Event::Done) => self.move_on(self.at + 1),
            (Stage::Phase, Event::Phase(phase)) => if idle(&phase) {
                self.with_idle_client()
            } else {
                self.end()
            },
            (Stage::GivingUp, Event::Done) => self.move_on(self.at + 1),
            (Stage::Recording, Event::Recorded(success)) => if success {
                self.serve_on(self.at)
            } else {
                self.leave_game()
            },
            (Stage::Looking, Event::Clips { highlight, lowlight }) => if highlight || lowlight {
                self.stage = Stage::Attaching;
                self.attached = true;
                Action::Attach(self.serving)
            } else {
                self.serve_on(self.serving + 1)
            },
            (Stage::Attaching, Event::Done) => self.serve_on(self.serving + 1),
            _ => self.end(),
        }
    }
}

// --- laws ------------------------------------------------------------------------------

impl PassV {
    /// The pass after some events.
    pub open spec fn after(self, events: Seq<EventV>) -> PassV
        decreases events.len(),
    {
        if events.len() == 0 {
            self
        } else {
            self.after(events.drop_last()).step(events.last()).0
        }
    }

    /// What the pass does at each of some events.
    pub open spec fn actions(self, events: Seq<EventV>) -> Seq<ActionV>
        decreases events.len(),
    {
        if events.len() == 0 {
            seq![]
        } else {
            self.actions(events.drop_last()).push(
                self.after(events.drop_last()).step(events.last()).1,
            )
        }
    }
}

/// Whether an action records.
pub open spec fn records() -> spec_fn(ActionV) -> bool {
    |a: ActionV| a is Record
}

/// Whether an action attaches.
pub open spec fn attaches() -> spec_fn(ActionV) -> bool {
    |a: ActionV| a is Attach
}

/// What finding the next job of each sort comes to.
proof fn lemma_found_jobs(p: PassV, from: int)
    requires
        p.wf(),
        0 <= from <= p.jobs.len(),
    ensures
        match seqs::first_where(p.jobs.skip(from), attachable()) {
            Some(i) => 0 <= i < p.jobs.len() - from && p.jobs[from + i].has_message,
            None => true,
        },
        p.at < p.jobs.len() ==> match seqs::first_where(p.jobs.skip(from), fellow(p.jobs[p.at])) {
            Some(i) => 0 <= i < p.jobs.len() - from && fellow(p.jobs[p.at])(p.jobs[from + i]),
            None => true,
        },
        p.at < p.jobs.len() ==> match seqs::first_where(p.jobs.skip(from), elsewhere(p.jobs[p.at])) {
            Some(i) => 0 <= i < p.jobs.len() - from && elsewhere(p.jobs[p.at])(p.jobs[from + i]),
            None => true,
        },
{
    seqs::lemma_first_is(p.jobs.skip(from), attachable());
    seqs::lemma_first_is(p.jobs.skip(from), fellow(p.jobs[p.at]));
    seqs::lemma_first_is(p.jobs.skip(from), elsewhere(p.jobs[p.at]));
}

/// A step keeps a pass well formed, and never goes back to an earlier job.
pub proof fn lemma_step_keeps_wf(p: PassV, event: EventV)
    requires
        p.wf(),
    ensures
        p.step(event).0.wf(),
        p.step(event).0.jobs == p.jobs,
        p.step(event).0.max_tries == p.max_tries,
        p.step(event).0.per_pass == p.per_pass,
        p.at <= p.step(event).0.at,
{
    lemma_found_jobs(p, 0);
    if p.at < p.jobs.len() {
        lemma_found_jobs(p, p.at);
        lemma_found_jobs(p, p.at + 1);
    }
    if 0 <= p.serving < p.jobs.len() {
        lemma_found_jobs(p, p.serving + 1);
    }
}

/// Recording only ever starts with the client idle, for a job whose message is
/// known, and with tries left; the attempt is the next one of that job.
pub proof fn lemma_records_only_when_idle(p: PassV, event: EventV)
    requires
        p.wf(),
        p.step(event).1 is Record,
    ensures
        event matches EventV::Phase(phase) && tick::is_idle(phase),
        p.at < p.jobs.len() && p.jobs[p.at].has_message,
        p.step(event).1 matches ActionV::Record(attempt) && attempt.try_number == p.jobs[p.at].tries
            + 1 && attempt.try_number <= p.max_tries && attempt.platform == p.jobs[p.at].platform
            && attempt.game_id == p.jobs[p.at].game_id,
{
}

/// A job is given up only when its tries are spent.
pub proof fn lemma_gives_up_only_when_spent(p: PassV, event: EventV)
    requires
        p.wf(),
        p.step(event).1 is GiveUp,
    ensures
        p.at < p.jobs.len() && p.jobs[p.at].tries >= p.max_tries,
{
}

/// A replay that died at a patch boundary is never recorded: the post of its
/// game is edited to say so, the job is given up, and the pass goes on with the
/// next one. No other job is given up that way.
pub proof fn lemma_expired_replays_are_said(p: PassV, event: EventV)
    requires
        p.wf(),
    ensures
        p.stage == Stage::Patches && (event matches EventV::Patches { game, client } && is_expired(
            game,
            client,
        )) ==> p.step(event).1 == ActionV::Expire(given_up(p.jobs[p.at])) && p.step(event).0.step(
            EventV::Done,
        ) == p.step(event).0.moved_on(p.at + 1),
        p.step(event).1 is Expire ==> (event matches EventV::Patches { game, client } && is_expired(
            game,
            client,
        )),
        p.step(event).1 is AskPhase ==> (event matches EventV::Patches { game, client }
            && !is_expired(game, client)),
{
}

/// The jobs that are left, and what is left to do with the one in hand.
pub open spec fn work_left(p: PassV) -> int {
    let share = 2 * p.jobs.len() as int + 8;
    let left = share * (p.jobs.len() - p.at);
    match p.stage {
        Stage::Start => left + 1,
        Stage::Files => left,
        Stage::Patches => left - 1,
        Stage::Expiring => left - 2,
        Stage::Phase => left - 2,
        Stage::GivingUp => left - 3,
        Stage::Recording => left - 3,
        Stage::Looking => left - 4 - 2 * (p.serving - p.at),
        Stage::Attaching => left - 5 - 2 * (p.serving - p.at),
        Stage::Over => 0,
    }
}

proof fn lemma_share(share: int, jobs: int, at: int, next: int)
    by (nonlinear_arith)
    requires
        share > 0,
        0 <= at <= next <= jobs,
    ensures
        share * (jobs - next) <= share * (jobs - at),
        at < next ==> share * (jobs - next) <= share * (jobs - at) - share,
        at < jobs ==> share * (jobs - at) >= share,
        share * (jobs - next) >= 0,
{
}

/// Every pass ends: each step leaves less to do, and one that is over stays
/// over.
pub proof fn lemma_pass_ends(p: PassV, event: EventV)
    requires
        p.wf(),
    ensures
        p.stage != Stage::Over ==> 0 <= work_left(p.step(event).0) < work_left(p),
        p.stage == Stage::Over ==> p.step(event) == (p, ActionV::Finish),
{
    lemma_step_keeps_wf(p, event);
    lemma_found_jobs(p, 0);
    if p.at < p.jobs.len() {
        lemma_found_jobs(p, p.at);
        lemma_found_jobs(p, p.at + 1);
    }
    if 0 <= p.serving < p.jobs.len() {
        lemma_found_jobs(p, p.serving + 1);
    }
    let q = p.step(event).0;
    let share = 2 * p.jobs.len() as int + 8;
    lemma_share(share, p.jobs.len() as int, p.at, q.at);
    lemma_share(share, p.jobs.len() as int, q.at, q.at);
}

/// Whether the attachings among some actions are all about the game of a job,
/// each about a later job than the one before, and none beyond `upto`.
pub open spec fn attaches_in_order(
    actions: Seq<ActionV>,
    jobs: Seq<JobV>,
    lead: int,
    upto: int,
) -> bool {
    &&& forall|k: int|
        #![trigger actions[k]]
        0 <= k < actions.len() ==> (actions[k] matches ActionV::Attach(i) ==> lead <= i <= upto && i
            < jobs.len() && fellow(jobs[lead])(jobs[i]))
    &&& forall|k: int, l: int|
        #![trigger actions[k], actions[l]]
        0 <= k < l < actions.len() ==> (actions[k] matches ActionV::Attach(i) ==> (
        actions[l] matches ActionV::Attach(j) ==> i < j))
}

/// Whether nothing is recorded after clips were attached.
pub open spec fn records_before_attaching(actions: Seq<ActionV>) -> bool {
    forall|k: int, l: int|
        #![trigger actions[k], actions[l]]
        0 <= k < l < actions.len() && actions[k] is Attach ==> !(actions[l] is Record)
}

/// However a pass goes, it makes no more recordings than it may, attaches the
/// clips of one game at most and of each of its jobs once, and records nothing
/// more after that.
pub proof fn lemma_pass_is_bounded(p: PassV, events: Seq<EventV>)
    requires
        p.wf(),
        p.stage == Stage::Start,
        p.recorded == 0,
    ensures
        p.after(events).wf(),
        p.after(events).jobs == p.jobs,
        p.after(events).per_pass == p.per_pass,
        seqs::count_where(p.actions(events), records()) == p.after(events).recorded,
        seqs::count_where(p.actions(events), records()) <= p.per_pass,
        p.after(events).attached == seqs::any(p.actions(events), attaches()),
        p.after(events).attached ==> attaches_in_order(
            p.actions(events),
            p.jobs,
            p.after(events).at,
            if p.after(events).stage == Stage::Looking {
                p.after(events).serving - 1
            } else {
                p.after(events).serving
            },
        ),
        records_before_attaching(p.actions(events)),
    decreases events.len(),
{
    let all = p.actions(events);
    if events.len() > 0 {
        let fewer = events.drop_last();
        let before = p.after(fewer);
        let now = p.after(events);
        lemma_pass_is_bounded(p, fewer);
        lemma_step_keeps_wf(before, events.last());
        lemma_found_jobs(before, 0);
        if before.at < before.jobs.len() {
            lemma_found_jobs(before, before.at);
            lemma_found_jobs(before, before.at + 1);
        }
        if 0 <= before.serving < before.jobs.len() {
            lemma_found_jobs(before, before.serving + 1);
        }
        let was = p.actions(fewer);
        assert(all.drop_last() =~= was);
        assert(all =~= was.push(before.step(events.last()).1));
        let last = all.len() - 1;
        assert(all[last] == before.step(events.last()).1);
        assert forall|k: int| 0 <= k < last implies all[k] == was[k] by {}
        assert(now.attached == seqs::any(all, attaches())) by {
            if before.attached {
                let k = choose|k: int| 0 <= k < was.len() && attaches()(#[trigger] was[k]);
                assert(attaches()(all[k]));
            } else if now.attached {
                assert(attaches()(all[last]));
            } else if seqs::any(all, attaches()) {
                let k = choose|k: int| 0 <= k < all.len() && attaches()(#[trigger] all[k]);
                assert(k < last);
                assert(attaches()(was[k]));
            }
        }
        if !before.attached {
            assert forall|k: int| 0 <= k < last implies !(#[trigger] all[k] is Attach) by {
                assert(!attaches()(was[k]));
            }
        }
    } else {
        assert(all =~= seq![]);
    }
}

/// What happens while the players of a recorded game are served: `there` says
/// which jobs' clips the recorder left, and what is asked for is done.
pub open spec fn answer(p: PassV, there: spec_fn(int) -> bool) -> EventV {
    if p.stage == Stage::Looking {
        EventV::Clips { highlight: there(p.serving), lowlight: false }
    } else {
        EventV::Done
    }
}

/// What a pass does until every player of the recorded game is served.
pub open spec fn service(p: PassV, there: spec_fn(int) -> bool) -> Seq<ActionV>
    decreases work_left(p),
    when p.wf()
    via service_decreases
{
    if p.stage == Stage::Looking || p.stage == Stage::Attaching {
        let (next, action) = p.step(answer(p, there));
        seq![action] + service(next, there)
    } else {
        seq![]
    }
}

#[via_fn]
proof fn service_decreases(p: PassV, there: spec_fn(int) -> bool) {
    lemma_step_keeps_wf(p, answer(p, there));
    lemma_pass_ends(p, answer(p, there));
}

/// Every tracked player of a shared game is served from the same replay: after
/// one recording, each pending job of the game from the one in hand on whose
/// clips are there is attached, and nothing is recorded for it again.
pub proof fn lemma_every_player_is_served(p: PassV, there: spec_fn(int) -> bool, i: int)
    requires
        p.wf(),
        p.stage == Stage::Recording,
        p.at <= i < p.jobs.len(),
        fellow(p.jobs[p.at])(p.jobs[i]),
        there(i),
    ensures
        ({
            let q = p.step(EventV::Recorded(true)).0;
            &&& service(q, there).contains(ActionV::Attach(i))
            &&& forall|k: int|
                0 <= k < service(q, there).len() ==> !(#[trigger] service(q, there)[k] is Record)
            &&& service(q, there).last() is Finish
        }),
{
    let q = p.step(EventV::Recorded(true)).0;
    lemma_step_keeps_wf(p, EventV::Recorded(true));
    seqs::lemma_first_is(p.jobs.skip(p.at), fellow(p.jobs[p.at]));
    assert(p.jobs.skip(p.at)[0] == p.jobs[p.at]);
    assert(q.stage == Stage::Looking && q.serving == p.at);
    lemma_service(q, there, i);
}

/// What [`lemma_every_player_is_served`] says, from any point of the service on
/// at which job `i` is still to come.
proof fn lemma_service(p: PassV, there: spec_fn(int) -> bool, i: int)
    requires
        p.wf(),
        p.stage == Stage::Looking || p.stage == Stage::Attaching,
        fellow(p.jobs[p.at])(p.jobs[i]),
        p.serving <= i < p.jobs.len(),
        there(i),
        p.stage == Stage::Attaching ==> p.attached && p.serving < i,
    ensures
        service(p, there).contains(ActionV::Attach(i)),
        forall|k: int|
            0 <= k < service(p, there).len() ==> !(#[trigger] service(p, there)[k] is Record),
        service(p, there).len() > 0 && service(p, there).last() is Finish,
    decreases work_left(p),
{
    let event = answer(p, there);
    let (next, action) = p.step(event);
    lemma_step_keeps_wf(p, event);
    lemma_pass_ends(p, event);
    let rest = service(next, there);
    let all = service(p, there);
    assert(all =~= seq![action] + rest);
    let from = p.serving + 1;
    if p.stage == Stage::Looking && there(p.serving) {
        assert(action == ActionV::Attach(p.serving));
        assert(all[0] == action);
        if p.serving < i {
            lemma_service(next, there, i);
        } else {
            lemma_service_ends(next, there);
        }
    } else {
        seqs::lemma_first_is(p.jobs.skip(from), fellow(p.jobs[p.at]));
        assert(p.jobs.skip(from)[i - from] == p.jobs[i]);
        assert(fellow(p.jobs[p.at])(p.jobs.skip(from)[i - from]));
        lemma_service(next, there, i);
    }
    if rest.contains(ActionV::Attach(i)) {
        let k = choose|k: int| 0 <= k < rest.len() && rest[k] == ActionV::Attach(i);
        assert(all[k + 1] == ActionV::Attach(i));
    }
    assert forall|k: int| 0 <= k < all.len() implies !(#[trigger] all[k] is Record) by {
        if k > 0 {
            assert(all[k] == rest[k - 1]);
        }
    }
    assert(all.last() == rest.last());
}

/// Once clips were attached the service ends the pass, and nothing is recorded.
proof fn lemma_service_ends(p: PassV, there: spec_fn(int) -> bool)
    requires
        p.wf(),
        p.attached,
        p.stage == Stage::Looking || p.stage == Stage::Attaching,
    ensures
        forall|k: int|
            0 <= k < service(p, there).len() ==> !(#[trigger] service(p, there)[k] is Record),
        service(p, there).len() > 0 && service(p, there).last() is Finish,
    decreases work_left(p),
{
    let event = answer(p, there);
    let (next, action) = p.step(event);
    lemma_step_keeps_wf(p, event);
    lemma_pass_ends(p, event);
    let rest = service(next, there);
    let all = service(p, there);
    assert(all =~= seq![action] + rest);
    if next.stage == Stage::Looking || next.stage == Stage::Attaching {
        lemma_service_ends(next, there);
        assert(all.last() == rest.last());
    } else {
        assert(rest =~= seq![]);
        assert(all =~= seq![action]);
    }
    assert forall|k: int| 0 <= k < all.len() implies !(#[trigger] all[k] is Record) by {
        if k > 0 {
            assert(all[k] == rest[k - 1]);
        }
    }
}

} // verus!
