//! The program's arguments, and what they ask for.

use vstd::prelude::*;

use crate::game::text_of;
use crate::riot::parse_platform;
use crate::{riot, text};

verus! {

/// Fetch a player's recent League matches and post stat summaries to a Discord webhook.
#[derive(Debug)]
pub struct Cli {
    /// Riot ID in `gameName#tagLine` form, e.g. "Faker#KR1". Required except
    /// with `tick`, which reads the watch list instead.
    pub riot_id: Option<String>,
    /// Platform/region code, e.g. na1, euw1, eun1, kr, br1. Required unless
    /// posting from an archive, which reads the platform from the match record.
    pub region: Option<String>,
    /// Discord incoming-webhook URL.
    pub webhook: String,
    /// Riot API key (Development or Production).
    pub api_key: String,
    /// Number of most-recent matches to summarize.
    pub count: i32,
    /// Only pull games from this queue id. `None` for all queues.
    pub queue: Option<u16>,
    /// Instead of posting, archive each match's raw data under this directory.
    pub dump: Option<String>,
    /// Post a packaged stats + clips message from a dumped match directory.
    pub from_archive: Option<String>,
    /// With `from_archive` on a ranked game: fetch the player's current rank and
    /// show the LP delta since the journal's last observation.
    pub track_lp: bool,
    /// Instead of posting, run the causal analysis over a dumped match directory
    /// and print the classified moments and clip picks.
    pub analyze: Option<String>,
    /// With `from_archive`: edit the message already posted for this archive
    /// instead of posting a new one.
    pub edit: bool,
    /// Run one full poll pass over the watch list.
    pub tick: bool,
    /// Watch-list file: one `riot_id|region|queue[,queue…]` per line.
    pub accounts: String,
    /// Archive root the poller dumps matches under.
    pub archive: String,
    /// The append-only SQLite journal holding posted/clip/rank state.
    pub journal: String,
    /// With `tick`: skip the clip pass (no League client on this host).
    pub no_clips: bool,
    /// Clip attempts per game before the job is abandoned.
    pub clip_max_tries: u32,
    /// Clip recordings per pass; the pass also ends when the client leaves idle.
    pub clips_per_pass: u32,
    /// Print every journal event as one JSON line.
    pub journal_dump: bool,
    /// Mark clip jobs abandoned for these match ids.
    pub abandon_clips: Vec<String>,
}

/// What a run does.
#[derive(Debug, Clone, Copy, PartialEq, Eq, Structural)]
pub enum Mode {
    /// One full poll pass over the watch list.
    Tick,
    /// Print the journal.
    JournalDump,
    /// Mark clip jobs abandoned.
    AbandonClips,
    /// Post (or edit) from a dumped match record.
    FromArchive,
    /// Print the analysis of a dumped match.
    Analyze,
    /// Archive a player's recent matches.
    Dump,
    /// Post a player's recent matches.
    Post,
}

/// What is said when a mode needs a Riot ID that is not given.
pub open spec fn no_riot_id() -> Seq<char> {
    "--riot-id is required in this mode"@
}

/// What is said when a mode needs a region that is not given.
pub open spec fn no_region() -> Seq<char> {
    "--region is required (except with --from-archive)"@
}

/// What the arguments ask for, or why it cannot be done. The first of the modes
/// that is asked for wins; only the modes on one player's recent matches need a
/// region.
pub open spec fn planned(cli: Cli) -> Result<Mode, Seq<char>> {
    if cli.tick {
        Ok(Mode::Tick)
    } else if cli.journal_dump {
        Ok(Mode::JournalDump)
    } else if cli.abandon_clips@.len() > 0 {
        Ok(Mode::AbandonClips)
    } else if cli.from_archive is Some {
        Ok(Mode::FromArchive)
    } else if cli.analyze is Some {
        if cli.riot_id is Some {
            Ok(Mode::Analyze)
        } else {
            Err(no_riot_id())
        }
    } else {
        match cli.region {
            None => Err(no_region()),
            Some(region) => {
                let code = text::ascii_lowered(region@);
                if riot::platform_named(code) is None {
                    Err(riot::unknown_region(code))
                } else if cli.riot_id is None {
                    Err(no_riot_id())
                } else if cli.dump is Some {
                    Ok(Mode::Dump)
                } else {
                    Ok(Mode::Post)
                }
            },
        }
    }
}

impl Cli {
    /// Whether the tick's clip pass runs.
    pub fn clips(&self) -> (r: bool)
        ensures
            r == !self.no_clips,
    {
        !self.no_clips
    }

    /// The Riot ID, in modes that operate on a single player.
    pub fn require_riot_id(&self) -> (r: Result<&str, String>)
        ensures
            match r {
                Ok(id) => text_of(self.riot_id) == Some(id@),
                Err(e) => self.riot_id is None && e@ == no_riot_id(),
            },
    {
        match &self.riot_id {
            Some(id) => Ok(id.as_str()),
            None => Err("--riot-id is required in this mode".to_string()),
        }
    }

    /// What the arguments ask for.
    pub fn plan(&self) -> (r: Result<Mode, String>)
        ensures
            match r {
                Ok(mode) => planned(*self) == Ok::<Mode, Seq<char>>(mode),
                Err(e) => planned(*self) == Err::<Mode, Seq<char>>(e@),
            },
    {
        if self.tick {
            return Ok(Mode::Tick);
        }
        if self.journal_dump {
            return Ok(Mode::JournalDump);
        }
        if self.abandon_clips.len() > 0 {
            return Ok(Mode::AbandonClips);
        }
        if self.from_archive.is_some() {
            return Ok(Mode::FromArchive);
        }
        if self.analyze.is_some() {
            return match self.require_riot_id() {
                Ok(_) => Ok(Mode::Analyze),
                Err(e) => Err(e),
            };
        }
        match &self.region {
            None => Err("--region is required (except with --from-archive)".to_string()),
            Some(region) => match parse_platform(region.as_str()) {
                Err(e) => Err(e),
                Ok(_) => match self.require_riot_id() {
                    Err(e) => Err(e),
                    Ok(_) => if self.dump.is_some() {
                        Ok(Mode::Dump)
                    } else {
                        Ok(Mode::Post)
                    },
                },
            },
        }
    }
}

} // verus!
