//! A match record as match-v5 tells it, read from its archived text.

use riven::models::match_v5;
use vstd::prelude::*;

use crate::game::{Game, GameV, Participant, ParticipantV};
use crate::{scan, text};

verus! {

/// One match's record, as far as the library reads it.
#[derive(Debug)]
pub struct MatchRecord {
    pub match_id: String,
    pub platform_id: String,
    pub queue_id: u16,
    /// When the game began, in milliseconds since the epoch.
    pub game_start_timestamp: i64,
    /// Length in seconds.
    pub game_duration: i64,
    pub participants: Vec<Participant>,
}

/// The mathematical value of a [`MatchRecord`].
pub struct MatchRecordV {
    pub match_id: Seq<char>,
    pub platform_id: Seq<char>,
    pub queue_id: u16,
    pub game_start_timestamp: i64,
    pub game_duration: i64,
    pub participants: Seq<ParticipantV>,
}

impl View for MatchRecord {
    type V = MatchRecordV;

    open spec fn view(&self) -> MatchRecordV {
        MatchRecordV {
            match_id: self.match_id@,
            platform_id: self.platform_id@,
            queue_id: self.queue_id,
            game_start_timestamp: self.game_start_timestamp,
            game_duration: self.game_duration,
            participants: scan::views(self.participants@),
        }
    }
}

/// The record that `serde_json::from_str` reads from a text as riven's
/// `match_v5::Match`, if it accepts it.
pub uninterp spec fn match_read(text: Seq<char>) -> Option<MatchRecordV>;

/// Parses `raw` as riven's `match_v5::Match` (`serde_json::from_str`), and moves
/// the fields that the library reads into its own record: queue and team by
/// their numbers, everything else as it is. Which texts are accepted, and what
/// the fields hold, is a function of the text alone.
#[verifier::external_body]
fn parse_match(raw: &str) -> (r: Option<MatchRecord>)
    ensures
        match r {
            Some(m) => match_read(raw@) == Some(m@),
            None => match_read(raw@) is None,
        },
{
    let match_v5::Match { metadata, info, .. } = serde_json::from_str(raw).ok()?;
    let own = |match_v5::Participant { participant_id, team_id, puuid, champion_name, team_position,
        riot_id_game_name, riot_id_tagline, time_ccing_others, win, kills, deaths, assists,
        total_minions_killed, neutral_minions_killed, total_damage_dealt_to_champions, gold_earned,
        vision_score, wards_placed, wards_killed, vision_wards_bought_in_game, .. }| Participant {
        participant_id, team_id: team_id.into(), puuid, champion_name, team_position,
        riot_id_game_name, riot_id_tagline, time_ccing_others, win, kills, deaths, assists,
        total_minions_killed, neutral_minions_killed, total_damage_dealt_to_champions, gold_earned,
        vision_score, wards_placed, wards_killed, vision_wards_bought_in_game };
    Some(MatchRecord { match_id: metadata.match_id, platform_id: info.platform_id,
        queue_id: info.queue_id.0, game_start_timestamp: info.game_start_timestamp,
        game_duration: info.game_duration, participants: info.participants.into_iter().map(own).collect() })
}

/// The match that a record tells of, its start in seconds.
pub open spec fn in_seconds(m: MatchRecordV) -> GameV {
    GameV {
        match_id: m.match_id,
        platform_id: m.platform_id,
        queue_id: m.queue_id,
        started_at_secs: text::tdiv(m.game_start_timestamp as int, 1000) as i64,
        game_duration: m.game_duration,
        participants: m.participants,
    }
}

/// The match that a record tells of, its start in seconds.
pub fn game_from(m: MatchRecord) -> (r: Game)
    ensures
        r@ == in_seconds(m@),
{
    Game {
        match_id: m.match_id,
        platform_id: m.platform_id,
        queue_id: m.queue_id,
        started_at_secs: m.game_start_timestamp / 1000,
        game_duration: m.game_duration,
        participants: m.participants,
    }
}

/// Reads a match from its record, such as an archived `match.json`; nothing
/// where the text is no match record.
pub fn read_game(raw: &str) -> (r: Option<Game>)
    ensures
        match match_read(raw@) {
            Some(m) => r matches Some(g) && g@ == in_seconds(m),
            None => r is None,
        },
{
    match parse_match(raw) {
        Some(m) => Some(game_from(m)),
        None => None,
    }
}

} // verus!
