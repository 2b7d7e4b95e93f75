//! One match's details, as far as the library reads them.

use vstd::prelude::*;

use crate::text::{same, same_ignoring_case, split_once};
use crate::{scan, seqs, text};

verus! {

/// One player's line of a match.
#[derive(Debug)]
pub struct Participant {
    pub participant_id: i32,
    /// The raw team id: 100 for blue, 200 for red.
    pub team_id: u16,
    pub puuid: String,
    /// The champion's name as the match names it.
    pub champion_name: String,
    pub team_position: String,
    pub riot_id_game_name: Option<String>,
    pub riot_id_tagline: Option<String>,
    pub time_ccing_others: i32,
    pub win: bool,
    pub kills: i32,
    pub deaths: i32,
    pub assists: i32,
    pub total_minions_killed: i32,
    pub neutral_minions_killed: i32,
    pub total_damage_dealt_to_champions: i32,
    pub gold_earned: i32,
    pub vision_score: i32,
    pub wards_placed: i32,
    pub wards_killed: i32,
    pub vision_wards_bought_in_game: i32,
}

/// One match.
#[derive(Debug)]
pub struct Game {
    /// E.g. `NA1_5630828116`.
    pub match_id: String,
    pub platform_id: String,
    pub queue_id: u16,
    /// When the game began, in seconds since the epoch.
    pub started_at_secs: i64,
    /// Length in seconds.
    pub game_duration: i64,
    pub participants: Vec<Participant>,
}

/// The mathematical value of a [`Participant`].
pub struct ParticipantV {
    pub participant_id: i32,
    pub team_id: u16,
    pub puuid: Seq<char>,
    pub champion_name: Seq<char>,
    pub team_position: Seq<char>,
    pub riot_id_game_name: Option<Seq<char>>,
    pub riot_id_tagline: Option<Seq<char>>,
    pub time_ccing_others: i32,
    pub win: bool,
    pub kills: i32,
    pub deaths: i32,
    pub assists: i32,
    pub total_minions_killed: i32,
    pub neutral_minions_killed: i32,
    pub total_damage_dealt_to_champions: i32,
    pub gold_earned: i32,
    pub vision_score: i32,
    pub wards_placed: i32,
    pub wards_killed: i32,
    pub vision_wards_bought_in_game: i32,
}

/// The mathematical value of a [`Game`].
pub struct GameV {
    pub match_id: Seq<char>,
    pub platform_id: Seq<char>,
    pub queue_id: u16,
    pub started_at_secs: i64,
    pub game_duration: i64,
    pub participants: Seq<ParticipantV>,
}

/// The characters of an optional string.
pub open spec fn text_of(s: Option<String>) -> Option<Seq<char>> {
    match s {
        Some(s) => Some(s@),
        None => None,
    }
}

impl View for Participant {
    type V = ParticipantV;

    open spec fn view(&self) -> ParticipantV {
        ParticipantV {
            participant_id: self.participant_id,
            team_id: self.team_id,
            puuid: self.puuid@,
            champion_name: self.champion_name@,
            team_position: self.team_position@,
            riot_id_game_name: text_of(self.riot_id_game_name),
            riot_id_tagline: text_of(self.riot_id_tagline),
            time_ccing_others: self.time_ccing_others,
            win: self.win,
            kills: self.kills,
            deaths: self.deaths,
            assists: self.assists,
            total_minions_killed: self.total_minions_killed,
            neutral_minions_killed: self.neutral_minions_killed,
            total_damage_dealt_to_champions: self.total_damage_dealt_to_champions,
            gold_earned: self.gold_earned,
            vision_score: self.vision_score,
            wards_placed: self.wards_placed,
            wards_killed: self.wards_killed,
            vision_wards_bought_in_game: self.vision_wards_bought_in_game,
        }
    }
}

impl View for Game {
    type V = GameV;

    open spec fn view(&self) -> GameV {
        GameV {
            match_id: self.match_id@,
            platform_id: self.platform_id@,
            queue_id: self.queue_id,
            started_at_secs: self.started_at_secs,
            game_duration: self.game_duration,
            participants: scan::views(self.participants@),
        }
    }
}

/// The team number of a raw team id, 0 for neither side.
pub open spec fn side_of(team_id: u16) -> i32 {
    if team_id == 100 {
        100
    } else if team_id == 200 {
        200
    } else {
        0
    }
}

pub fn team_i32(team_id: u16) -> (r: i32)
    ensures
        r == side_of(team_id),
{
    if team_id == 100 {
        100
    } else if team_id == 200 {
        200
    } else {
        0
    }
}

/// Whether a participant is the player with `puuid`.
pub open spec fn is_player(puuid: Seq<char>) -> spec_fn(ParticipantV) -> bool {
    |p: ParticipantV| p.puuid == puuid
}

/// Whether a participant has the given number.
pub open spec fn has_number(participant_id: i32) -> spec_fn(ParticipantV) -> bool {
    |p: ParticipantV| p.participant_id == participant_id
}

/// Whether a participant goes by `name` and `tag`, ignoring case.
pub open spec fn goes_by(name: Seq<char>, tag: Seq<char>) -> spec_fn(ParticipantV) -> bool {
    |p: ParticipantV|
        {
            &&& p.riot_id_game_name matches Some(n) && text::ascii_lowered(n)
                == text::ascii_lowered(name)
            &&& p.riot_id_tagline matches Some(t) && text::ascii_lowered(t) == text::ascii_lowered(
                tag,
            )
        }
}

impl GameV {
    /// The first participant that satisfies `p`.
    pub open spec fn first(self, p: spec_fn(ParticipantV) -> bool) -> Option<ParticipantV> {
        match seqs::first_where(self.participants, p) {
            Some(i) => Some(self.participants[i]),
            None => None,
        }
    }

    /// The player with `puuid`.
    pub open spec fn player(self, puuid: Seq<char>) -> Option<ParticipantV> {
        self.first(is_player(puuid))
    }

    /// The roster: each participant's number and team.
    pub open spec fn roster(self) -> Seq<(i32, i32)> {
        self.participants.map_values(|p: ParticipantV| (p.participant_id, side_of(p.team_id)))
    }

    /// The champion of a participant.
    pub open spec fn champion(self, participant_id: i32) -> Seq<char> {
        match self.first(has_number(participant_id)) {
            Some(p) => p.champion_name,
            None => "an enemy"@,
        }
    }
}

/// The index of the player with `puuid`.
pub fn find_player(game: &Game, puuid: &str) -> (r: Option<usize>)
    ensures
        match r {
            Some(i) => i < game.participants@.len() && game@.player(puuid@) == Some(
                game.participants@[i as int]@,
            ),
            None => game@.player(puuid@) is None,
        },
{
    let f = |p: &Participant| -> (b: bool)
        ensures
            b == is_player(puuid@)(p@),
        { same(p.puuid.as_str(), puuid) };
    scan::find(&game.participants, f, Ghost(is_player(puuid@)))
}

/// participantId (1..=10) -> team id (100/200), indexed by participant order.
pub fn team_by_participant(game: &Game) -> (r: Vec<(i32, i32)>)
    ensures
        r@ == game@.roster(),
{
    let mut r: Vec<(i32, i32)> = Vec::new();
    for i in 0..game.participants.len()
        invariant
            r@ =~= game@.roster().take(i as int),
    {
        r.push((game.participants[i].participant_id, team_i32(game.participants[i].team_id)));
    }
    r
}

/// The champion of a participant, "an enemy" for a stranger.
pub fn champ_of(game: &Game, participant_id: i32) -> (r: String)
    ensures
        r@ == game@.champion(participant_id),
{
    let f = |p: &Participant| -> (b: bool)
        ensures
            b == has_number(participant_id)(p@),
        { p.participant_id == participant_id };
    match scan::find(&game.participants, f, Ghost(has_number(participant_id))) {
        Some(i) => game.participants[i].champion_name.clone(),
        None => "an enemy".to_string(),
    }
}

/// The name and tag of a Riot ID; without a `#` it is all name.
pub open spec fn name_and_tag(riot_id: Seq<char>) -> (Seq<char>, Seq<char>) {
    match text::cut_once(riot_id, '#') {
        Some(parts) => parts,
        None => (riot_id, seq![]),
    }
}

/// Splits a Riot ID into its name and tag; without a `#` it is all name.
pub fn split_riot_id(riot_id: &str) -> (r: (String, String))
    ensures
        (r.0@, r.1@) == name_and_tag(riot_id@),
{
    match split_once(riot_id, '#') {
        Some(parts) => parts,
        None => {
            let tag: String = String::new();
            proof {
                assert(tag@ =~= seq![]);
            }
            (riot_id.to_string(), tag)
        },
    }
}

fn find_named(game: &Game, name: &str, tag: &str) -> (r: Option<usize>)
    ensures
        match r {
            Some(i) => i < game.participants@.len() && game@.first(goes_by(name@, tag@)) == Some(
                game.participants@[i as int]@,
            ),
            None => game@.first(goes_by(name@, tag@)) is None,
        },
{
    let f = |p: &Participant| -> (b: bool)
        ensures
            b == goes_by(name@, tag@)(p@),
        {
                (match &p.riot_id_game_name {
                    Some(n) => same_ignoring_case(n.as_str(), name),
                    None => false,
                }) && (match &p.riot_id_tagline {
                    Some(t) => same_ignoring_case(t.as_str(), tag),
                    None => false,
                })
        };
    scan::find(&game.participants, f, Ghost(goes_by(name@, tag@)))
}

impl GameV {
    /// The PUUID of the participant that goes by a Riot ID.
    pub open spec fn puuid_of(self, riot_id: Seq<char>) -> Option<Seq<char>> {
        match self.first(goes_by(name_and_tag(riot_id).0, name_and_tag(riot_id).1)) {
            Some(p) => Some(p.puuid),
            None => None,
        }
    }
}

/// The participant matching a Riot ID, by PUUID. Riot IDs are
/// case-insensitive; match data stores the registered casing (often
/// lowercase), so compare without case.
pub fn find_puuid(game: &Game, riot_id: &str) -> (r: Option<String>)
    ensures
        text_of(r) == game@.puuid_of(riot_id@),
{
    let (name, tag) = split_riot_id(riot_id);
    match find_named(game, name.as_str(), tag.as_str()) {
        Some(i) => Some(game.participants[i].puuid.clone()),
        None => None,
    }
}

/// The PUUIDs of the watch-list players who take part in a game. An entry
/// without a `#` names nobody.
pub open spec fn tracked_in(game: GameV, roster: Seq<Seq<char>>) -> Seq<Seq<char>>
    decreases roster.len(),
{
    if roster.len() == 0 {
        seq![]
    } else {
        let before = tracked_in(game, roster.drop_last());
        if text::find(roster.last(), '#') is None {
            before
        } else {
            match game.puuid_of(roster.last()) {
                Some(puuid) => before.push(puuid),
                None => before,
            }
        }
    }
}

/// The PUUIDs of every watch-list player appearing in this game (Riot IDs
/// compare case-insensitively; the match data stores name and tag at game
/// time).
pub fn tracked_puuids(game: &Game, roster: &Vec<String>) -> (r: Vec<String>)
    ensures
        text::texts(r@) == tracked_in(game@, text::texts(roster@)),
{
    let ghost all = text::texts(roster@);
    let mut out: Vec<String> = Vec::new();
    proof {
        assert(text::texts(out@) =~= seq![]);
    }
    for i in 0..roster.len()
        invariant
            all == text::texts(roster@),
            text::texts(out@) == tracked_in(game@, all.take(i as int)),
    {
        proof {
            assert(all.take(i + 1).drop_last() =~= all.take(i as int));
            assert(all.take(i + 1).last() == roster@[i as int]@);
        }
        let ghost before = out@;
        if let Some((name, tag)) = split_once(roster[i].as_str(), '#') {
            if let Some(k) = find_named(game, name.as_str(), tag.as_str()) {
                out.push(game.participants[k].puuid.clone());
                proof {
                    assert(text::texts(out@) =~= text::texts(before).push(
                        game.participants@[k as int].puuid@,
                    ));
                }
            }
        }
    }
    proof {
        assert(all.take(all.len() as int) =~= all);
    }
    out
}

} // verus!
