//! A flattened, post-ready summary of one player's performance in one match.

use vstd::prelude::*;

use crate::game::{find_player, text_of, Game, GameV, ParticipantV};
use crate::text::decimal;
use crate::{rank, text};

verus! {

/// The ranked standing shown on a post.
#[derive(Debug, PartialEq, Eq)]
pub struct RankInfo {
    /// E.g. "Gold II".
    pub label: String,
    pub lp: i32,
    /// The LP change since the last observation, when there was one.
    pub delta: Option<i32>,
}

/// The mathematical value of a [`RankInfo`].
pub struct RankInfoV {
    pub label: Seq<char>,
    pub lp: i32,
    pub delta: Option<i32>,
}

impl View for RankInfo {
    type V = RankInfoV;

    open spec fn view(&self) -> RankInfoV {
        RankInfoV { label: self.label@, lp: self.lp, delta: self.delta }
    }
}

impl Clone for RankInfo {
    fn clone(&self) -> (r: RankInfo)
        ensures
            r == *self,
    {
        RankInfo { label: self.label.clone(), lp: self.lp, delta: self.delta }
    }
}

/// Per-render context: the things the message needs that aren't in the match
/// data (which web region to link, and a display-name fallback if Riot omits
/// it).
pub struct RenderContext<'a> {
    pub region_slug: &'a str,
    pub fallback_name: &'a str,
    pub fallback_tag: &'a str,
}

/// The mathematical value of a [`RenderContext`].
pub struct ContextV {
    pub region_slug: Seq<char>,
    pub fallback_name: Seq<char>,
    pub fallback_tag: Seq<char>,
}

impl<'a> View for RenderContext<'a> {
    type V = ContextV;

    open spec fn view(&self) -> ContextV {
        ContextV {
            region_slug: self.region_slug@,
            fallback_name: self.fallback_name@,
            fallback_tag: self.fallback_tag@,
        }
    }
}

/// Warding / vision block for the stats message.
#[derive(Debug, Clone, Copy)]
pub struct VisionStats {
    pub vision_score: i32,
    pub wards_placed: i32,
    pub wards_killed: i32,
    pub control_wards_bought: i32,
}

/// A flattened, post-ready summary of one player's performance in one match.
#[derive(Debug)]
pub struct MatchSummary {
    pub player: String,
    pub champion: String,
    pub icon_url: String,
    pub profile_url: String,
    /// The queue's display name; empty when it has none.
    pub queue: String,
    /// "Blue" or "Red"; empty for neither.
    pub side: String,
    pub win: bool,
    /// When the game began, in seconds since the epoch.
    pub started_at_secs: i64,
    pub duration_secs: i64,
    pub kills: i32,
    pub deaths: i32,
    pub assists: i32,
    pub cs: i32,
    pub damage_to_champions: i32,
    pub gold: i32,
    pub vision: VisionStats,
    /// The ranked standing, in ranked games whose standing is known.
    pub rank: Option<RankInfo>,
}

/// The mathematical value of a [`MatchSummary`].
pub struct SummaryV {
    pub player: Seq<char>,
    pub champion: Seq<char>,
    pub icon_url: Seq<char>,
    pub profile_url: Seq<char>,
    pub queue: Seq<char>,
    pub side: Seq<char>,
    pub win: bool,
    pub started_at_secs: i64,
    pub duration_secs: i64,
    pub kills: i32,
    pub deaths: i32,
    pub assists: i32,
    pub cs: i32,
    pub damage_to_champions: i32,
    pub gold: i32,
    pub vision: VisionStats,
    pub rank: Option<RankInfoV>,
}

/// The value of an optional standing.
pub open spec fn rank_value(r: Option<RankInfo>) -> Option<RankInfoV> {
    match r {
        Some(r) => Some(r@),
        None => None,
    }
}

impl View for MatchSummary {
    type V = SummaryV;

    open spec fn view(&self) -> SummaryV {
        SummaryV {
            player: self.player@,
            champion: self.champion@,
            icon_url: self.icon_url@,
            profile_url: self.profile_url@,
            queue: self.queue@,
            side: self.side@,
            win: self.win,
            started_at_secs: self.started_at_secs,
            duration_secs: self.duration_secs,
            kills: self.kills,
            deaths: self.deaths,
            assists: self.assists,
            cs: self.cs,
            damage_to_champions: self.damage_to_champions,
            gold: self.gold,
            vision: self.vision,
            rank: rank_value(self.rank),
        }
    }
}

impl MatchSummary {
    /// (kills + assists) / deaths as a numerator and a denominator, treating a
    /// deathless game as a perfect ratio.
    pub fn kda(&self) -> (r: (i64, i64))
        ensures
            r.0 == self.kills + self.assists,
            r.1 == (if self.deaths == 0 {
                1
            } else {
                self.deaths as int
            }),
    {
        let taken: i64 = self.kills as i64 + self.assists as i64;
        if self.deaths == 0 {
            (taken, 1)
        } else {
            (taken, self.deaths as i64)
        }
    }
}

// --- what the outside crates know --------------------------------------------

/// The number of the champion that a match calls by a name, as riven's
/// `Champion::from_str` knows it.
pub uninterp spec fn champion_number(name: Seq<char>) -> Option<i32>;

/// The number of the champion that a match calls `name` (riven's
/// `Champion::from_str`, which is what `Participant::champion` calls on the
/// participant's champion name); `None` for a name that it does not know. The
/// result is a function of the name alone.
#[verifier::external_body]
fn champion_id(name: &str) -> (r: Option<i32>)
    ensures
        r == champion_number(name@),
{
    name.parse::<riven::consts::Champion>().ok().map(i32::from)
}

/// The display name of the champion with a number, as riven's
/// `Champion::name` knows it.
pub uninterp spec fn champion_title(number: i32) -> Option<Seq<char>>;

/// The display name of the champion with `number` (riven's `Champion::name`,
/// a function of the number alone); `None` for a number that it does not know.
#[verifier::external_body]
fn champion_name(number: i32) -> (r: Option<String>)
    ensures
        text_of(r) == champion_title(number),
{
    riven::consts::Champion(number).name().map(str::to_owned)
}

/// The hexadecimal digit of `d`, in upper case.
pub open spec fn hex_digit(d: int) -> char {
    if d < 10 {
        (0x30 + d) as char
    } else {
        (0x41 + d - 10) as char
    }
}

/// A byte in a percent-encoded text: ASCII letters, digits, `-`, `.`, `_` and
/// `~` stand for themselves, any other byte is `%` and two hexadecimal digits.
pub open spec fn percent_byte(b: u8) -> Seq<char> {
    if text::is_alphanumeric(b as char) || b == 0x2d || b == 0x2e || b == 0x5f || b == 0x7e {
        seq![b as char]
    } else {
        seq!['%', hex_digit(b as int / 16), hex_digit(b as int % 16)]
    }
}

/// The percent-encoding of some bytes.
pub open spec fn percent_encoded(bytes: Seq<u8>) -> Seq<char>
    decreases bytes.len(),
{
    if bytes.len() == 0 {
        seq![]
    } else {
        percent_encoded(bytes.drop_last()) + percent_byte(bytes.last())
    }
}

/// `s` percent-encoded byte by byte of its UTF-8 form (urlencoding's
/// `encode`).
#[verifier::external_body]
fn url_encoded(s: &str) -> (r: String)
    ensures
        r@ == percent_encoded(vstd::utf8::encode_utf8(s@)),
{
    urlencoding::encode(s).into_owned()
}

// --- summaries ---------------------------------------------------------------

/// The display name of a queue; empty for one without a name.
pub open spec fn queue_title(queue_id: u16) -> Seq<char> {
    if queue_id == 420 {
        "Ranked Solo"@
    } else if queue_id == 440 {
        "Ranked Flex"@
    } else if queue_id == 710 {
        "Ranked 5v5"@
    } else if queue_id == 400 {
        "Normal Draft"@
    } else if queue_id == 430 {
        "Normal Blind"@
    } else if queue_id == 450 {
        "ARAM"@
    } else {
        ""@
    }
}

/// The display name of a queue; empty for one without a name.
pub fn queue_name(queue_id: u16) -> (r: &'static str)
    ensures
        r@ == queue_title(queue_id),
{
    match queue_id {
        420 => "Ranked Solo",
        440 => "Ranked Flex",
        710 => "Ranked 5v5",
        400 => "Normal Draft",
        430 => "Normal Blind",
        450 => "ARAM",
        _ => "",
    }
}

/// The colour of a side; empty for neither.
pub open spec fn side_colour(team_id: u16) -> Seq<char> {
    if team_id == 100 {
        "Blue"@
    } else if team_id == 200 {
        "Red"@
    } else {
        ""@
    }
}

fn side_of(team_id: u16) -> (r: &'static str)
    ensures
        r@ == side_colour(team_id),
{
    match team_id {
        100 => "Blue",
        200 => "Red",
        _ => "",
    }
}

/// A text that is there and not empty.
pub open spec fn filled(s: Option<Seq<char>>) -> Option<Seq<char>> {
    match s {
        Some(s) => if s.len() > 0 {
            Some(s)
        } else {
            None
        },
        None => None,
    }
}

/// Keeps a text that is not empty.
pub fn non_empty(s: &Option<String>) -> (r: Option<String>)
    ensures
        text_of(r) == filled(text_of(*s)),
{
    match s {
        Some(s) => if s.as_str().unicode_len() > 0 {
            Some(s.clone())
        } else {
            None
        },
        None => None,
    }
}

fn or_else(s: Option<String>, other: &str) -> (r: String)
    ensures
        r@ == rank::text_or(text_of(s), other@),
{
    match s {
        Some(s) => s,
        None => other.to_string(),
    }
}

/// Where the icon of a champion is. The numeric id keys a Community Dragon
/// icon directly, which avoids the quirks of name keys.
pub open spec fn icon_of(number: Option<i32>) -> Seq<char> {
    "https://raw.communitydragon.org/latest/plugins/rcp-be-lol-game-data/global/default/v1/champion-icons/"@
        + text::dec(match number {
        Some(n) => n as int,
        None => -1,
    }) + ".png"@
}

/// Where the profile of a player is.
pub open spec fn profile_of(region: Seq<char>, name: Seq<char>, tag: Seq<char>) -> Seq<char> {
    "https://www.op.gg/summoners/"@ + region + "/"@ + percent_encoded(
        vstd::utf8::encode_utf8(name),
    ) + "-"@ + percent_encoded(vstd::utf8::encode_utf8(tag))
}

/// Whether a participant's creep score can be counted.
pub open spec fn countable(p: ParticipantV) -> bool {
    i32::MIN <= p.total_minions_killed + p.neutral_minions_killed <= i32::MAX
}

/// The summary of participant `p` of game `g`, who plays the champion with
/// `number` that is called `title`.
pub open spec fn summary_of(
    g: GameV,
    p: ParticipantV,
    ctx: ContextV,
    number: Option<i32>,
    title: Option<Seq<char>>,
) -> SummaryV {
    let name = rank::text_or(filled(p.riot_id_game_name), ctx.fallback_name);
    let tag = rank::text_or(filled(p.riot_id_tagline), ctx.fallback_tag);
    SummaryV {
        player: name + " #"@ + tag,
        champion: rank::text_or(title, p.champion_name),
        icon_url: icon_of(number),
        profile_url: profile_of(ctx.region_slug, name, tag),
        queue: queue_title(g.queue_id),
        side: side_colour(p.team_id),
        win: p.win,
        started_at_secs: g.started_at_secs,
        duration_secs: g.game_duration,
        kills: p.kills,
        deaths: p.deaths,
        assists: p.assists,
        cs: (p.total_minions_killed + p.neutral_minions_killed) as i32,
        damage_to_champions: p.total_damage_dealt_to_champions,
        gold: p.gold_earned,
        vision: VisionStats {
            vision_score: p.vision_score,
            wards_placed: p.wards_placed,
            wards_killed: p.wards_killed,
            control_wards_bought: p.vision_wards_bought_in_game,
        },
        rank: None,
    }
}

/// The summary of the participant at `at`, who plays the champion with
/// `number` that is called `title`.
pub fn summary_line(
    game: &Game,
    at: usize,
    ctx: &RenderContext,
    number: Option<i32>,
    title: Option<String>,
) -> (r: MatchSummary)
    requires
        at < game.participants@.len(),
        countable(game.participants@[at as int]@),
    ensures
        r@ == summary_of(game@, game.participants@[at as int]@, ctx@, number, text_of(title)),
{
    let p = &game.participants[at];
    let name: String = or_else(non_empty(&p.riot_id_game_name), ctx.fallback_name);
    let tag: String = or_else(non_empty(&p.riot_id_tagline), ctx.fallback_tag);
    let icon: i32 = match number {
        Some(n) => n,
        None => -1,
    };
    MatchSummary {
        player: name.clone().concat(" #").concat(tag.as_str()),
        champion: or_else(title, p.champion_name.as_str()),
        icon_url: "https://raw.communitydragon.org/latest/plugins/rcp-be-lol-game-data/global/default/v1/champion-icons/".to_string().concat(
        decimal(icon as i128).as_str()).concat(".png"),
        profile_url: "https://www.op.gg/summoners/".to_string().concat(ctx.region_slug).concat(
            "/",
        ).concat(url_encoded(name.as_str()).as_str()).concat("-").concat(
            url_encoded(tag.as_str()).as_str(),
        ),
        queue: queue_name(game.queue_id).to_string(),
        side: side_of(p.team_id).to_string(),
        win: p.win,
        started_at_secs: game.started_at_secs,
        duration_secs: game.game_duration,
        kills: p.kills,
        deaths: p.deaths,
        assists: p.assists,
        cs: p.total_minions_killed + p.neutral_minions_killed,
        damage_to_champions: p.total_damage_dealt_to_champions,
        gold: p.gold_earned,
        vision: VisionStats {
            vision_score: p.vision_score,
            wards_placed: p.wards_placed,
            wards_killed: p.wards_killed,
            control_wards_bought: p.vision_wards_bought_in_game,
        },
        rank: None,
    }
}

/// The summary of the player with `puuid`: the champion comes from the name
/// that the match gives, which riven resolves.
pub open spec fn summary_in(g: GameV, puuid: Seq<char>, ctx: ContextV) -> Option<SummaryV> {
    match g.player(puuid) {
        Some(p) => Some(
            summary_of(
                g,
                p,
                ctx,
                champion_number(p.champion_name),
                match champion_number(p.champion_name) {
                    Some(n) => champion_title(n),
                    None => None,
                },
            ),
        ),
        None => None,
    }
}

/// Build a summary for the participant matching `puuid`, or `None` if absent.
pub fn summarize(game: &Game, puuid: &str, ctx: &RenderContext) -> (r: Option<MatchSummary>)
    requires
        game@.player(puuid@) matches Some(p) ==> countable(p),
    ensures
        match r {
            Some(s) => summary_in(game@, puuid@, ctx@) == Some(s@),
            None => game@.player(puuid@) is None,
        },
{
    match find_player(game, puuid) {
        Some(at) => {
            let number: Option<i32> = champion_id(game.participants[at].champion_name.as_str());
            let title: Option<String> = match number {
                Some(n) => champion_name(n),
                None => None,
            };
            Some(summary_line(game, at, ctx, number, title))
        },
        None => None,
    }
}

} // verus!
