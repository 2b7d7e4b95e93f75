//! The figures behind the dashboard: gold lead over time, damage by player and
//! the player's places in the lobby.

use vstd::prelude::*;

use crate::game::{find_player, Game, GameV, Participant, ParticipantV};
use crate::json::{read, Json, Number, NumberTree, Tree};
use crate::seqs::{sort, Order};
use crate::text::{lines, same, trim};
use crate::{game, json, scan, seqs, text};

verus! {

/// Why no figures can be given.
#[derive(Debug, PartialEq, Eq, Structural)]
pub enum ChartError {
    /// No participant has the PUUID.
    PlayerNotFound,
    /// The frame on this line (blank lines not counted) is no JSON.
    BadFrame(usize),
}

// --- gold lead -----------------------------------------------------------------------

/// The gold lead at one frame.
#[derive(Debug)]
pub struct GoldPoint {
    /// The frame's time in milliseconds, where it has one.
    pub at: Option<Number>,
    /// How much more gold the player's team has than the other.
    pub lead: i128,
}

/// The mathematical value of a [`GoldPoint`].
pub struct GoldPointV {
    pub at: Option<NumberTree>,
    pub lead: int,
}

impl View for GoldPoint {
    type V = GoldPointV;

    open spec fn view(&self) -> GoldPointV {
        GoldPointV {
            at: match self.at {
                Some(n) => Some(n@),
                None => None,
            },
            lead: self.lead as int,
        }
    }
}

/// The team of the participant with a number: where several have it, the last
/// counts.
pub open spec fn team_named(parts: Seq<ParticipantV>, participant_id: i32) -> Option<u16>
    decreases parts.len(),
{
    if parts.len() == 0 {
        None
    } else if parts.last().participant_id == participant_id {
        Some(parts.last().team_id)
    } else {
        team_named(parts.drop_last(), participant_id)
    }
}

/// What one participant's frame adds to the lead of `team`: gold of the team
/// counts for it, anybody else's against it.
pub open spec fn gold_for(parts: Seq<ParticipantV>, team: u16) -> spec_fn(Tree) -> int {
    |p: Tree|
        {
            let gold = p.int_or_zero("totalGold"@) as int;
            if team_named(parts, p.int_or_zero("participantId"@) as i32) == Some(team) {
                gold
            } else {
                -gold
            }
        }
}

/// The lead of `team` at a frame.
pub open spec fn point_of(parts: Seq<ParticipantV>, team: u16, frame: Tree) -> GoldPointV {
    GoldPointV {
        at: frame.number_at("timestamp"@),
        lead: seqs::sum_of(frame.items_at("participants"@), gold_for(parts, team)),
    }
}

/// Whether a line holds anything.
pub open spec fn has_text() -> spec_fn(Seq<char>) -> bool {
    |line: Seq<char>| text::trimmed(line).len() > 0
}

/// Whether a line is no JSON.
pub open spec fn is_bad() -> spec_fn(Seq<char>) -> bool {
    |line: Seq<char>| json::read_tree(line) is None
}

/// The lines of a frames file that hold a frame.
pub open spec fn frame_lines(frames_jsonl: Seq<char>) -> Seq<Seq<char>> {
    seqs::keep(text::line_texts(frames_jsonl), has_text())
}

/// The leads of `team` at the frames that some lines hold.
pub open spec fn points_of(
    parts: Seq<ParticipantV>,
    team: u16,
    frames: Seq<Seq<char>>,
) -> Seq<GoldPointV> {
    frames.map_values(
        |line: Seq<char>|
            point_of(
                parts,
                team,
                match json::read_tree(line) {
                    Some(t) => t,
                    None => Tree::Null,
                },
            ),
    )
}

fn team_of(parts: &Vec<Participant>, participant_id: i32) -> (r: Option<u16>)
    ensures
        r == team_named(scan::views(parts@), participant_id),
{
    let ghost all = scan::views(parts@);
    let mut k: usize = parts.len();
    proof {
        assert(all.take(k as int) =~= all);
    }
    while k > 0
        invariant
            k <= parts@.len(),
            all == scan::views(parts@),
            team_named(all, participant_id) == team_named(all.take(k as int), participant_id),
        decreases k,
    {
        proof {
            assert(all.take(k as int).drop_last() =~= all.take(k - 1));
            assert(all.take(k as int).last() == parts@[k - 1]@);
        }
        if parts[k - 1].participant_id == participant_id {
            return Some(parts[k - 1].team_id);
        }
        k = k - 1;
    }
    None
}

fn lead_of(parts: &Vec<Participant>, team: u16, items: &Vec<Json>) -> (r: i128)
    ensures
        r == seqs::sum_of(json::trees(items@), gold_for(scan::views(parts@), team)),
{
    let ghost all = json::trees(items@);
    let ghost f = gold_for(scan::views(parts@), team);
    let mut lead: i128 = 0;
    for i in 0..items.len()
        invariant
            all == json::trees(items@),
            f == gold_for(scan::views(parts@), team),
            lead == seqs::sum_of(all.take(i as int), f),
            -0x8000_0000_0000_0000 * i <= lead <= 0x8000_0000_0000_0000 * i,
    {
        let p: &Json = &items[i];
        let gold: i128 = p.int_or_zero("totalGold") as i128;
        let id: i32 = #[verifier::truncate]
        (p.int_or_zero("participantId") as i32);
        proof {
            assert(all.take(i + 1).drop_last() =~= all.take(i as int));
            assert(all.take(i + 1).last() == p@);
            assert(0x8000_0000_0000_0000 * (i + 1) <= 0x8000_0000_0000_0000
                * 0xffff_ffff_ffff_ffff) by (nonlinear_arith)
                requires
                    i + 1 <= 0xffff_ffff_ffff_ffff,
            ;
        }
        let ours: bool = match team_of(parts, id) {
            Some(t) => t == team,
            None => false,
        };
        if ours {
            lead = lead + gold;
        } else {
            lead = lead - gold;
        }
    }
    proof {
        assert(all.take(all.len() as int) =~= all);
    }
    lead
}

/// The gold lead of `team` at a frame.
pub fn gold_point(parts: &Vec<Participant>, team: u16, frame: &Json) -> (r: GoldPoint)
    ensures
        r@ == point_of(scan::views(parts@), team, frame@),
{
    let none: Vec<Json> = Vec::new();
    let items: &Vec<Json> = match frame.array_at("participants") {
        Some(a) => a,
        None => &none,
    };
    proof {
        assert(json::trees(none@) =~= seq![]);
    }
    GoldPoint { at: frame.number_at("timestamp"), lead: lead_of(parts, team, items) }
}

fn with_text(all: Vec<String>) -> (r: Vec<String>)
    ensures
        text::texts(r@) == seqs::keep(text::texts(all@), has_text()),
{
    let ghost ls = text::texts(all@);
    let mut out: Vec<String> = Vec::new();
    proof {
        assert(text::texts(out@) =~= seq![]);
    }
    for i in 0..all.len()
        invariant
            ls == text::texts(all@),
            text::texts(out@) == seqs::keep(ls.take(i as int), has_text()),
    {
        proof {
            assert(ls.take(i + 1).drop_last() =~= ls.take(i as int));
            assert(ls.take(i + 1).last() == all@[i as int]@);
        }
        let ghost before = out@;
        if trim(all[i].as_str()).as_str().unicode_len() > 0 {
            out.push(all[i].clone());
            proof {
                assert(text::texts(out@) =~= text::texts(before).push(all@[i as int]@));
            }
        }
    }
    proof {
        assert(ls.take(ls.len() as int) =~= ls);
    }
    out
}

/// Gold lead over time, from the tracked player's team's perspective: one
/// point per frame of the archive's frames file.
pub fn gold_lead(game: &Game, frames_jsonl: &str, puuid: &str) -> (r: Result<
    Vec<GoldPoint>,
    ChartError,
>)
    ensures
        match r {
            Ok(points) => {
                &&& game@.player(puuid@) is Some
                &&& seqs::first_where(frame_lines(frames_jsonl@), is_bad()) is None
                &&& scan::views(points@) == points_of(
                    game@.participants,
                    game@.player(puuid@)->0.team_id,
                    frame_lines(frames_jsonl@),
                )
            },
            Err(ChartError::PlayerNotFound) => game@.player(puuid@) is None,
            Err(ChartError::BadFrame(i)) => {
                &&& game@.player(puuid@) is Some
                &&& seqs::first_where(frame_lines(frames_jsonl@), is_bad()) == Some(i as int)
            },
        },
{
    let team: u16 = match find_player(game, puuid) {
        Some(at) => game.participants[at].team_id,
        None => return Err(ChartError::PlayerNotFound),
    };
    let ghost parts = game@.participants;
    let frames: Vec<String> = with_text(lines(frames_jsonl));
    let ghost all = frame_lines(frames_jsonl@);
    let mut points: Vec<GoldPoint> = Vec::new();
    proof {
        assert(scan::views(points@) =~= points_of(parts, team, all.take(0)));
    }
    for i in 0..frames.len()
        invariant
            text::texts(frames@) == all,
            all == frame_lines(frames_jsonl@),
            parts == game@.participants,
            game@.player(puuid@) matches Some(p) && p.team_id == team,
            seqs::first_where(all.take(i as int), is_bad()) is None,
            scan::views(points@) == points_of(parts, team, all.take(i as int)),
    {
        proof {
            assert(all.take(i + 1).drop_last() =~= all.take(i as int));
            assert(all.take(i + 1).last() == all[i as int]);
            assert(all[i as int] == frames@[i as int]@);
        }
        let ghost before = points@;
        match read(frames[i].as_str()) {
            Some(frame) => {
                points.push(gold_point(&game.participants, team, &frame));
                proof {
                    assert(scan::views(points@) =~= scan::views(before).push(
                        point_of(parts, team, frame@),
                    ));
                    assert(points_of(parts, team, all.take(i + 1)) =~= points_of(
                        parts,
                        team,
                        all.take(i as int),
                    ).push(point_of(parts, team, frame@)));
                }
            },
            None => {
                proof {
                    seqs::lemma_first_extends(all, is_bad(), i + 1);
                }
                return Err(ChartError::BadFrame(i));
            },
        }
    }
    proof {
        assert(all.take(all.len() as int) =~= all);
    }
    Ok(points)
}

/// The least lead that the gold axis reaches to.
pub const GOLD_FLOOR: u128 = 1_500;

/// A number without its sign.
pub open spec fn size(n: int) -> int {
    if n < 0 {
        -n
    } else {
        n
    }
}

/// How far the gold axis reaches: to the greatest lead of either team, and at
/// least to the floor.
pub open spec fn gold_reach(points: Seq<GoldPointV>) -> int
    decreases points.len(),
{
    if points.len() == 0 {
        GOLD_FLOOR as int
    } else {
        let before = gold_reach(points.drop_last());
        if size(points.last().lead) > before {
            size(points.last().lead)
        } else {
            before
        }
    }
}

/// How far the gold axis reaches to both sides.
pub fn gold_scale(points: &Vec<GoldPoint>) -> (r: u128)
    ensures
        r == gold_reach(scan::views(points@)),
{
    let ghost all = scan::views(points@);
    let mut most: u128 = GOLD_FLOOR;
    for i in 0..points.len()
        invariant
            all == scan::views(points@),
            most == gold_reach(all.take(i as int)),
    {
        proof {
            assert(all.take(i + 1).drop_last() =~= all.take(i as int));
            assert(all.take(i + 1).last() == points@[i as int]@);
        }
        let lead: i128 = points[i].lead;
        let here: u128 = if lead < 0 {
            (-(lead + 1)) as u128 + 1
        } else {
            lead as u128
        };
        if here > most {
            most = here;
        }
    }
    proof {
        assert(all.take(all.len() as int) =~= all);
    }
    most
}

/// No lead leaves the axis.
pub proof fn lemma_leads_are_on_the_axis(points: Seq<GoldPointV>, i: int)
    requires
        0 <= i < points.len(),
    ensures
        -gold_reach(points) <= points[i].lead <= gold_reach(points),
    decreases points.len(),
{
    if i < points.len() - 1 {
        lemma_leads_are_on_the_axis(points.drop_last(), i);
    }
}

// --- damage --------------------------------------------------------------------------

/// One bar of the damage chart.
#[derive(Debug)]
pub struct DamageRow {
    pub champion: String,
    pub damage: i32,
    /// Whether this is the tracked player.
    pub player: bool,
    /// Whether this is somebody of the tracked player's team.
    pub ally: bool,
}

/// The mathematical value of a [`DamageRow`].
pub struct DamageRowV {
    pub champion: Seq<char>,
    pub damage: int,
    pub player: bool,
    pub ally: bool,
}

impl View for DamageRow {
    type V = DamageRowV;

    open spec fn view(&self) -> DamageRowV {
        DamageRowV {
            champion: self.champion@,
            damage: self.damage as int,
            player: self.player,
            ally: self.ally,
        }
    }
}

/// Which team's bar it is, by which it is colored; the tracked player's own is
/// outlined besides.
#[derive(Debug, Clone, Copy, PartialEq, Eq, Structural)]
pub enum Tone {
    /// The tracked player's team.
    Ally,
    Enemy,
}

impl DamageRowV {
    /// Which team's bar it is.
    pub open spec fn side(self) -> Tone {
        if self.ally {
            Tone::Ally
        } else {
            Tone::Enemy
        }
    }
}

impl DamageRow {
    /// Which team's bar it is.
    pub fn tone(&self) -> (r: Tone)
        ensures
            r == self@.side(),
    {
        if self.ally {
            Tone::Ally
        } else {
            Tone::Enemy
        }
    }
}

/// The bar of a participant.
pub open spec fn bar(puuid: Seq<char>, team: u16) -> spec_fn(ParticipantV) -> DamageRowV {
    |p: ParticipantV|
        DamageRowV {
            champion: p.champion_name,
            damage: p.total_damage_dealt_to_champions as int,
            player: p.puuid == puuid,
            ally: p.team_id == team,
        }
}

/// The order of the bars, the smallest first.
pub open spec fn by_damage() -> spec_fn(DamageRowV, DamageRowV) -> bool {
    |a: DamageRowV, b: DamageRowV| a.damage < b.damage
}

struct ByDamage;

impl Order<DamageRow> for ByDamage {
    open spec fn lt(a: DamageRow, b: DamageRow) -> bool {
        a.damage < b.damage
    }

    fn before(a: &DamageRow, b: &DamageRow) -> (r: bool) {
        a.damage < b.damage
    }
}

/// Damage to champions across all players, ascending (the biggest bar on
/// top). `None` where the player takes no part.
pub fn damage_rows(game: &Game, puuid: &str) -> (r: Option<Vec<DamageRow>>)
    ensures
        match r {
            Some(rows) => game@.player(puuid@) matches Some(p) && scan::views(rows@)
                == seqs::sorted_by(
                game@.participants.map_values(bar(puuid@, p.team_id)),
                by_damage(),
            ),
            None => game@.player(puuid@) is None,
        },
{
    let team: u16 = match find_player(game, puuid) {
        Some(at) => game.participants[at].team_id,
        None => return None,
    };
    let ghost want = game@.participants.map_values(bar(puuid@, team));
    let mut rows: Vec<DamageRow> = Vec::new();
    for i in 0..game.participants.len()
        invariant
            want == game@.participants.map_values(bar(puuid@, team)),
            scan::views(rows@) =~= want.take(i as int),
    {
        let p: &Participant = &game.participants[i];
        let ghost before = rows@;
        rows.push(
            DamageRow {
                champion: p.champion_name.clone(),
                damage: p.total_damage_dealt_to_champions,
                player: same(p.puuid.as_str(), puuid),
                ally: p.team_id == team,
            },
        );
        proof {
            assert(scan::views(rows@) =~= scan::views(before).push(want[i as int]));
        }
    }
    proof {
        assert(want.take(want.len() as int) =~= want);
        let f = |x: DamageRow| x@;
        let lta = |a: DamageRow, b: DamageRow| ByDamage::lt(a, b);
        assert(forall|a: DamageRow, b: DamageRow| #[trigger]
            lta(a, b) == by_damage()(f(a), f(b)));
        seqs::lemma_sorted_map(rows@, f, lta, by_damage());
    }
    Some(sort::<DamageRow, ByDamage>(rows))
}

/// The largest damage, 1 at least: the scale of the chart.
pub open spec fn top_damage(rows: Seq<DamageRowV>) -> int
    decreases rows.len(),
{
    if rows.len() == 0 {
        1
    } else {
        let before = top_damage(rows.drop_last());
        if rows.last().damage > before {
            rows.last().damage
        } else {
            before
        }
    }
}

/// The largest damage, 1 at least: the scale of the chart.
pub fn max_damage(rows: &Vec<DamageRow>) -> (r: i32)
    ensures
        r == top_damage(scan::views(rows@)),
{
    let ghost all = scan::views(rows@);
    let mut most: i32 = 1;
    for i in 0..rows.len()
        invariant
            all == scan::views(rows@),
            most == top_damage(all.take(i as int)),
    {
        proof {
            assert(all.take(i + 1).drop_last() =~= all.take(i as int));
            assert(all.take(i + 1).last() == rows@[i as int]@);
        }
        if rows[i].damage > most {
            most = rows[i].damage;
        }
    }
    proof {
        assert(all.take(all.len() as int) =~= all);
    }
    most
}

// --- lobby ranking -----------------------------------------------------------------

/// Where the tracked player ranks in the lobby, 1 being the best.
#[derive(Debug, Clone, Copy, PartialEq, Eq, Structural)]
pub struct LobbyRanks {
    pub damage: usize,
    pub gold: usize,
    pub kda: usize,
    pub vision: usize,
}

/// Whether a participant dealt more damage than `me`.
pub open spec fn more_damage(me: ParticipantV) -> spec_fn(ParticipantV) -> bool {
    |p: ParticipantV| p.total_damage_dealt_to_champions > me.total_damage_dealt_to_champions
}

/// Whether a participant earned more gold than `me`.
pub open spec fn more_gold(me: ParticipantV) -> spec_fn(ParticipantV) -> bool {
    |p: ParticipantV| p.gold_earned > me.gold_earned
}

/// What the kills and assists of a participant are divided by.
pub open spec fn lives(p: ParticipantV) -> int {
    if p.deaths > 1 {
        p.deaths as int
    } else {
        1
    }
}

/// Whether a participant has a higher (kills + assists) / deaths than `me`.
pub open spec fn better_kda(me: ParticipantV) -> spec_fn(ParticipantV) -> bool {
    |p: ParticipantV| (p.kills + p.assists) * lives(me) > (me.kills + me.assists) * lives(p)
}

/// Whether a participant saw more than `me`.
pub open spec fn more_vision(me: ParticipantV) -> spec_fn(ParticipantV) -> bool {
    |p: ParticipantV| p.vision_score > me.vision_score
}

fn kda_above(p: &Participant, me: &Participant) -> (r: bool)
    ensures
        r == better_kda(me@)(p@),
{
    let mine: i128 = me.kills as i128 + me.assists as i128;
    let theirs: i128 = p.kills as i128 + p.assists as i128;
    let my_lives: i128 = if me.deaths > 1 {
        me.deaths as i128
    } else {
        1
    };
    let their_lives: i128 = if p.deaths > 1 {
        p.deaths as i128
    } else {
        1
    };
    proof {
        assert(-0x1_0000_0000 * 0x8000_0000 <= theirs * my_lives <= 0x1_0000_0000 * 0x8000_0000)
            by (nonlinear_arith)
            requires
                -0x1_0000_0000 <= theirs <= 0x1_0000_0000,
                1 <= my_lives <= 0x8000_0000,
        ;
        assert(-0x1_0000_0000 * 0x8000_0000 <= mine * their_lives <= 0x1_0000_0000 * 0x8000_0000)
            by (nonlinear_arith)
            requires
                -0x1_0000_0000 <= mine <= 0x1_0000_0000,
                1 <= their_lives <= 0x8000_0000,
        ;
    }
    theirs * my_lives > mine * their_lives
}

/// Where the tracked player ranks in the lobby across four metrics: one more
/// than the players who do better.
pub fn lobby_ranks(game: &Game, puuid: &str) -> (r: Option<LobbyRanks>)
    ensures
        match r {
            Some(k) => game@.player(puuid@) matches Some(me) && {
                &&& k.damage == 1 + seqs::count_where(game@.participants, more_damage(me))
                &&& k.gold == 1 + seqs::count_where(game@.participants, more_gold(me))
                &&& k.kda == 1 + seqs::count_where(game@.participants, better_kda(me))
                &&& k.vision == 1 + seqs::count_where(game@.participants, more_vision(me))
            },
            None => game@.player(puuid@) is None,
        },
{
    let at: usize = match find_player(game, puuid) {
        Some(at) => at,
        None => return None,
    };
    let parts: &Vec<Participant> = &game.participants;
    let me: &Participant = &parts[at];
    let n: usize = parts.len();
    proof {
        assert(scan::views(parts@).subrange(0, n as int) =~= game@.participants);
        lemma_not_above(game@.participants, at as int);
    }
    let damage = |p: &Participant| -> (b: bool)
        ensures
            b == more_damage(me@)(p@),
        { p.total_damage_dealt_to_champions > me.total_damage_dealt_to_champions };
    let gold = |p: &Participant| -> (b: bool)
        ensures
            b == more_gold(me@)(p@),
        { p.gold_earned > me.gold_earned };
    let kda = |p: &Participant| -> (b: bool)
        ensures
            b == better_kda(me@)(p@),
        { kda_above(p, me) };
    let vision = |p: &Participant| -> (b: bool)
        ensures
            b == more_vision(me@)(p@),
        { p.vision_score > me.vision_score };
    let a: usize = scan::count(parts, 0, n, damage, Ghost(more_damage(me@)));
    let b: usize = scan::count(parts, 0, n, gold, Ghost(more_gold(me@)));
    let c: usize = scan::count(parts, 0, n, kda, Ghost(better_kda(me@)));
    let d: usize = scan::count(parts, 0, n, vision, Ghost(more_vision(me@)));
    Some(LobbyRanks { damage: a + 1, gold: b + 1, kda: c + 1, vision: d + 1 })
}

/// How many of `s` satisfy `p`, when the one at `k` does not.
proof fn lemma_count_below<A>(s: Seq<A>, p: spec_fn(A) -> bool, k: int)
    requires
        0 <= k < s.len(),
        !p(s[k]),
    ensures
        seqs::count_where(s, p) < s.len(),
    decreases s.len(),
{
    if k == s.len() - 1 {
        lemma_count_bound(s.drop_last(), p);
    } else {
        assert(s.drop_last()[k] == s[k]);
        lemma_count_below(s.drop_last(), p, k);
    }
}

proof fn lemma_count_bound<A>(s: Seq<A>, p: spec_fn(A) -> bool)
    ensures
        seqs::count_where(s, p) <= s.len(),
    decreases s.len(),
{
    if s.len() > 0 {
        lemma_count_bound(s.drop_last(), p);
    }
}

/// Nobody is better than themselves.
proof fn lemma_not_above(parts: Seq<ParticipantV>, at: int)
    requires
        0 <= at < parts.len(),
    ensures
        seqs::count_where(parts, more_damage(parts[at])) < parts.len(),
        seqs::count_where(parts, more_gold(parts[at])) < parts.len(),
        seqs::count_where(parts, better_kda(parts[at])) < parts.len(),
        seqs::count_where(parts, more_vision(parts[at])) < parts.len(),
{
    lemma_count_below(parts, more_damage(parts[at]), at);
    lemma_count_below(parts, more_gold(parts[at]), at);
    lemma_count_below(parts, better_kda(parts[at]), at);
    lemma_count_below(parts, more_vision(parts[at]), at);
}

/// One bar of the lobby ranking.
#[derive(Debug)]
pub struct RankBar {
    /// The metric.
    pub label: &'static str,
    /// The player's place by it.
    pub place: usize,
    /// How many of the lobby they beat, which the bar shows.
    pub beaten: usize,
}

/// The mathematical value of a [`RankBar`].
pub struct RankBarV {
    pub label: Seq<char>,
    pub place: int,
    pub beaten: int,
}

impl View for RankBar {
    type V = RankBarV;

    open spec fn view(&self) -> RankBarV {
        RankBarV { label: self.label@, place: self.place as int, beaten: self.beaten as int }
    }
}

/// The bar of a metric in which `above` says who is better than the player.
pub open spec fn rank_bar(
    label: Seq<char>,
    parts: Seq<ParticipantV>,
    above: spec_fn(ParticipantV) -> bool,
) -> RankBarV {
    let place = 1 + seqs::count_where(parts, above) as int;
    RankBarV { label, place, beaten: parts.len() - place }
}

/// The bars of a player's lobby ranking.
pub open spec fn rank_bars(parts: Seq<ParticipantV>, me: ParticipantV) -> Seq<RankBarV> {
    seq![
        rank_bar("Damage"@, parts, more_damage(me)),
        rank_bar("Gold"@, parts, more_gold(me)),
        rank_bar("KDA"@, parts, better_kda(me)),
        rank_bar("Vision"@, parts, more_vision(me)),
    ]
}

/// Where the tracked player ranks in the lobby across four metrics.
pub fn ranking_bars(game: &Game, puuid: &str) -> (r: Option<Vec<RankBar>>)
    ensures
        match r {
            Some(bars) => game@.player(puuid@) matches Some(me) && scan::views(bars@) == rank_bars(
                game@.participants,
                me,
            ),
            None => game@.player(puuid@) is None,
        },
{
    let ranks: LobbyRanks = match lobby_ranks(game, puuid) {
        Some(ranks) => ranks,
        None => return None,
    };
    let total: usize = game.participants.len();
    proof {
        lemma_places_are_in_the_lobby(game@, puuid@);
    }
    let mut bars: Vec<RankBar> = Vec::new();
    bars.push(RankBar { label: "Damage", place: ranks.damage, beaten: total - ranks.damage });
    bars.push(RankBar { label: "Gold", place: ranks.gold, beaten: total - ranks.gold });
    bars.push(RankBar { label: "KDA", place: ranks.kda, beaten: total - ranks.kda });
    bars.push(RankBar { label: "Vision", place: ranks.vision, beaten: total - ranks.vision });
    proof {
        assert(scan::views(bars@) =~= rank_bars(game@.participants, game@.player(puuid@)->0));
    }
    Some(bars)
}

// --- laws --------------------------------------------------------------------------

/// A player's places in the lobby lie between first and last.
pub proof fn lemma_places_are_in_the_lobby(g: GameV, puuid: Seq<char>)
    requires
        g.player(puuid) is Some,
    ensures
        1 + seqs::count_where(g.participants, more_damage(g.player(puuid)->0))
            <= g.participants.len(),
        1 + seqs::count_where(g.participants, more_gold(g.player(puuid)->0))
            <= g.participants.len(),
        1 + seqs::count_where(g.participants, better_kda(g.player(puuid)->0))
            <= g.participants.len(),
        1 + seqs::count_where(g.participants, more_vision(g.player(puuid)->0))
            <= g.participants.len(),
{
    seqs::lemma_first_is(g.participants, game::is_player(puuid));
    lemma_not_above(
        g.participants,
        seqs::first_where(g.participants, game::is_player(puuid))->0,
    );
}

} // verus!
