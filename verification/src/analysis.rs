//! The analysis of a match from its raw event stream: where its kills
//! happened, and with that its moments, its clip candidates and its picks.

use vstd::prelude::*;
use vstd::string::*;

use crate::candidates::Candidate;
use crate::game::{team_by_participant, Game, GameV};
use crate::json::{Number, NumberTree};
use crate::moments::{moments_of, Moment};
use crate::picks::{assign, candidates_of};
use crate::text::decimal;
use crate::timeline::{parse_timeline, KillEv, KillV, TimelineV};
use crate::{candidates, highlights, moments, picks, scan, text, timeline};

verus! {

/// A death is "traded" if an allied kill lands within this many units of it.
pub const TRADE_RADIUS: i64 = 2_000;

/// Whole numbers up to this far from zero are exact as coordinates.
pub const FARTHEST: i64 = 9_007_199_254_740_992;

/// Why a match cannot be analyzed.
#[derive(Debug, Clone, Copy, PartialEq, Eq, Structural)]
pub enum AnalysisError {
    /// A damage sum, a gold sum or a score leaves 64 bits.
    OutOfRange,
}

// --- where kills happened ----------------------------------------------------

/// A coordinate, where it is a whole number.
pub open spec fn whole(n: NumberTree) -> Option<i64> {
    match n {
        NumberTree::Int(n) => if -FARTHEST <= n <= FARTHEST {
            Some(n)
        } else {
            None
        },
        NumberTree::Real(_) => None,
    }
}

/// Where a kill happened, where its coordinates are whole numbers.
pub open spec fn place(k: KillV) -> Option<(i64, i64)> {
    match (whole(k.x), whole(k.y)) {
        (Some(x), Some(y)) => Some((x, y)),
        _ => None,
    }
}

/// Whether two places are within the trade radius of each other.
pub open spec fn within(a: (i64, i64), b: (i64, i64)) -> bool {
    (a.0 - b.0) * (a.0 - b.0) + (a.1 - b.1) * (a.1 - b.1) <= TRADE_RADIUS * TRADE_RADIUS
}

/// What was measured of the kills of a timeline, in their order. It counts where
/// coordinates are no whole numbers: those are floating point, which is measured
/// outside and taken as it is told.
#[derive(Debug)]
pub struct Measured {
    /// Whether kill `j` lies within the trade radius of kill `i`.
    pub near: Vec<Vec<bool>>,
    /// Where each kill happened, as `(x,y)`.
    pub spots: Vec<String>,
}

/// The mathematical value of [`Measured`].
pub struct MeasuredV {
    pub near: Seq<Seq<bool>>,
    pub spots: Seq<Seq<char>>,
}

impl View for Measured {
    type V = MeasuredV;

    open spec fn view(&self) -> MeasuredV {
        MeasuredV { near: scan::views(self.near@), spots: text::texts(self.spots@) }
    }
}

impl MeasuredV {
    /// Whether kill `j` was measured to lie within the trade radius of kill `i`.
    pub open spec fn close(self, i: int, j: int) -> bool {
        candidates::close(highlights::row(self.near, i), j)
    }
}

/// Whether kill `j` lies within the trade radius of kill `i`.
pub open spec fn is_near(kills: Seq<KillV>, m: MeasuredV, i: int, j: int) -> bool {
    match (place(kills[i]), place(kills[j])) {
        (Some(a), Some(b)) => within(a, b),
        _ => m.close(i, j),
    }
}

/// Which of the kills are within the trade radius of kill `i`.
pub open spec fn near_row(kills: Seq<KillV>, m: MeasuredV, i: int) -> Seq<bool> {
    Seq::new(kills.len(), |j: int| is_near(kills, m, i, j))
}

/// Which kills are within the trade radius of which.
pub open spec fn nearness(kills: Seq<KillV>, m: MeasuredV) -> Seq<Seq<bool>> {
    Seq::new(kills.len(), |i: int| near_row(kills, m, i))
}

/// A place as `(x,y)`.
pub open spec fn spot_text(a: (i64, i64)) -> Seq<char> {
    "("@ + text::dec(a.0 as int) + ","@ + text::dec(a.1 as int) + ")"@
}

/// Where kill `i` happened, as `(x,y)`.
pub open spec fn spot_of(kills: Seq<KillV>, m: MeasuredV, i: int) -> Seq<char> {
    match place(kills[i]) {
        Some(a) => spot_text(a),
        None => moments::spot(m.spots, i),
    }
}

/// Where the kills happened, as `(x,y)`.
pub open spec fn spots(kills: Seq<KillV>, m: MeasuredV) -> Seq<Seq<char>> {
    Seq::new(kills.len(), |i: int| spot_of(kills, m, i))
}

fn whole_number(n: &Number) -> (r: Option<i64>)
    ensures
        r == whole(n@),
{
    match n {
        Number::Int(n) => if -FARTHEST <= *n && *n <= FARTHEST {
            Some(*n)
        } else {
            None
        },
        Number::Real(_) => None,
    }
}

fn place_of(k: &KillEv) -> (r: Option<(i64, i64)>)
    ensures
        r == place(k@),
{
    match (whole_number(&k.x), whole_number(&k.y)) {
        (Some(x), Some(y)) => Some((x, y)),
        _ => None,
    }
}

proof fn lemma_far_apart(d: int, e: int, r: int)
    by (nonlinear_arith)
    requires
        r >= 0,
        d > r || d < -r,
    ensures
        d * d + e * e > r * r,
{
}

proof fn lemma_small_squares(d: int)
    by (nonlinear_arith)
    requires
        -2_000 <= d <= 2_000,
    ensures
        0 <= d * d <= 4_000_000,
{
}

/// Whether two places are within the trade radius of each other.
pub fn is_within(a: (i64, i64), b: (i64, i64)) -> (r: bool)
    ensures
        r == within(a, b),
{
    let dx: i128 = a.0 as i128 - b.0 as i128;
    let dy: i128 = a.1 as i128 - b.1 as i128;
    let reach: i128 = TRADE_RADIUS as i128;
    if dx > reach || dx < -reach {
        proof {
            lemma_far_apart(dx as int, dy as int, reach as int);
        }
        false
    } else if dy > reach || dy < -reach {
        proof {
            lemma_far_apart(dy as int, dx as int, reach as int);
        }
        false
    } else {
        proof {
            lemma_small_squares(dx as int);
            lemma_small_squares(dy as int);
        }
        dx * dx + dy * dy <= reach * reach
    }
}

/// The place of each kill, where its coordinates are whole numbers.
fn places_of(kills: &Vec<KillEv>) -> (r: Vec<Option<(i64, i64)>>)
    ensures
        r@ == scan::views(kills@).map_values(|k: KillV| place(k)),
{
    let ghost want = scan::views(kills@).map_values(|k: KillV| place(k));
    let mut out: Vec<Option<(i64, i64)>> = Vec::new();
    for i in 0..kills.len()
        invariant
            want == scan::views(kills@).map_values(|k: KillV| place(k)),
            out@ =~= want.take(i as int),
    {
        out.push(place_of(&kills[i]));
    }
    out
}

fn row_of(
    at: &Vec<Option<(i64, i64)>>,
    measured: &Measured,
    i: usize,
    Ghost(kills): Ghost<Seq<KillV>>,
) -> (r: Vec<bool>)
    requires
        at@ == kills.map_values(|k: KillV| place(k)),
        i < at@.len(),
    ensures
        r@ == near_row(kills, measured@, i as int),
{
    let nowhere: Vec<bool> = Vec::new();
    let told: &Vec<bool> = if i < measured.near.len() {
        &measured.near[i]
    } else {
        &nowhere
    };
    proof {
        assert(told@ =~= highlights::row(measured@.near, i as int));
    }
    let mut row: Vec<bool> = Vec::new();
    for j in 0..at.len()
        invariant
            at@ == kills.map_values(|k: KillV| place(k)),
            i < at@.len(),
            told@ == highlights::row(measured@.near, i as int),
            row@ =~= near_row(kills, measured@, i as int).take(j as int),
    {
        let near: bool = match (at[i], at[j]) {
            (Some(a), Some(b)) => is_within(a, b),
            _ => j < told.len() && told[j],
        };
        row.push(near);
        proof {
            assert(near == is_near(kills, measured@, i as int, j as int));
        }
    }
    row
}

/// Which kills are within the trade radius of which, and where each of them
/// happened.
pub fn grounds(kills: &Vec<KillEv>, measured: &Measured) -> (r: (Vec<Vec<bool>>, Vec<String>))
    ensures
        scan::views(r.0@) == nearness(scan::views(kills@), measured@),
        text::texts(r.1@) == spots(scan::views(kills@), measured@),
{
    let ghost all = scan::views(kills@);
    let at: Vec<Option<(i64, i64)>> = places_of(kills);
    let mut near: Vec<Vec<bool>> = Vec::new();
    let mut texts: Vec<String> = Vec::new();
    for i in 0..at.len()
        invariant
            all == scan::views(kills@),
            at@ == all.map_values(|k: KillV| place(k)),
            scan::views(near@) =~= nearness(all, measured@).take(i as int),
            text::texts(texts@) =~= spots(all, measured@).take(i as int),
    {
        let ghost rows = near@;
        let ghost written = texts@;
        let row: Vec<bool> = row_of(&at, measured, i, Ghost(all));
        let spot: String = match at[i] {
            Some((x, y)) => "(".to_string().concat(decimal(x as i128).as_str()).concat(
                ",",
            ).concat(decimal(y as i128).as_str()).concat(")"),
            None => if i < measured.spots.len() {
                measured.spots[i].clone()
            } else {
                "".to_string()
            },
        };
        near.push(row);
        texts.push(spot);
        proof {
            assert(spot@ == spot_of(all, measured@, i as int));
            assert(scan::views(near@) =~= scan::views(rows).push(row@));
            assert(text::texts(texts@) =~= text::texts(written).push(spot@));
        }
    }
    (near, texts)
}

/// Of two kills at whole coordinates, each is near the other exactly if the
/// other is near it, and every one is near itself.
pub proof fn lemma_nearness_is_symmetric(kills: Seq<KillV>, m: MeasuredV, i: int, j: int)
    requires
        0 <= i < kills.len(),
        0 <= j < kills.len(),
        place(kills[i]) is Some,
        place(kills[j]) is Some,
    ensures
        nearness(kills, m)[i][j] == nearness(kills, m)[j][i],
        nearness(kills, m)[i][i],
{
    let (a, b) = (place(kills[i])->Some_0, place(kills[j])->Some_0);
    assert((a.0 - b.0) * (a.0 - b.0) == (b.0 - a.0) * (b.0 - a.0)) by (nonlinear_arith);
    assert((a.1 - b.1) * (a.1 - b.1) == (b.1 - a.1) * (b.1 - a.1)) by (nonlinear_arith);
    assert(within(a, b) == within(b, a));
    assert(within(a, a)) by {
        assert((a.0 - a.0) * (a.0 - a.0) + (a.1 - a.1) * (a.1 - a.1) == 0) by (nonlinear_arith);
    }
}

/// What was measured does not count where coordinates are whole numbers.
pub proof fn lemma_whole_places_need_no_measuring(kills: Seq<KillV>, m: MeasuredV, other: MeasuredV)
    requires
        forall|i: int| 0 <= i < kills.len() ==> place(#[trigger] kills[i]) is Some,
    ensures
        nearness(kills, m) == nearness(kills, other),
        spots(kills, m) == spots(kills, other),
{
    assert forall|i: int| 0 <= i < kills.len() implies near_row(kills, m, i) == near_row(
        kills,
        other,
        i,
    ) by {
        assert(near_row(kills, m, i) =~= near_row(kills, other, i)) by {
            assert(place(kills[i]) is Some);
        }
    }
    assert(nearness(kills, m) =~= nearness(kills, other));
    assert(spots(kills, m) =~= spots(kills, other));
}

// --- from the event stream ---------------------------------------------------

/// The timeline of a match by its raw event stream; nothing where the damage
/// sums of a kill leave 64 bits.
pub open spec fn reading(game: GameV, events_jsonl: Seq<char>) -> Option<TimelineV> {
    timeline::timeline_from(
        timeline::line_events(text::line_texts(events_jsonl)),
        game.roster(),
    )
}

/// Analyzes `events_jsonl` (one timeline event per line) against the match,
/// centered on the player with `puuid`, returning moments in chronological
/// order.
pub fn analyze(game: &Game, events_jsonl: &str, puuid: &str, measured: &Measured) -> (r: Result<
    Vec<Moment>,
    AnalysisError,
>)
    ensures
        match reading(game@, events_jsonl@) {
            Some(tl) => r matches Ok(v) && scan::views(v@) == moments::analysis(
                game@,
                tl,
                nearness(tl.kills, measured@),
                spots(tl.kills, measured@),
                puuid@,
            ),
            None => r matches Err(AnalysisError::OutOfRange),
        },
{
    match parse_timeline(events_jsonl, &team_by_participant(game)) {
        None => Err(AnalysisError::OutOfRange),
        Some(tl) => {
            let (near, spots) = grounds(&tl.kills, measured);
            Ok(moments_of(game, &tl, &near, &spots, puuid))
        },
    }
}

/// Computes the ranked Highlight and Lowlight clip candidates for the centered
/// player, each an exact-timestamp anchor.
pub fn clip_candidates(game: &Game, events_jsonl: &str, puuid: &str, measured: &Measured) -> (r:
    Result<(Vec<Candidate>, Vec<Candidate>), AnalysisError>)
    ensures
        match reading(game@, events_jsonl@) {
            Some(tl) => match picks::clips_of(game@, tl, nearness(tl.kills, measured@), puuid@) {
                Some(clips) => r matches Ok(v) && (scan::views(v.0@), scan::views(v.1@)) == clips,
                None => r matches Err(AnalysisError::OutOfRange),
            },
            None => r matches Err(AnalysisError::OutOfRange),
        },
{
    match parse_timeline(events_jsonl, &team_by_participant(game)) {
        None => Err(AnalysisError::OutOfRange),
        Some(tl) => {
            let (near, _) = grounds(&tl.kills, measured);
            match candidates_of(game, &tl, &near, puuid) {
                Some(clips) => Ok(clips),
                None => Err(AnalysisError::OutOfRange),
            }
        },
    }
}

/// Jointly assigns every tracked player in the game their Highlight and
/// Lowlight picks, spreading picks across distinct moments.
pub fn assign_picks(
    game: &Game,
    events_jsonl: &str,
    tracked_puuids: &Vec<String>,
    measured: &Measured,
) -> (r: Result<Vec<(String, Option<Candidate>, Option<Candidate>)>, AnalysisError>)
    ensures
        match reading(game@, events_jsonl@) {
            Some(tl) => match picks::joint_picks(
                game@,
                tl,
                nearness(tl.kills, measured@),
                text::texts(tracked_puuids@),
            ) {
                Some(all) => r matches Ok(v) && picks::picks_view(v@) == all,
                None => r matches Err(AnalysisError::OutOfRange),
            },
            None => r matches Err(AnalysisError::OutOfRange),
        },
{
    match parse_timeline(events_jsonl, &team_by_participant(game)) {
        None => Err(AnalysisError::OutOfRange),
        Some(tl) => {
            let (near, _) = grounds(&tl.kills, measured);
            match assign(game, &tl, &near, tracked_puuids) {
                Some(all) => Ok(all),
                None => Err(AnalysisError::OutOfRange),
            }
        },
    }
}

} // verus!
