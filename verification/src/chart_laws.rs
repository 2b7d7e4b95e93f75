//! What the archive keeps, what the charts show, and what the markers of an
//! archive become.

use vstd::prelude::*;

use crate::charts::{self, DamageRowV, GoldPointV};
use crate::game::ParticipantV;
use crate::import::{self, ArchivedV, BackfillV, SnapshotFileV};
use crate::json::Tree;
use crate::kinds::{AbandonedV, AttachedV, AttemptV, RankSeenV};
use crate::{archive, json, seqs, text, text_laws};

verus! {

// --- gold --------------------------------------------------------------------

/// What one team leads by, the other one trails by, as long as everybody in the
/// frame plays for one of the two.
pub proof fn lemma_leads_mirror(parts: Seq<ParticipantV>, a: u16, b: u16, frame: Tree)
    requires
        a != b,
        forall|i: int|
            0 <= i < frame.items_at("participants"@).len() ==> ({
                let team = charts::team_named(
                    parts,
                    (#[trigger] frame.items_at("participants"@)[i]).int_or_zero(
                        "participantId"@,
                    ) as i32,
                );
                team == Some(a) || team == Some(b)
            }),
    ensures
        charts::point_of(parts, a, frame).lead == -charts::point_of(parts, b, frame).lead,
{
    lemma_sums_mirror(parts, a, b, frame.items_at("participants"@));
}

proof fn lemma_sums_mirror(parts: Seq<ParticipantV>, a: u16, b: u16, items: Seq<Tree>)
    requires
        a != b,
        forall|i: int|
            0 <= i < items.len() ==> ({
                let team = charts::team_named(
                    parts,
                    (#[trigger] items[i]).int_or_zero("participantId"@) as i32,
                );
                team == Some(a) || team == Some(b)
            }),
    ensures
        seqs::sum_of(items, charts::gold_for(parts, a)) == -seqs::sum_of(
            items,
            charts::gold_for(parts, b),
        ),
    decreases items.len(),
{
    if items.len() > 0 {
        let fewer = items.drop_last();
        assert forall|i: int| 0 <= i < fewer.len() implies fewer[i] == #[trigger] items[i] by {}
        lemma_sums_mirror(parts, a, b, fewer);
        assert(items[items.len() - 1] == items.last());
    }
}

/// The gold of a teammate adds to the lead.
pub proof fn lemma_own_gold_leads(parts: Seq<ParticipantV>, team: u16, items: Seq<Tree>, one: Tree)
    requires
        charts::team_named(parts, one.int_or_zero("participantId"@) as i32) == Some(team),
    ensures
        seqs::sum_of(items.push(one), charts::gold_for(parts, team)) == seqs::sum_of(
            items,
            charts::gold_for(parts, team),
        ) + one.int_or_zero("totalGold"@),
{
    assert(items.push(one).drop_last() =~= items);
}

/// The gold axis reaches to 1500, or to the greatest lead beyond that.
pub proof fn lemma_gold_axis(points: Seq<GoldPointV>)
    ensures
        charts::gold_reach(points) >= 1_500,
        charts::gold_reach(points) == 1_500 || exists|i: int|
            0 <= i < points.len() && ((#[trigger] points[i]).lead == charts::gold_reach(points)
                || points[i].lead == -charts::gold_reach(points)),
    decreases points.len(),
{
    if points.len() > 0 {
        let fewer = points.drop_last();
        lemma_gold_axis(fewer);
        let r = charts::gold_reach(points);
        if r == charts::gold_reach(fewer) {
            if r != 1_500 {
                let i = choose|i: int|
                    0 <= i < fewer.len() && ((#[trigger] fewer[i]).lead == r || fewer[i].lead
                        == -r);
                assert(points[i] == fewer[i]);
            }
        } else {
            assert(points[points.len() - 1] == points.last());
        }
    }
}

// --- damage ------------------------------------------------------------------

/// The damage chart has a bar for everyone, their own damage, told apart by
/// whether they are the player and whether they play on the player's team; the
/// largest comes last.
pub proof fn lemma_damage_bars(parts: Seq<ParticipantV>, puuid: Seq<char>, team: u16)
    ensures
        ({
            let rows = seqs::sorted_by(
                parts.map_values(charts::bar(puuid, team)),
                charts::by_damage(),
            );
            &&& rows.len() == parts.len()
            &&& forall|i: int, j: int|
                0 <= i < j < rows.len() ==> (#[trigger] rows[i]).damage <= (
                #[trigger] rows[j]).damage
            &&& forall|i: int|
                0 <= i < parts.len() ==> rows.contains(
                    DamageRowV {
                        champion: (#[trigger] parts[i]).champion_name,
                        damage: parts[i].total_damage_dealt_to_champions as int,
                        player: parts[i].puuid == puuid,
                        ally: parts[i].team_id == team,
                    },
                )
        }),
{
    let bars = parts.map_values(charts::bar(puuid, team));
    let rows = seqs::sorted_by(bars, charts::by_damage());
    seqs::lemma_sorted_len(bars, charts::by_damage());
    seqs::lemma_sort_orders(bars, charts::by_damage());
    assert forall|i: int, j: int| 0 <= i < j < rows.len() implies (#[trigger] rows[i]).damage <= (
    #[trigger] rows[j]).damage by {
        assert(!charts::by_damage()(rows[j], rows[i]));
    }
    assert forall|i: int| 0 <= i < parts.len() implies rows.contains(
        DamageRowV {
            champion: (#[trigger] parts[i]).champion_name,
            damage: parts[i].total_damage_dealt_to_champions as int,
            player: parts[i].puuid == puuid,
            ally: parts[i].team_id == team,
        },
    ) by {
        seqs::lemma_sort_contains(bars, charts::by_damage(), bars[i]);
        assert(bars.contains(bars[i]));
    }
}

/// The scale of the damage chart is the largest damage, and one at least.
pub proof fn lemma_damage_scale(rows: Seq<DamageRowV>)
    ensures
        charts::top_damage(rows) >= 1,
        forall|i: int|
            0 <= i < rows.len() ==> (#[trigger] rows[i]).damage <= charts::top_damage(rows),
        charts::top_damage(rows) == 1 || exists|i: int|
            0 <= i < rows.len() && (#[trigger] rows[i]).damage == charts::top_damage(rows),
    decreases rows.len(),
{
    if rows.len() > 0 {
        let fewer = rows.drop_last();
        lemma_damage_scale(fewer);
        let top = charts::top_damage(rows);
        assert forall|i: int| 0 <= i < fewer.len() implies fewer[i] == #[trigger] rows[i] by {}
        assert(rows[rows.len() - 1] == rows.last());
        if top != 1 && top == charts::top_damage(fewer) {
            let i = choose|i: int| 0 <= i < fewer.len() && (#[trigger] fewer[i]).damage == top;
            assert(rows[i] == fewer[i]);
        }
    }
}

// --- places ------------------------------------------------------------------

proof fn lemma_fewer_above<A>(s: Seq<A>, p: spec_fn(A) -> bool, q: spec_fn(A) -> bool)
    requires
        forall|x: A| #[trigger] p(x) ==> q(x),
    ensures
        seqs::count_where(s, p) <= seqs::count_where(s, q),
        (exists|i: int| 0 <= i < s.len() && q(#[trigger] s[i]) && !p(s[i])) ==> seqs::count_where(
            s,
            p,
        ) < seqs::count_where(s, q),
    decreases s.len(),
{
    if s.len() > 0 {
        let t = s.drop_last();
        lemma_fewer_above(t, p, q);
        if exists|i: int| 0 <= i < s.len() && q(#[trigger] s[i]) && !p(s[i]) {
            let i = choose|i: int| 0 <= i < s.len() && q(#[trigger] s[i]) && !p(s[i]);
            if i < t.len() {
                assert(q(t[i]) && !p(t[i]));
            }
        }
    }
}

/// Whoever dealt more damage, earned more gold or saw more has the better place
/// for it.
pub proof fn lemma_better_players_place_higher(parts: Seq<ParticipantV>, a: int, b: int)
    requires
        0 <= a < parts.len(),
        0 <= b < parts.len(),
    ensures
        ({
            let up = charts::rank_bars(parts, parts[a]);
            let down = charts::rank_bars(parts, parts[b]);
            &&& up.len() == 4
            &&& up[0].label == "Damage"@
            &&& up[1].label == "Gold"@
            &&& up[2].label == "KDA"@
            &&& up[3].label == "Vision"@
            &&& parts[a].total_damage_dealt_to_champions > parts[b].total_damage_dealt_to_champions
                ==> up[0].place < down[0].place
            &&& parts[a].gold_earned > parts[b].gold_earned ==> up[1].place < down[1].place
            &&& parts[a].vision_score > parts[b].vision_score ==> up[3].place < down[3].place
            &&& forall|i: int|
                0 <= i < 4 ==> (#[trigger] up[i]).place >= 1 && up[i].beaten == parts.len()
                    - up[i].place
        }),
{
    let x = parts[a];
    let y = parts[b];
    if x.total_damage_dealt_to_champions > y.total_damage_dealt_to_champions {
        let p = charts::more_damage(x);
        let q = charts::more_damage(y);
        assert(q(parts[a]) && !p(parts[a]));
        lemma_fewer_above(parts, p, q);
    }
    if x.gold_earned > y.gold_earned {
        let p = charts::more_gold(x);
        let q = charts::more_gold(y);
        assert(q(parts[a]) && !p(parts[a]));
        lemma_fewer_above(parts, p, q);
    }
    if x.vision_score > y.vision_score {
        let p = charts::more_vision(x);
        let q = charts::more_vision(y);
        assert(q(parts[a]) && !p(parts[a]));
        lemma_fewer_above(parts, p, q);
    }
}

/// The place for kills and assists goes by how many there were for each death:
/// with the same deaths, more of them is a better place.
pub proof fn lemma_kda_places(parts: Seq<ParticipantV>, a: int, b: int)
    requires
        0 <= a < parts.len(),
        0 <= b < parts.len(),
        parts[a].deaths == parts[b].deaths,
        parts[a].kills + parts[a].assists > parts[b].kills + parts[b].assists,
    ensures
        charts::rank_bars(parts, parts[a])[2].place < charts::rank_bars(parts, parts[b])[2].place,
{
    let x = parts[a];
    let y = parts[b];
    let p = charts::better_kda(x);
    let q = charts::better_kda(y);
    let lives = charts::lives(x);
    let more = x.kills + x.assists;
    let less = y.kills + y.assists;
    assert forall|z: ParticipantV| #[trigger] p(z) implies q(z) by {
        let own = charts::lives(z);
        assert(more * own > less * own) by (nonlinear_arith)
            requires
                more > less,
                own >= 1,
        ;
    }
    assert(more * lives > less * lives) by (nonlinear_arith)
        requires
            more > less,
            lives >= 1,
    ;
    assert(q(parts[a]) && !p(parts[a]));
    lemma_fewer_above(parts, p, q);
}

// --- the archive -------------------------------------------------------------

/// Every event of every frame is archived, in order.
pub proof fn lemma_every_event_is_archived(frames: Seq<Tree>, i: int, j: int)
    requires
        0 <= i < frames.len(),
        0 <= j < frames[i].items_at("events"@).len(),
    ensures
        archive::events_of(frames).contains(frames[i].items_at("events"@)[j]),
    decreases frames.len(),
{
    let fewer = frames.drop_last();
    let before = archive::events_of(fewer);
    let own = frames.last().items_at("events"@);
    let all = archive::events_of(frames);
    let e = frames[i].items_at("events"@)[j];
    if i < fewer.len() {
        assert(fewer[i] == frames[i]);
        lemma_every_event_is_archived(fewer, i, j);
        let k = choose|k: int| 0 <= k < before.len() && before[k] == e;
        assert(all[k] == e);
    } else {
        assert(all[before.len() + j] == e);
    }
}

/// A slim frame keeps where a player stood and what they had: their gold,
/// level, experience and minions.
pub proof fn lemma_slim_frames_keep_the_economy(pf: Tree, key: Seq<char>)
    requires
        key == "jungleMinionsKilled"@ || key == "level"@ || key == "minionsKilled"@ || key
            == "participantId"@ || key == "position"@ || key == "totalGold"@ || key == "xp"@,
        pf.get(key) is Some,
    ensures
        archive::slim_tree(pf).get(key) == pf.get(key),
{
    reveal_strlit("jungleMinionsKilled");
    reveal_strlit("level");
    reveal_strlit("minionsKilled");
    reveal_strlit("participantId");
    reveal_strlit("position");
    reveal_strlit("totalGold");
    reveal_strlit("xp");
    assert("jungleMinionsKilled"@.len() == 19);
    assert("level"@.len() == 5);
    assert("minionsKilled"@.len() == 13 && "minionsKilled"@[0] == 'm');
    assert("participantId"@.len() == 13 && "participantId"@[0] == 'p');
    assert("position"@.len() == 8);
    assert("totalGold"@.len() == 9);
    assert("xp"@.len() == 2);
    let m = archive::slim_tree(pf)->Obj_0;
    let named = json::called(key);
    seqs::lemma_first_is(m, named);
    assert(named(m[0]) || named(m[1]) || named(m[2]) || named(m[3]) || named(m[4]) || named(m[5])
        || named(m[6]));
}

// --- the import --------------------------------------------------------------

/// An archived game whose clips are done ends its jobs: attached where a clip
/// is there, abandoned where none is. One whose clips are not done ends
/// nothing.
pub proof fn lemma_imported_endings(g: ArchivedV, game_id: u64)
    ensures
        !g.clips_done ==> import::ending_of(g, game_id).len() == 0,
        g.clips_done && (g.highlight || g.lowlight) ==> import::ending_of(g, game_id) == seq![
            BackfillV::Attached(AttachedV { platform: g.platform, game_id, riot_id: None }),
        ],
        g.clips_done && !g.highlight && !g.lowlight ==> import::ending_of(g, game_id) == seq![
            BackfillV::Abandoned(
                AbandonedV {
                    platform: g.platform,
                    game_id,
                    tries: import::tries_of(g),
                    riot_id: None,
                },
            ),
        ],
{
}

/// The tries that were noted become an attempt of that number.
pub proof fn lemma_imported_tries(g: ArchivedV, game_id: u64, n: u32)
    requires
        g.tries == Some(text::digits(n as nat)),
        text::trimmed(text::digits(n as nat)) == text::digits(n as nat),
    ensures
        n > 0 ==> import::attempts_of(g, game_id) == seq![
            BackfillV::Attempt(
                AttemptV { platform: g.platform, game_id, try_number: n, riot_id: None },
            ),
        ],
        n == 0 ==> import::attempts_of(g, game_id).len() == 0,
{
    text::lemma_digits_read_back(n as nat, u32::MAX as nat);
}

/// A snapshot file is named by the player's PUUID and the queue, and its
/// standing becomes their baseline there.
pub proof fn lemma_imported_baselines(
    puuid: Seq<char>,
    queue_id: u32,
    value: i32,
    label: Seq<char>,
    lp: i32,
)
    ensures
        import::baseline_of(
            SnapshotFileV {
                stem: puuid + seq!['_'] + text::digits(queue_id as nat),
                snapshot: Some((value, label, lp)),
            },
        ) == Some(
            RankSeenV { puuid, riot_id: seq![], queue_id, ladder_value: value, label, lp },
        ),
{
    let d = text::digits(queue_id as nat);
    text::lemma_digits_read_back(queue_id as nat, u32::MAX as nat);
    lemma_only_digits(queue_id as nat);
    text_laws::lemma_rcut_once(puuid, '_', d);
}

proof fn lemma_only_digits(n: nat)
    ensures
        !text::digits(n).contains('_'),
    decreases n,
{
    let d = text::digits(n);
    if d.contains('_') {
        let i = choose|i: int| 0 <= i < d.len() && d[i] == '_';
        if n >= 10 {
            lemma_only_digits(n / 10);
            let front = text::digits(n / 10);
            assert(d =~= front.push(text::digit(n % 10)));
            if i < front.len() {
                assert(front[i] == '_');
                assert(front.contains('_'));
            }
        }
    }
}

/// A slim frame lists its players by their numbers, every one of them.
pub proof fn lemma_slim_frames_list_players(frame: Tree, m: Seq<(Seq<char>, Tree)>)
    requires
        frame.get("participantFrames"@) == Some(Tree::Obj(m)),
    ensures
        ({
            let players = archive::players_of(frame);
            &&& players.len() == m.len()
            &&& forall|i: int|
                0 <= i < m.len() ==> players.contains(archive::slim_tree((#[trigger] m[i]).1))
            &&& forall|i: int, j: int|
                0 <= i < j < players.len() ==> (#[trigger] players[i]).int_or_zero(
                    "participantId"@,
                ) <= (#[trigger] players[j]).int_or_zero("participantId"@)
        }),
{
    let all = archive::slim_all(m);
    let lt = archive::by_participant();
    let players = archive::players_of(frame);
    seqs::lemma_sorted_len(all, lt);
    seqs::lemma_sort_orders(all, lt);
    assert forall|i: int| 0 <= i < m.len() implies players.contains(
        archive::slim_tree((#[trigger] m[i]).1),
    ) by {
        seqs::lemma_sort_contains(all, lt, all[i]);
        assert(all.contains(all[i]));
    }
    assert forall|i: int, j: int| 0 <= i < j < players.len() implies (
    #[trigger] players[i]).int_or_zero("participantId"@) <= (#[trigger] players[j]).int_or_zero(
        "participantId"@,
    ) by {
        assert(!lt(players[j], players[i]));
    }
}

} // verus!
