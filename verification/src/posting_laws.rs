//! What a post shows: the player's own line of the game, the result, the LP
//! change, and the two moments.

use vstd::prelude::*;

use crate::candidates::CandidateV;
use crate::discord::{self, ClipV, RatesV, SceneV};
use crate::game::{self, GameV, ParticipantV};
use crate::journal::ProjectionV;
use crate::json::Tree;
use crate::kinds::{self, ClipPickV, PicksV};
use crate::moments::{MomentKind, MomentV};
use crate::post::{self, LpSourceV};
use crate::rank::{self, RankV};
use crate::record::{self, MatchRecordV};
use crate::stats::{self, ContextV, SummaryV};
use crate::timeline::TimelineV;
use crate::{picks, report, seqs, summary, text, text_laws};

verus! {

// --- who is who in a game ----------------------------------------------------

/// A player is the first participant with their PUUID, and there is none
/// without one.
pub proof fn lemma_player(g: GameV, puuid: Seq<char>)
    ensures
        match g.player(puuid) {
            Some(p) => p.puuid == puuid && g.participants.contains(p),
            None => forall|i: int|
                0 <= i < g.participants.len() ==> (#[trigger] g.participants[i]).puuid != puuid,
        },
{
    let p = game::is_player(puuid);
    seqs::lemma_first_is(g.participants, p);
    if let Some(i) = seqs::first_where(g.participants, p) {
        assert(p(g.participants[i]));
    } else {
        assert forall|i: int| 0 <= i < g.participants.len() implies (
        #[trigger] g.participants[i]).puuid != puuid by {
            assert(!p(g.participants[i]));
        }
    }
}

/// A participant goes by the name of their champion; a number that nobody has
/// is an enemy.
pub proof fn lemma_champion(g: GameV, id: i32)
    ensures
        forall|i: int|
            0 <= i < g.participants.len() && (#[trigger] g.participants[i]).participant_id == id
                && (forall|j: int|
                0 <= j < i ==> (#[trigger] g.participants[j]).participant_id != id) ==> g.champion(
                id,
            ) == g.participants[i].champion_name,
        (forall|i: int|
            0 <= i < g.participants.len() ==> (#[trigger] g.participants[i]).participant_id != id)
            ==> g.champion(id) == "an enemy"@,
{
    let p = game::has_number(id);
    seqs::lemma_first_is(g.participants, p);
    assert forall|i: int| 0 <= i < g.participants.len() implies p(#[trigger] g.participants[i]) == (
    g.participants[i].participant_id == id) by {}
    assert forall|i: int|
        0 <= i < g.participants.len() && (#[trigger] g.participants[i]).participant_id == id && (
        forall|j: int|
            0 <= j < i ==> (#[trigger] g.participants[j]).participant_id != id) implies g.champion(
        id,
    ) == g.participants[i].champion_name by {
        assert(p(g.participants[i]));
        let k = seqs::first_where(g.participants, p)->Some_0;
        if k < i {
            assert(g.participants[k].participant_id != id);
        }
        if i < k {
            assert(!p(g.participants[i]));
        }
    }
}

/// Whether a participant has this name and this tag, in whatever case.
pub open spec fn is_called(p: ParticipantV, name: Seq<char>, tag: Seq<char>) -> bool {
    &&& p.riot_id_game_name is Some
    &&& p.riot_id_tagline is Some
    &&& text::ascii_lowered(p.riot_id_game_name->Some_0) == text::ascii_lowered(name)
    &&& text::ascii_lowered(p.riot_id_tagline->Some_0) == text::ascii_lowered(tag)
}

/// Who goes by a Riot ID is told by name and tag, in whatever case.
pub proof fn lemma_riot_ids_name_players(g: GameV, name: Seq<char>, tag: Seq<char>)
    requires
        !name.contains('#'),
    ensures
        match g.puuid_of(name + seq!['#'] + tag) {
            Some(puuid) => exists|i: int|
                0 <= i < g.participants.len() && (#[trigger] g.participants[i]).puuid == puuid
                    && is_called(g.participants[i], name, tag),
            None => forall|i: int|
                0 <= i < g.participants.len() ==> !is_called(
                    #[trigger] g.participants[i],
                    name,
                    tag,
                ),
        },
{
    text_laws::lemma_cut_once(name, '#', tag);
    let p = game::goes_by(name, tag);
    seqs::lemma_first_is(g.participants, p);
    if let Some(i) = seqs::first_where(g.participants, p) {
        assert(p(g.participants[i]));
        assert(g.puuid_of(name + seq!['#'] + tag) == Some(g.participants[i].puuid));
    } else {
        assert forall|i: int| 0 <= i < g.participants.len() implies !is_called(
            #[trigger] g.participants[i],
            name,
            tag,
        ) by {
            assert(!p(g.participants[i]));
        }
    }
}

// --- the player's line -------------------------------------------------------

/// A summary tells the player's own numbers of the game: their kills, deaths
/// and assists, all the minions they killed, and their damage, gold and vision.
pub proof fn lemma_summary_numbers(
    g: GameV,
    p: ParticipantV,
    ctx: ContextV,
    number: Option<i32>,
    title: Option<Seq<char>>,
)
    requires
        i32::MIN <= p.total_minions_killed + p.neutral_minions_killed <= i32::MAX,
    ensures
        ({
            let s = stats::summary_of(g, p, ctx, number, title);
            &&& s.win == p.win
            &&& s.kills == p.kills
            &&& s.deaths == p.deaths
            &&& s.assists == p.assists
            &&& s.cs == p.total_minions_killed + p.neutral_minions_killed
            &&& s.damage_to_champions == p.total_damage_dealt_to_champions
            &&& s.gold == p.gold_earned
            &&& s.vision.vision_score == p.vision_score
            &&& s.vision.wards_placed == p.wards_placed
            &&& s.vision.wards_killed == p.wards_killed
            &&& s.vision.control_wards_bought == p.vision_wards_bought_in_game
            &&& s.started_at_secs == g.started_at_secs
            &&& s.duration_secs == g.game_duration
            &&& s.rank is None
        }),
{
}

/// A summary names the player and the champion: by the record's own name and
/// tag where it has them, and by the given ones otherwise; by the champion's
/// title where it is known, and by the record's name of it otherwise.
pub proof fn lemma_summary_names(
    g: GameV,
    p: ParticipantV,
    ctx: ContextV,
    number: Option<i32>,
    title: Option<Seq<char>>,
    name: Seq<char>,
    tag: Seq<char>,
)
    requires
        name.len() > 0,
        tag.len() > 0,
    ensures
        ({
            let s = stats::summary_of(g, p, ctx, number, title);
            &&& p.riot_id_game_name == Some(name) && p.riot_id_tagline == Some(tag) ==> s.player
                == name + " #"@ + tag
            &&& p.riot_id_game_name is None && p.riot_id_tagline is None ==> s.player
                == ctx.fallback_name + " #"@ + ctx.fallback_tag
            &&& title matches Some(t) ==> s.champion == t
            &&& title is None ==> s.champion == p.champion_name
            &&& p.team_id == 100 ==> s.side == "Blue"@
            &&& p.team_id == 200 ==> s.side == "Red"@
        }),
{
}

/// The queues that have names, and those that have a ladder.
pub proof fn lemma_queues(queue_id: u16)
    ensures
        queue_id == 420 ==> stats::queue_title(queue_id) == "Ranked Solo"@ && rank::ladder_of(
            queue_id,
        ) == Some("RANKED_SOLO_5x5"@),
        queue_id == 440 ==> stats::queue_title(queue_id) == "Ranked Flex"@ && rank::ladder_of(
            queue_id,
        ) == Some("RANKED_FLEX_SR"@),
        queue_id == 710 ==> stats::queue_title(queue_id) == "Ranked 5v5"@ && rank::ladder_of(
            queue_id,
        ) == Some("RANKED_PREMADE_5x5"@),
        queue_id == 400 ==> stats::queue_title(queue_id) == "Normal Draft"@,
        queue_id == 430 ==> stats::queue_title(queue_id) == "Normal Blind"@,
        queue_id == 450 ==> stats::queue_title(queue_id) == "ARAM"@,
        queue_id != 420 && queue_id != 440 && queue_id != 710 ==> rank::ladder_of(queue_id) is None,
{
}

// --- the message -------------------------------------------------------------

proof fn lemma_parts()
    ensures
        forall|x: Seq<char>| #[trigger] text::holds(x, x),
        forall|a: Seq<char>, b: Seq<char>, x: Seq<char>|
            text::holds(a, x) || text::holds(b, x) ==> #[trigger] text::holds(a + b, x),
{
    assert forall|x: Seq<char>| #[trigger] text::holds(x, x) by {
        assert(x.subrange(0, 0 + x.len() as int) =~= x);
    }
    assert forall|a: Seq<char>, b: Seq<char>, x: Seq<char>|
        text::holds(a, x) || text::holds(b, x) implies #[trigger] text::holds(a + b, x) by {
        let c = a + b;
        if text::holds(a, x) {
            let i = choose|i: int|
                0 <= i && i + x.len() <= a.len() && #[trigger] a.subrange(i, i + x.len()) == x;
            assert(c.subrange(i, i + x.len()) =~= a.subrange(i, i + x.len()));
        } else {
            let i = choose|i: int|
                0 <= i && i + x.len() <= b.len() && #[trigger] b.subrange(i, i + x.len()) == x;
            assert(c.subrange(a.len() + i, a.len() + i + x.len()) =~= b.subrange(i, i + x.len()));
        }
    }
}

/// The header tells the result, the player with their profile, the champion,
/// and when the game ended: at its start and its length after it.
pub proof fn lemma_header(s: SummaryV)
    ensures
        ({
            let told = discord::header_text(s);
            let ended = text::dec(s.started_at_secs + s.duration_secs);
            &&& s.win ==> text::holds(told, "Victory"@)
            &&& !s.win ==> text::holds(told, "Defeat"@)
            &&& text::holds(told, s.player)
            &&& text::holds(told, s.profile_url)
            &&& text::holds(told, s.champion)
            &&& text::holds(told, s.side)
            &&& s.queue.len() > 0 ==> text::holds(told, s.queue + " · "@)
            &&& ("-# <t:"@ + ended + ":F> · <t:"@ + ended + ":R>"@).is_prefix_of(told)
            &&& text::holds(told, discord::length_text(s.duration_secs as int))
        }),
{
    lemma_parts();
    let told = discord::header_text(s);
    let ended = text::dec(s.started_at_secs + s.duration_secs);
    let opener = "-# <t:"@ + ended + ":F> · <t:"@ + ended + ":R>"@;
    reveal_strlit(":R>\n### [");
    reveal_strlit(":R>");
    let start = "-# <t:"@ + ended + ":F> · <t:"@ + ended + ":R>\n### ["@;
    assert(start.subrange(0, opener.len() as int) =~= opener);
    assert(told.subrange(0, start.len() as int) =~= start);
    assert(told.subrange(0, opener.len() as int) =~= opener);
}

/// The standing and its change are told where they are known, the change with
/// its sign, or as a question where there was no baseline; and they are not
/// made up where they are not.
pub proof fn lemma_header_standing(s: SummaryV)
    ensures
        s.rank matches Some(r) ==> {
            &&& r.delta matches Some(d) ==> text::holds(
                discord::header_text(s),
                text::signed(d as int) + " LP"@,
            )
            &&& r.delta is None ==> text::holds(discord::header_text(s), "+? LP"@)
            &&& ("\n**"@ + r.label + "** · "@ + text::dec(r.lp as int) + " LP · "@
                + discord::delta_text(r.delta)).is_suffix_of(discord::header_text(s))
        },
{
    lemma_parts();
    if let Some(r) = s.rank {
        let told = discord::header_text(s);
        let tail = "\n**"@ + r.label + "** · "@ + text::dec(r.lp as int) + " LP · "@
            + discord::delta_text(r.delta);
        assert(told.subrange(told.len() - tail.len(), told.len() as int) =~= tail);
        assert(text::holds(told, discord::delta_text(r.delta)));
    }
}

/// The length of a game reads as its minutes and seconds.
pub proof fn lemma_length(secs: int)
    requires
        secs >= 0,
    ensures
        discord::length_text(secs) == text::digits((secs / 60) as nat) + "m "@ + seq![
            text::digit((secs % 60 / 10) as nat),
            text::digit((secs % 60 % 10) as nat),
        ] + "s"@,
{
    let ss = secs % 60;
    reveal_strlit("0");
    reveal_with_fuel(text::digits, 2);
    assert(text::dec2(ss) =~= seq![text::digit((ss / 10) as nat), text::digit((ss % 10) as nat)]);
}

/// The stat grid tells each number by its name.
pub proof fn lemma_grid(s: SummaryV, rates: RatesV)
    ensures
        ({
            let told = discord::grid_text(s, rates);
            &&& ("**KDA** "@ + text::dec(s.kills as int) + "/"@ + text::dec(s.deaths as int) + "/"@
                + text::dec(s.assists as int) + " ("@ + rates.kda).is_prefix_of(told)
            &&& (text::dec(s.vision.wards_placed as int) + " placed • "@ + text::dec(
                s.vision.wards_killed as int,
            ) + " killed • "@ + text::dec(s.vision.control_wards_bought as int)
                + " control"@).is_suffix_of(told)
        }),
{
    let told = discord::grid_text(s, rates);
    let opener = "**KDA** "@ + text::dec(s.kills as int) + "/"@ + text::dec(s.deaths as int) + "/"@
        + text::dec(s.assists as int) + " ("@ + rates.kda;
    let tail = text::dec(s.vision.wards_placed as int) + " placed • "@ + text::dec(
        s.vision.wards_killed as int,
    ) + " killed • "@ + text::dec(s.vision.control_wards_bought as int) + " control"@;
    assert(told.subrange(0, opener.len() as int) =~= opener);
    assert(told.subrange(told.len() - tail.len(), told.len() as int) =~= tail);
}

/// Digits are grouped in threes from the right: counted from there, every
/// fourth character is a comma, and no other one is.
pub proof fn lemma_groups_of_three(digits: Seq<char>, k: int)
    requires
        !digits.contains(','),
        0 <= k < discord::grouped(digits).len(),
    ensures
        ({
            let g = discord::grouped(digits);
            (g[g.len() - 1 - k] == ',') <==> k % 4 == 3
        }),
        digits.len() > 0 ==> discord::grouped(digits)[0] != ',',
    decreases digits.len(),
{
    let g = discord::grouped(digits);
    reveal_strlit(",");
    if digits.len() <= 3 {
        assert(digits.contains(g[g.len() - 1 - k]));
        assert(digits.contains(g[0]));
    } else {
        let front = digits.take(digits.len() - 3);
        let back = digits.skip(digits.len() - 3);
        assert(!front.contains(',')) by {
            if front.contains(',') {
                let i = choose|i: int| 0 <= i < front.len() && front[i] == ',';
                assert(digits[i] == ',');
            }
        }
        let h = discord::grouped(front);
        assert(h.len() > 0) by {
            lemma_grouped_len(front);
        }
        assert(g =~= h + ","@ + back);
        lemma_groups_of_three(front, 0);
        assert(g[0] == h[0]);
        if k < 3 {
            assert(g[g.len() - 1 - k] == back[2 - k]);
            assert(digits[digits.len() - 1 - k] == back[2 - k]);
            assert(digits.contains(digits[digits.len() - 1 - k]));
        } else if k > 3 {
            lemma_groups_of_three(front, k - 4);
            assert(g[g.len() - 1 - k] == h[h.len() - 1 - (k - 4)]);
        } else {
            assert(g[g.len() - 1 - k] == ',');
        }
    }
}

proof fn lemma_grouped_len(digits: Seq<char>)
    ensures
        discord::grouped(digits).len() >= digits.len(),
    decreases digits.len(),
{
    if digits.len() > 3 {
        lemma_grouped_len(digits.take(digits.len() - 3));
    }
}

/// A message is the header, the stats, the moments, the note and the brand
/// line, in this order.
pub proof fn lemma_message_order(
    s: SummaryV,
    rates: RatesV,
    moments: Seq<Tree>,
    note: Option<Seq<char>>,
)
    ensures
        ({
            let parts = discord::message_parts(s, rates, moments, note);
            let n = moments.len() as int;
            &&& parts[0] == discord::header_tree(s)
            &&& parts[1] == discord::text_tree(discord::grid_text(s, rates))
            &&& forall|i: int| 0 <= i < n ==> parts[2 + i] == #[trigger] moments[i]
            &&& note matches Some(t) ==> parts.len() == n + 4 && parts[2 + n] == discord::text_tree(
                "-# "@ + t,
            )
            &&& note is None ==> parts.len() == n + 3
            &&& parts.last() == discord::footer_tree()
        }),
{
}

/// The Highlight comes before the Lowlight, each under its own header: a clip
/// with its caption and its video, or the caption alone.
pub proof fn lemma_scenes(highlight: Option<SceneV>, lowlight: Option<SceneV>)
    ensures
        ({
            let parts = discord::scene_parts(highlight, lowlight);
            let n = match highlight {
                Some(SceneV::Recorded(_)) => 3int,
                Some(SceneV::Told(_)) => 2,
                None => 0,
            };
            &&& highlight matches Some(SceneV::Told(caption)) ==> parts[1] == discord::text_tree(
                "**"@ + "Highlight"@ + "** "@ + caption,
            )
            &&& highlight matches Some(SceneV::Recorded(clip)) ==> parts[1] == discord::text_tree(
                discord::clip_text("Highlight"@, clip.caption),
            ) && parts[2] == discord::media_tree(clip.filename)
            &&& lowlight matches Some(SceneV::Told(caption)) ==> parts[n + 1] == discord::text_tree(
                "**"@ + "Lowlight"@ + "** "@ + caption,
            )
            &&& lowlight matches Some(SceneV::Recorded(clip)) ==> parts[n + 1]
                == discord::text_tree(discord::clip_text("Lowlight"@, clip.caption)) && parts[n + 2]
                == discord::media_tree(clip.filename)
            &&& highlight is None && lowlight is None ==> parts.len() == 0
        }),
{
}

/// A moment is shown by its clip once there is one, and told by its caption
/// before that; the caption is the pick's time and summary.
pub proof fn lemma_captioned(filename: Option<Seq<char>>, pick: Option<ClipPickV>)
    ensures
        match post::captioned(filename, pick) {
            Some(SceneV::Recorded(clip)) => {
                &&& filename == Some(clip.filename)
                &&& pick matches Some(p) ==> clip.caption == Some(
                    "**"@ + text::clock(p.t_millis as int) + "** — "@ + p.summary,
                )
                &&& pick is None ==> clip.caption is None
            },
            Some(SceneV::Told(caption)) => {
                &&& filename is None
                &&& pick matches Some(p) && caption == "**"@ + text::clock(p.t_millis as int)
                    + "** — "@ + p.summary
            },
            None => filename is None && pick is None,
        },
{
}

/// A pick is journaled as the candidate it was: its time, its window and its
/// summary.
pub proof fn lemma_picks_are_journaled(c: CandidateV)
    ensures
        ({
            let p = kinds::pick_from(c);
            &&& p.t_millis == c.t_ms
            &&& p.seek_secs == c.seek_s
            &&& p.duration_secs == c.dur_s
            &&& p.summary == c.summary
        }),
{
}

/// The perspective of a player has that player's picks: the row of their PUUID
/// in the joint assignment of everyone watched in the game and them.
pub proof fn lemma_own_picks(
    g: GameV,
    tl: TimelineV,
    near: Seq<Seq<bool>>,
    puuid: Seq<char>,
    roster: Seq<Seq<char>>,
)
    ensures
        post::watched_with(g, puuid, roster).contains(puuid),
        forall|x: Seq<char>| #[trigger]
            game::tracked_in(g, roster).contains(x) ==> post::watched_with(
                g,
                puuid,
                roster,
            ).contains(x),
        post::own_picks_of(g, tl, near, puuid, roster) matches Some(own) ==> (picks::joint_picks(
            g,
            tl,
            near,
            post::watched_with(g, puuid, roster),
        ) matches Some(all) && forall|i: int|
            0 <= i < all.len() && (#[trigger] all[i]).0 == puuid && (forall|j: int|
                0 <= j < i ==> (#[trigger] all[j]).0 != puuid) ==> own == (all[i].1, all[i].2)),
{
    let listed = game::tracked_in(g, roster);
    let watched = post::watched_with(g, puuid, roster);
    if !listed.contains(puuid) {
        assert(watched[listed.len() as int] == puuid);
    }
    assert forall|x: Seq<char>| #[trigger] listed.contains(x) implies watched.contains(x) by {
        let i = choose|i: int| 0 <= i < listed.len() && listed[i] == x;
        assert(watched[i] == x);
    }
    if let Some(own) = post::own_picks_of(g, tl, near, puuid, roster) {
        let all = picks::joint_picks(g, tl, near, watched)->Some_0;
        let p = post::row_of(puuid);
        seqs::lemma_first_is(all, p);
        assert forall|i: int|
            0 <= i < all.len() && (#[trigger] all[i]).0 == puuid && (forall|j: int|
                0 <= j < i ==> (#[trigger] all[j]).0 != puuid) implies own == (
            all[i].1,
            all[i].2,
        ) by {
            assert(p(all[i]));
            let k = seqs::first_where(all, p)->Some_0;
            if k < i {
                assert(all[k].0 != puuid);
            }
            if i < k {
                assert(!p(all[i]));
            }
        }
    }
}

/// Everyone of the watch list who plays in a game is watched in it.
pub proof fn lemma_tracked(g: GameV, roster: Seq<Seq<char>>, i: int)
    requires
        0 <= i < roster.len(),
        roster[i].contains('#'),
    ensures
        g.puuid_of(roster[i]) matches Some(puuid) ==> game::tracked_in(g, roster).contains(puuid),
    decreases roster.len(),
{
    let fewer = roster.drop_last();
    let before = game::tracked_in(g, fewer);
    let now = game::tracked_in(g, roster);
    text::lemma_find(roster[i], '#');
    if let Some(puuid) = g.puuid_of(roster[i]) {
        if i < fewer.len() {
            assert(fewer[i] == roster[i]);
            lemma_tracked(g, fewer, i);
            let k = choose|k: int| 0 <= k < before.len() && before[k] == puuid;
            assert(now[k] == puuid);
        } else {
            assert(now[now.len() - 1] == puuid);
        }
    }
}

// --- the standing on a post --------------------------------------------------

/// An edit shows what was journaled and asks nobody; a post asks the ladder of
/// a ranked queue where LP are watched, and nobody otherwise.
pub proof fn lemma_where_the_standing_comes_from(edit: bool, track_lp: bool, queue_id: u16)
    ensures
        edit ==> post::source_of(edit, track_lp, queue_id) == LpSourceV::Journaled,
        !edit && !track_lp ==> post::source_of(edit, track_lp, queue_id) == LpSourceV::Nowhere,
        !edit && track_lp && queue_id == 420 ==> post::source_of(edit, track_lp, queue_id)
            == LpSourceV::Ladder("RANKED_SOLO_5x5"@),
        !edit && track_lp && queue_id == 440 ==> post::source_of(edit, track_lp, queue_id)
            == LpSourceV::Ladder("RANKED_FLEX_SR"@),
        !edit && track_lp && queue_id == 710 ==> post::source_of(edit, track_lp, queue_id)
            == LpSourceV::Ladder("RANKED_PREMADE_5x5"@),
        !edit && queue_id != 420 && queue_id != 440 && queue_id != 710 ==> post::source_of(
            edit,
            track_lp,
            queue_id,
        ) == LpSourceV::Nowhere,
{
}

/// The standing on a post is the current one; its change is how far it is up
/// the ladder from the last observation, and what is observed now is what the
/// next post's change is measured from.
pub proof fn lemma_observations_chain(
    p: ProjectionV,
    puuid: Seq<char>,
    riot_id: Seq<char>,
    queue_id: u32,
    current: RankV,
    next: RankV,
)
    requires
        post::diffable(p, puuid, queue_id, current),
    ensures
        ({
            let (seen, line) = post::observation(p, puuid, riot_id, queue_id, current);
            let q = p.after_rank(seen);
            let (_, after) = post::observation(q, puuid, riot_id, queue_id, next);
            &&& line.lp == current.lp
            &&& line.label == current.label()
            &&& p.baseline(puuid, queue_id) is None ==> line.delta is None
            &&& p.baseline(puuid, queue_id) matches Some(was) ==> line.delta is Some
                && line.delta->Some_0 == current.ladder() - was
            &&& post::diffable(q, puuid, queue_id, next) ==> after.delta is Some
                && after.delta->Some_0 == next.ladder() - current.ladder()
        }),
{
}

// --- patches -----------------------------------------------------------------

/// The patch of a version is its first two numbers: what follows them does not
/// matter.
pub proof fn lemma_patches(major: Seq<char>, minor: Seq<char>, rest: Seq<char>)
    requires
        !major.contains('.'),
        !minor.contains('.'),
    ensures
        post::patch_in(major + seq!['.'] + minor) == Some(major + "."@ + minor),
        post::patch_in(major + seq!['.'] + (minor + seq!['.'] + rest)) == Some(
            major + "."@ + minor,
        ),
        post::patch_in(major) is None,
{
    text_laws::lemma_pieces(major, '.', minor);
    text_laws::lemma_pieces(minor, '.', rest);
    text_laws::lemma_pieces(major, '.', minor + seq!['.'] + rest);
    let parts = text::pieces(major + seq!['.'] + minor, '.');
    assert(parts[0] == major && parts[1] == minor && parts.len() == 2);
    let more = text::pieces(major + seq!['.'] + (minor + seq!['.'] + rest), '.');
    assert(more[0] == major && more[1] == minor);
}

/// A post says that its replay expired exactly if it has no clip and the game's
/// patch and the client's are known and differ.
pub proof fn lemma_expired(has_clip: bool, game: Option<Seq<char>>, client: Option<Seq<char>>)
    ensures
        post::note_for(has_clip, game, client) is Some <==> !has_clip && game is Some && client
            is Some && game != client,
{
}

// --- the report --------------------------------------------------------------

/// The line of a moment tells when it was, and whether it was good: a fight is
/// marked by whether it was converted, a death by whether it was free.
#[verifier::spinoff_prover]
#[verifier::rlimit(40)]
pub proof fn lemma_moment_line(m: MomentV)
    requires
        m.t_ms >= 0,
    ensures
        ({
            let line = report::moment_line(m);
            &&& m.summary.is_suffix_of(line)
            &&& m.kind matches MomentKind::FightConversion { converted, .. } ==> text::holds(
                line,
                if converted {
                    "[fight ✓]"@
                } else {
                    "[fight ✗]"@
                },
            )
            &&& m.kind matches MomentKind::Death { free } ==> text::holds(
                line,
                if free {
                    "[death ✗]"@
                } else {
                    "[death ~]"@
                },
            )
            &&& text::holds(line, text::clock(m.t_ms as int))
        }),
{
    lemma_parts();
    let line = report::moment_line(m);
    let n = line.len() as int;
    assert(line.subrange(n - m.summary.len(), n) =~= m.summary);
    let secs = m.t_ms as int / 1000;
    let at = report::right3(text::dec(secs / 60));
    let ss = text::dec2(text::trem(secs, 60));
    let tag = report::tag_text(m.kind);
    assert(line =~= at + ":"@ + ss + "  ["@ + tag + "]  "@ + m.summary);
    reveal_strlit("   ");
    reveal_strlit("  ");
    reveal_strlit(" ");
    reveal_strlit("  [");
    reveal_strlit("]  ");
    reveal_strlit("fight ✓");
    reveal_strlit("fight ✗");
    reveal_strlit("death ✗");
    reveal_strlit("death ~");
    reveal_strlit("[fight ✓]");
    reveal_strlit("[fight ✗]");
    reveal_strlit("[death ✗]");
    reveal_strlit("[death ~]");
    let boxed = seq!['['] + tag + seq![']'];
    let front = at + ":"@ + ss + "  "@;
    let back = "  "@ + m.summary;
    assert(line =~= front + boxed + back);
    assert(text::holds(front + boxed + back, boxed));
    assert("[fight ✓]"@ =~= seq!['['] + "fight ✓"@ + seq![']']);
    assert("[fight ✗]"@ =~= seq!['['] + "fight ✗"@ + seq![']']);
    assert("[death ✗]"@ =~= seq!['['] + "death ✗"@ + seq![']']);
    assert("[death ~]"@ =~= seq!['['] + "death ~"@ + seq![']']);
    let clock = text::clock(m.t_ms as int);
    let pad = at.take(at.len() - text::dec(secs / 60).len());
    assert(at =~= pad + text::dec(secs / 60));
    let tail = "  ["@ + tag + "]  "@ + m.summary;
    assert(clock =~= text::dec(secs / 60) + ":"@ + ss);
    assert(line =~= pad + clock + tail);
    assert(text::holds(pad + clock + tail, clock));
}

// --- the overview ------------------------------------------------------------

/// A heading opens a section with its own text, trimmed, up to the next
/// heading; what stands before the first one is in none.
pub proof fn lemma_sections(head: Seq<char>, lines: Seq<Seq<char>>, before: Seq<char>)
    requires
        !"## "@.is_prefix_of(before),
    ensures
        summary::sections(seq!["## "@ + head] + lines) == seq![
            (text::trimmed(head), text::trimmed(summary::body(lines))),
        ] + summary::sections(lines),
        summary::sections(seq![before] + lines) == summary::sections(lines),
        summary::body(seq!["## "@ + head] + lines) == Seq::<char>::empty(),
        summary::body(seq![before] + lines) == before + seq!['\n'] + summary::body(lines),
{
    let first = "## "@ + head;
    reveal_strlit("## ");
    let a = seq![first] + lines;
    let b = seq![before] + lines;
    assert(a.skip(1) =~= lines);
    assert(b.skip(1) =~= lines);
    assert(first.take(3) =~= "## "@);
    assert(first.skip(3) =~= head);
    if before.len() >= 3 && before.take(3) == "## "@ {
        assert("## "@.is_prefix_of(before));
    }
}

/// The report lists the moments in order, each followed by what shows it, and
/// ends with the Highlight and the Lowlight.
pub proof fn lemma_report(
    moments: Seq<MomentV>,
    m: MomentV,
    highlight: Option<CandidateV>,
    lowlight: Option<CandidateV>,
)
    ensures
        ({
            let lines = report::report_lines(moments, highlight, lowlight);
            let n = lines.len() as int;
            &&& n >= 2
            &&& lines[n - 2] == report::pick_line("highlight"@, highlight)
            &&& lines[n - 1] == report::pick_line("lowlight"@, lowlight)
            &&& report::lines_of(moments.push(m)) == report::lines_of(moments)
                + report::moment_lines(m)
            &&& report::moment_lines(m).len() == 1 + m.evidence.len()
            &&& report::moment_lines(m)[0] == report::moment_line(m)
        }),
{
    assert(moments.push(m).drop_last() =~= moments);
}

/// The line of a pick tells its time, what it was and its window; without a
/// pick it says so.
pub proof fn lemma_pick_line(side: Seq<char>, c: CandidateV)
    ensures
        ({
            let line = report::pick_line(side, Some(c));
            &&& (side + ": "@ + text::clock(c.t_ms as int)).is_prefix_of(line)
            &&& text::holds(line, c.summary)
            &&& (" (seek "@ + text::dec(c.seek_s as int) + "s, "@ + text::dec(c.dur_s as int)
                + "s)"@).is_suffix_of(line)
            &&& report::pick_line(side, None) == side + ": none"@
        }),
{
    lemma_parts();
    let line = report::pick_line(side, Some(c));
    let opener = side + ": "@ + text::clock(c.t_ms as int);
    let tail = " (seek "@ + text::dec(c.seek_s as int) + "s, "@ + text::dec(c.dur_s as int)
        + "s)"@;
    assert(line.subrange(0, opener.len() as int) =~= opener);
    assert(line.subrange(line.len() - tail.len(), line.len() as int) =~= tail);
}

/// The picks that were journaled for a perspective are those that its post
/// captions, each on its own side.
pub proof fn lemma_journaled_picks(p: ProjectionV, e: PicksV, name: Seq<char>)
    requires
        p.identity(name) == p.root(e.puuid),
    ensures
        post::journaled_picks(p.after_picks(e), e.platform, e.game_id, name) == (
            e.highlight,
            e.lowlight,
        ),
{
}

/// The text beside a clip is its header in bold, and the caption where it says
/// anything.
pub proof fn lemma_clip_text(header: Seq<char>, caption: Seq<char>)
    ensures
        discord::clip_text(header, None) == "**"@ + header + "**"@,
        text::trimmed(caption).len() == 0 ==> discord::clip_text(header, Some(caption)) == "**"@
            + header + "**"@,
        text::trimmed(caption).len() > 0 ==> discord::clip_text(header, Some(caption)) == "**"@
            + header + "**"@ + " "@ + text::trimmed(caption),
{
}

/// A record starts at the second that its timestamp is in, and tells the rest
/// as it is.
pub proof fn lemma_records(m: MatchRecordV)
    requires
        m.game_start_timestamp >= 0,
    ensures
        ({
            let g = record::in_seconds(m);
            &&& g.started_at_secs * 1000 <= m.game_start_timestamp < g.started_at_secs * 1000 + 1000
            &&& g.match_id == m.match_id
            &&& g.platform_id == m.platform_id
            &&& g.queue_id == m.queue_id
            &&& g.game_duration == m.game_duration
            &&& g.participants == m.participants
        }),
{
}

} // verus!
