//! LP tracking. Match data has no rank info, so an LP *difference* is computed
//! by taking the player's current standing and diffing it against the previous
//! observation. Deltas are attributed per game as long as games are catalogued
//! in chronological order.

use vstd::prelude::*;

use crate::json::{Json, Tree};
use crate::text::{chars_of, same, same_ignoring_case, slice_text, to_lowercase, to_uppercase};
use crate::{json, scan, seqs, text};

verus! {

/// Master and above: a single continuous LP pool with no divisions.
pub const APEX: i32 = 7;

/// Current ranked standing in one queue. Tier and division stay the raw
/// league-v4 strings ("GOLD", "II") so an unknown tier still displays and
/// diffs; only the ladder ordering needs the known table.
#[derive(Debug)]
pub struct Rank {
    pub tier: String,
    pub division: String,
    pub lp: i32,
}

/// The mathematical value of a [`Rank`].
pub struct RankV {
    pub tier: Seq<char>,
    pub division: Seq<char>,
    pub lp: i32,
}

impl View for Rank {
    type V = RankV;

    open spec fn view(&self) -> RankV {
        RankV { tier: self.tier@, division: self.division@, lp: self.lp }
    }
}

/// Whether two texts are equal but for the case of ASCII letters.
pub open spec fn reads(a: Seq<char>, b: Seq<char>) -> bool {
    text::ascii_lowered(a) == text::ascii_lowered(b)
}

/// Ladder ordering for the known tiers; an unknown tier sorts below Iron.
pub open spec fn tier_place(t: Seq<char>) -> int {
    if reads(t, "IRON"@) {
        0
    } else if reads(t, "BRONZE"@) {
        1
    } else if reads(t, "SILVER"@) {
        2
    } else if reads(t, "GOLD"@) {
        3
    } else if reads(t, "PLATINUM"@) {
        4
    } else if reads(t, "EMERALD"@) {
        5
    } else if reads(t, "DIAMOND"@) {
        6
    } else if reads(t, "MASTER"@) || reads(t, "GRANDMASTER"@) || reads(t, "CHALLENGER"@) {
        APEX as int
    } else {
        -1
    }
}

/// Ladder ordering for the known tiers. An unknown (newly added) tier sorts
/// below Iron: its label and LP still render; only cross-tier deltas around
/// it are approximate.
pub fn tier_index(t: &str) -> (r: i32)
    ensures
        r == tier_place(t@),
{
    if same_ignoring_case(t, "IRON") {
        0
    } else if same_ignoring_case(t, "BRONZE") {
        1
    } else if same_ignoring_case(t, "SILVER") {
        2
    } else if same_ignoring_case(t, "GOLD") {
        3
    } else if same_ignoring_case(t, "PLATINUM") {
        4
    } else if same_ignoring_case(t, "EMERALD") {
        5
    } else if same_ignoring_case(t, "DIAMOND") {
        6
    } else if same_ignoring_case(t, "MASTER") || same_ignoring_case(t, "GRANDMASTER")
        || same_ignoring_case(t, "CHALLENGER") {
        APEX
    } else {
        -1
    }
}

/// The place of a division within its tier: IV is the lowest, I (or anything
/// else) the top.
pub open spec fn division_place(d: Seq<char>) -> int {
    if d == "IV"@ {
        0
    } else if d == "III"@ {
        1
    } else if d == "II"@ {
        2
    } else {
        3
    }
}

/// The first character in upper case, the rest in lower case.
pub open spec fn titlecased(s: Seq<char>) -> Seq<char> {
    if s.len() == 0 {
        seq![]
    } else {
        text::uppercase(s.subrange(0, 1)) + text::lowercase(s.subrange(1, s.len() as int))
    }
}

/// Writes the first character in upper case and the rest in lower case.
pub fn titlecase(s: &str) -> (r: String)
    ensures
        r@ == titlecased(s@),
{
    let v: Vec<char> = chars_of(s);
    if v.len() == 0 {
        let r: String = String::new();
        proof {
            assert(r@ =~= seq![]);
        }
        return r;
    }
    let first: String = slice_text(&v, 0, 1);
    let rest: String = slice_text(&v, 1, v.len());
    to_uppercase(first.as_str()).concat(to_lowercase(rest.as_str()).as_str())
}

impl RankV {
    /// The ladder position.
    pub open spec fn ladder(self) -> int {
        if tier_place(self.tier) >= APEX {
            APEX * 400 + self.lp
        } else {
            tier_place(self.tier) * 400 + division_place(self.division) * 100 + self.lp
        }
    }

    /// The display text.
    pub open spec fn label(self) -> Seq<char> {
        if tier_place(self.tier) >= APEX {
            titlecased(self.tier)
        } else {
            titlecased(self.tier) + " "@ + self.division
        }
    }
}

impl Rank {
    fn wide_ladder(&self) -> (r: i64)
        ensures
            r == self@.ladder(),
    {
        let idx: i64 = tier_index(self.tier.as_str()) as i64;
        if idx >= APEX as i64 {
            APEX as i64 * 400 + self.lp as i64
        } else {
            let div: i64 = if same(self.division.as_str(), "IV") {
                0
            } else if same(self.division.as_str(), "III") {
                1
            } else if same(self.division.as_str(), "II") {
                2
            } else {
                3
            };
            idx * 400 + div * 100 + self.lp as i64
        }
    }

    /// A monotonic ladder position so a delta survives promotions/demotions
    /// (e.g. Gold II 98 -> Gold I 20 reads as +22, not -78).
    pub fn ladder_value(&self) -> (r: i32)
        requires
            i32::MIN <= self@.ladder() <= i32::MAX,
        ensures
            r == self@.ladder(),
    {
        self.wide_ladder() as i32
    }

    /// The ladder position, where it fits in 32 bits.
    pub fn checked_ladder_value(&self) -> (r: Option<i32>)
        ensures
            match r {
                Some(v) => v == self@.ladder(),
                None => !(i32::MIN <= self@.ladder() <= i32::MAX),
            },
    {
        let wide: i64 = self.wide_ladder();
        if -0x8000_0000 <= wide && wide <= 0x7fff_ffff {
            Some(wide as i32)
        } else {
            None
        }
    }

    /// Display like "Gold II", or just "Master" for apex tiers.
    pub fn label(&self) -> (r: String)
        ensures
            r@ == self@.label(),
    {
        let tier: String = titlecase(self.tier.as_str());
        if tier_index(self.tier.as_str()) >= APEX {
            tier
        } else {
            tier.concat(" ").concat(self.division.as_str())
        }
    }
}

/// The league-v4 `queueType` string of a match queue, if it is ranked.
pub open spec fn ladder_of(queue: u16) -> Option<Seq<char>> {
    if queue == 420 {
        Some("RANKED_SOLO_5x5"@)
    } else if queue == 440 {
        Some("RANKED_FLEX_SR"@)
    } else if queue == 710 {
        Some("RANKED_PREMADE_5x5"@)
    } else {
        None
    }
}

/// The league-v4 `queueType` string for a match queue id, if it is ranked.
/// Ranked 5v5 (premade teams, 710) has its own league-v4 ladder.
pub fn queue_type(queue: u16) -> (r: Option<&'static str>)
    ensures
        match r {
            Some(s) => ladder_of(queue) == Some(s@),
            None => ladder_of(queue) is None,
        },
{
    match queue {
        420 => Some("RANKED_SOLO_5x5"),
        440 => Some("RANKED_FLEX_SR"),
        710 => Some("RANKED_PREMADE_5x5"),
        _ => None,
    }
}

// --- reading league-v4 entries -------------------------------------------------

/// Whether a league entry belongs to a queue type.
pub open spec fn in_queue(queue_type: Seq<char>) -> spec_fn(Tree) -> bool {
    |e: Tree| e.str_at("queueType"@) == Some(queue_type)
}

/// `x`, or `other` without one.
pub open spec fn text_or(x: Option<Seq<char>>, other: Seq<char>) -> Seq<char> {
    match x {
        Some(x) => x,
        None => other,
    }
}

/// The standing that one league entry states.
pub open spec fn standing(e: Tree) -> RankV {
    RankV {
        tier: text_or(e.str_at("tier"@), "UNRANKED"@),
        division: text_or(e.str_at("rank"@), "I"@),
        lp: e.int_or_zero("leaguePoints"@) as i32,
    }
}

/// The standing in `queue_type` that a league-v4 reply states.
pub open spec fn standing_in(entries: Tree, queue_type: Seq<char>) -> Option<RankV> {
    match entries {
        Tree::Arr(items) => match seqs::first_where(items, in_queue(queue_type)) {
            Some(i) => Some(standing(items[i])),
            None => None,
        },
        _ => None,
    }
}

fn member_or(e: &Json, key: &str, other: &str) -> (r: String)
    ensures
        r@ == text_or(e@.str_at(key@), other@),
{
    match e.str_at(key) {
        Some(s) => s.clone(),
        None => other.to_string(),
    }
}

/// The player's current standing in `queue_type`, from the league-v4 entries
/// of the player, or `None` if unranked there. Lenient: a tier never heard of
/// passes through as it is written.
pub fn rank_from_entries(entries: &Json, queue_type: &str) -> (r: Option<Rank>)
    ensures
        match r {
            Some(k) => standing_in(entries@, queue_type@) == Some(k@),
            None => standing_in(entries@, queue_type@) is None,
        },
{
    match entries {
        Json::Arr(items) => {
            proof {
                json::lemma_arr(*items);
                assert(json::trees(items@) =~= scan::views(items@));
            }
            let f = |e: &Json| -> (b: bool)
                ensures
                    b == in_queue(queue_type@)(e@),
                { e.str_is("queueType", queue_type) };
            match scan::find(items, f, Ghost(in_queue(queue_type@))) {
                Some(i) => {
                    let e: &Json = &items[i];
                    Some(
                        Rank {
                            tier: member_or(e, "tier", "UNRANKED"),
                            division: member_or(e, "rank", "I"),
                            lp: #[verifier::truncate]
                            (e.int_or_zero("leaguePoints") as i32),
                        },
                    )
                },
                None => None,
            }
        },
        _ => None,
    }
}

// --- laws --------------------------------------------------------------------

/// Below the apex, a higher division of a tier beats a lower one, and a
/// higher tier beats a lower one, as long as neither standing holds more than
/// a division's worth of LP; within one division more LP is higher.
pub proof fn lemma_ladder_is_monotonic(a: RankV, b: RankV)
    requires
        0 <= a.lp < 100,
        0 <= b.lp,
        tier_place(a.tier) < APEX,
        ({
            ||| tier_place(a.tier) < tier_place(b.tier)
            ||| tier_place(a.tier) == tier_place(b.tier) && division_place(a.division)
                < division_place(b.division)
            ||| tier_place(a.tier) == tier_place(b.tier) && division_place(a.division)
                == division_place(b.division) && a.lp < b.lp
        }),
    ensures
        a.ladder() < b.ladder(),
{
}

/// At the apex the ladder is the LP pool alone: the tiers there and the
/// divisions do not matter.
pub proof fn lemma_apex_is_one_pool(a: RankV, b: RankV)
    requires
        tier_place(a.tier) == APEX,
        tier_place(b.tier) == APEX,
    ensures
        a.ladder() - b.ladder() == a.lp - b.lp,
{
}

/// A promotion by one division reads as the LP gained across the boundary.
pub proof fn lemma_promotion_delta(before: RankV, after: RankV)
    requires
        tier_place(before.tier) == tier_place(after.tier),
        tier_place(before.tier) < APEX,
        division_place(after.division) == division_place(before.division) + 1,
    ensures
        after.ladder() - before.ladder() == (100 - before.lp) + after.lp,
{
}

/// The tiers from the bottom of the ladder to its apex.
pub open spec fn tiers() -> Seq<Seq<char>> {
    seq![
        "IRON"@,
        "BRONZE"@,
        "SILVER"@,
        "GOLD"@,
        "PLATINUM"@,
        "EMERALD"@,
        "DIAMOND"@,
        "MASTER"@,
    ]
}

/// The divisions of a tier from its lowest to its highest.
pub open spec fn divisions() -> Seq<Seq<char>> {
    seq!["IV"@, "III"@, "II"@, "I"@]
}

/// Whether a text spells a name, in whatever case.
pub open spec fn spells(t: Seq<char>, name: Seq<char>) -> bool {
    t.len() == name.len() && forall|i: int|
        0 <= i < t.len() ==> text::ascii_lower(#[trigger] t[i]) == text::ascii_lower(name[i])
}

proof fn lemma_spelled(t: Seq<char>, name: Seq<char>)
    ensures
        spells(t, name) == reads(t, name),
{
    let a = text::ascii_lowered(t);
    let b = text::ascii_lowered(name);
    if spells(t, name) {
        assert(a =~= b);
    }
    if a == b {
        assert(a.len() == t.len() && b.len() == name.len());
        assert forall|i: int| 0 <= i < t.len() implies text::ascii_lower(#[trigger] t[i])
            == text::ascii_lower(name[i]) by {
            assert(a[i] == b[i]);
        }
    }
}

proof fn lemma_tier_names()
    ensures
        "IRON"@.len() == 4 && "IRON"@[0] == 'I',
        "BRONZE"@.len() == 6 && "BRONZE"@[0] == 'B',
        "SILVER"@.len() == 6 && "SILVER"@[0] == 'S',
        "GOLD"@.len() == 4 && "GOLD"@[0] == 'G',
        "PLATINUM"@.len() == 8,
        "EMERALD"@.len() == 7 && "EMERALD"@[0] == 'E',
        "DIAMOND"@.len() == 7 && "DIAMOND"@[0] == 'D',
        "MASTER"@.len() == 6 && "MASTER"@[0] == 'M',
        "GRANDMASTER"@.len() == 11,
        "CHALLENGER"@.len() == 10,
        "IV"@ != "III"@ && "IV"@ != "II"@ && "III"@ != "II"@,
        "I"@ != "IV"@ && "I"@ != "III"@ && "I"@ != "II"@,
{
    reveal_strlit("IRON");
    reveal_strlit("BRONZE");
    reveal_strlit("SILVER");
    reveal_strlit("GOLD");
    reveal_strlit("PLATINUM");
    reveal_strlit("EMERALD");
    reveal_strlit("DIAMOND");
    reveal_strlit("MASTER");
    reveal_strlit("GRANDMASTER");
    reveal_strlit("CHALLENGER");
    reveal_strlit("IV");
    reveal_strlit("III");
    reveal_strlit("II");
    reveal_strlit("I");
    assert("IV"@.len() == 2 && "IV"@[1] == 'V');
    assert("III"@.len() == 3);
    assert("II"@.len() == 2 && "II"@[1] == 'I');
    assert("I"@.len() == 1);
}

/// The tiers have their places, one after the other.
proof fn lemma_tier_places(t: Seq<char>, i: int)
    requires
        0 <= i < 8,
        spells(t, tiers()[i]),
    ensures
        tier_place(t) == i,
{
    lemma_tier_names();
    lemma_spelled(t, tiers()[i]);
    let low = text::ascii_lowered(t);
    assert(low.len() == t.len());
    assert(low[0] == text::ascii_lower(t[0]));
    assert(text::ascii_lowered("IRON"@)[0] == 'i');
    assert(text::ascii_lowered("BRONZE"@)[0] == 'b');
    assert(text::ascii_lowered("SILVER"@)[0] == 's');
    assert(text::ascii_lowered("GOLD"@)[0] == 'g');
    assert(text::ascii_lowered("EMERALD"@)[0] == 'e');
    assert(text::ascii_lowered("DIAMOND"@)[0] == 'd');
    assert(text::ascii_lowered("MASTER"@)[0] == 'm');
}

/// A promotion out of the top division of a tier into the lowest one of the
/// next tier, or to the apex, reads as the LP gained across the boundary.
pub proof fn lemma_tier_promotion_delta(before: RankV, after: RankV, i: int)
    requires
        0 <= i < 7,
        spells(before.tier, tiers()[i]),
        before.division == "I"@,
        spells(after.tier, tiers()[i + 1]),
        after.division == "IV"@ || i + 1 == 7,
    ensures
        after.ladder() - before.ladder() == (100 - before.lp) + after.lp,
{
    lemma_tier_places(before.tier, i);
    lemma_tier_places(after.tier, i + 1);
    lemma_tier_names();
}

/// Inside a tier below the apex, a division is a hundred LP above the one
/// under it.
pub proof fn lemma_division_promotion_delta(before: RankV, after: RankV, i: int, d: int)
    requires
        0 <= i < 7,
        spells(before.tier, tiers()[i]),
        spells(after.tier, tiers()[i]),
        0 <= d < 3,
        before.division == divisions()[d],
        after.division == divisions()[d + 1],
    ensures
        after.ladder() - before.ladder() == (100 - before.lp) + after.lp,
{
    lemma_tier_places(before.tier, i);
    lemma_tier_places(after.tier, i);
    lemma_tier_names();
}

/// The tiers and divisions are in order: whoever stands in a higher tier, or in
/// a higher division of the same tier, is higher on the ladder than anyone who
/// has not filled their division.
pub proof fn lemma_tiers_are_in_order(low: RankV, high: RankV, i: int, j: int, d: int, e: int)
    requires
        0 <= i <= j < 8,
        i < 7,
        spells(low.tier, tiers()[i]),
        spells(high.tier, tiers()[j]),
        0 <= d < 4,
        0 <= e < 4,
        low.division == divisions()[d],
        high.division == divisions()[e],
        i < j || d < e,
        0 <= low.lp < 100,
        0 <= high.lp,
    ensures
        low.ladder() < high.ladder(),
{
    lemma_tier_places(low.tier, i);
    lemma_tier_places(high.tier, j);
    lemma_tier_names();
}

/// Master, Grandmaster and Challenger are one pool of LP, whatever division
/// they state, and the pool starts where Diamond ends.
pub proof fn lemma_apex_tiers(a: RankV, b: RankV)
    requires
        spells(a.tier, "MASTER"@) || spells(a.tier, "GRANDMASTER"@) || spells(
            a.tier,
            "CHALLENGER"@,
        ),
        spells(b.tier, "MASTER"@) || spells(b.tier, "GRANDMASTER"@) || spells(
            b.tier,
            "CHALLENGER"@,
        ),
    ensures
        a.ladder() - b.ladder() == a.lp - b.lp,
        a.ladder() == 2800 + a.lp,
        a.label() == titlecased(a.tier),
{
    lemma_tier_names();
    lemma_apex_place(a.tier);
    lemma_apex_place(b.tier);
}

proof fn lemma_apex_place(t: Seq<char>)
    requires
        spells(t, "MASTER"@) || spells(t, "GRANDMASTER"@) || spells(t, "CHALLENGER"@),
    ensures
        tier_place(t) == 7,
{
    lemma_tier_names();
    if spells(t, "MASTER"@) {
        lemma_tier_places(t, 7);
    } else {
        lemma_spelled(t, "GRANDMASTER"@);
        lemma_spelled(t, "CHALLENGER"@);
        let low = text::ascii_lowered(t);
        assert(low.len() == t.len());
        assert(text::ascii_lowered("PLATINUM"@).len() == 8);
    }
}

/// A tier that is not known stands one tier below Iron: a standing there is
/// 400 LP below the same one in Iron.
pub proof fn lemma_unknown_tiers_are_below_iron(unknown: RankV, iron: RankV)
    requires
        forall|i: int| 0 <= i < 8 ==> !spells(unknown.tier, #[trigger] tiers()[i]),
        !spells(unknown.tier, "GRANDMASTER"@),
        !spells(unknown.tier, "CHALLENGER"@),
        spells(iron.tier, "IRON"@),
        unknown.division == iron.division,
        unknown.lp == iron.lp,
    ensures
        unknown.ladder() == iron.ladder() - 400,
{
    lemma_tier_places(iron.tier, 0);
    assert forall|i: int| 0 <= i < 8 implies !reads(unknown.tier, #[trigger] tiers()[i]) by {
        lemma_spelled(unknown.tier, tiers()[i]);
    }
    assert(!reads(unknown.tier, tiers()[0]));
    assert(!reads(unknown.tier, tiers()[1]));
    assert(!reads(unknown.tier, tiers()[2]));
    assert(!reads(unknown.tier, tiers()[3]));
    assert(!reads(unknown.tier, tiers()[4]));
    assert(!reads(unknown.tier, tiers()[5]));
    assert(!reads(unknown.tier, tiers()[6]));
    assert(!reads(unknown.tier, tiers()[7]));
    lemma_spelled(unknown.tier, "GRANDMASTER"@);
    lemma_spelled(unknown.tier, "CHALLENGER"@);
}

/// Below the apex the label is the tier, then the division.
pub proof fn lemma_labels(r: RankV, i: int)
    requires
        0 <= i < 7,
        spells(r.tier, tiers()[i]),
    ensures
        r.label() == titlecased(r.tier) + " "@ + r.division,
{
    lemma_tier_places(r.tier, i);
}

/// A standing is read from the first entry of the queue that is asked for, and
/// there is none without such an entry.
pub proof fn lemma_standing_is_of_the_queue(items: Seq<Tree>, queue_type: Seq<char>)
    ensures
        match standing_in(Tree::Arr(items), queue_type) {
            Some(r) => exists|i: int|
                #![trigger items[i]]
                {
                    &&& 0 <= i < items.len()
                    &&& items[i].str_at("queueType"@) == Some(queue_type)
                    &&& forall|j: int|
                        0 <= j < i ==> (#[trigger] items[j]).str_at("queueType"@) != Some(queue_type)
                    &&& items[i].str_at("tier"@) matches Some(tier) ==> r.tier == tier
                    &&& items[i].str_at("rank"@) matches Some(rank) ==> r.division == rank
                    &&& r.lp == items[i].int_or_zero("leaguePoints"@) as i32
                },
            None => forall|i: int|
                0 <= i < items.len() ==> (#[trigger] items[i]).str_at("queueType"@) != Some(
                    queue_type,
                ),
        },
{
    seqs::lemma_first_is(items, in_queue(queue_type));
    if let Some(i) = seqs::first_where(items, in_queue(queue_type)) {
        assert(in_queue(queue_type)(items[i]));
        assert forall|j: int| 0 <= j < i implies (#[trigger] items[j]).str_at("queueType"@) != Some(
            queue_type,
        ) by {
            assert(!in_queue(queue_type)(items[j]));
        }
    } else {
        assert forall|i: int| 0 <= i < items.len() implies (#[trigger] items[i]).str_at(
            "queueType"@,
        ) != Some(queue_type) by {
            assert(!in_queue(queue_type)(items[i]));
        }
    }
}

} // verus!
